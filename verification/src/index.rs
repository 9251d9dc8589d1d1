//! The derived index: the two maps — display name to item id, and item id
//! to item — that the client rebuilds wholesale from every snapshot of the
//! item list. Entries are kept sorted by key, so enumeration order is the
//! lexicographic key order.

use vstd::prelude::*;
use crate::item::{Item, ItemView};
use crate::strings::{lex_lt, lemma_lex_connex, lemma_lex_irrefl, lemma_lex_trans, str_eq, str_lt};

verus! {

/// The map an association list denotes; a later entry overrides an
/// earlier one with the same key.
pub open spec fn assoc_map<V>(s: Seq<(Seq<char>, V)>) -> Map<Seq<char>, V>
    decreases s.len(),
{
    if s.len() == 0 {
        Map::empty()
    } else {
        assoc_map(s.drop_last()).insert(s.last().0, s.last().1)
    }
}

/// The keys of the association list are strictly ascending.
pub open spec fn keys_sorted<V>(s: Seq<(Seq<char>, V)>) -> bool {
    forall|i: int, j: int| 0 <= i < j < s.len() ==> lex_lt((#[trigger] s[i]).0, (#[trigger] s[j]).0)
}

/// A key is in the denoted map exactly when some entry carries it.
pub proof fn lemma_assoc_contains<V>(s: Seq<(Seq<char>, V)>, k: Seq<char>)
    ensures
        assoc_map(s).contains_key(k) <==> exists|i: int| 0 <= i < s.len() && (#[trigger] s[i]).0
            == k,
    decreases s.len(),
{
    if s.len() > 0 {
        let s0 = s.drop_last();
        lemma_assoc_contains(s0, k);
        assert(forall|i: int| 0 <= i < s0.len() ==> #[trigger] s0[i] == s[i]);
        if k == s.last().0 {
            assert((s[s.len() - 1]).0 == k);
        } else {
            if assoc_map(s).contains_key(k) {
                let i = choose|i: int| 0 <= i < s0.len() && (#[trigger] s0[i]).0 == k;
                assert((s[i]).0 == k);
            }
            if exists|i: int| 0 <= i < s.len() && (#[trigger] s[i]).0 == k {
                let i = choose|i: int| 0 <= i < s.len() && (#[trigger] s[i]).0 == k;
                assert(i < s0.len());
                assert((s0[i]).0 == k);
            }
        }
    }
}

/// An entry whose key never recurs later in the list gives the key its
/// value in the denoted map.
pub proof fn lemma_assoc_value<V>(s: Seq<(Seq<char>, V)>, i: int)
    requires
        0 <= i < s.len(),
        forall|j: int| i < j < s.len() ==> (#[trigger] s[j]).0 != s[i].0,
    ensures
        assoc_map(s).contains_key(s[i].0),
        assoc_map(s)[s[i].0] == s[i].1,
    decreases s.len(),
{
    if i < s.len() - 1 {
        let s0 = s.drop_last();
        assert(forall|j: int| 0 <= j < s0.len() ==> #[trigger] s0[j] == s[j]);
        lemma_assoc_value(s0, i);
        assert(s.last().0 != s[i].0);
    }
}

/// Strictly ascending keys never repeat.
pub proof fn lemma_sorted_unique<V>(s: Seq<(Seq<char>, V)>)
    requires
        keys_sorted(s),
    ensures
        forall|i: int, j: int|
            0 <= i < s.len() && 0 <= j < s.len() && i != j ==> (#[trigger] s[i]).0 != (
            #[trigger] s[j]).0,
{
    assert forall|i: int, j: int|
        0 <= i < s.len() && 0 <= j < s.len() && i != j implies (s[i]).0 != (s[j]).0 by {
        if i < j {
            assert(lex_lt(s[i].0, s[j].0));
            lemma_lex_irrefl(s[i].0);
        } else {
            assert(lex_lt(s[j].0, s[i].0));
            lemma_lex_irrefl(s[i].0);
        }
    }
}

/// Overwriting the value of the entry at `j`, when its key appears nowhere
/// else, inserts into the denoted map.
pub proof fn lemma_assoc_update<V>(s: Seq<(Seq<char>, V)>, j: int, v2: V)
    requires
        0 <= j < s.len(),
        forall|i: int| 0 <= i < s.len() && i != j ==> (#[trigger] s[i]).0 != s[j].0,
    ensures
        assoc_map(s.update(j, (s[j].0, v2))) == assoc_map(s).insert(s[j].0, v2),
    decreases s.len(),
{
    let t = s.update(j, (s[j].0, v2));
    if j == s.len() - 1 {
        assert(t.drop_last() =~= s.drop_last());
        assert(t.last() == (s[j].0, v2));
        assert(assoc_map(s.drop_last()).insert(s[j].0, s[j].1).insert(s[j].0, v2)
            =~= assoc_map(s.drop_last()).insert(s[j].0, v2));
    } else {
        let s0 = s.drop_last();
        assert(forall|i: int| 0 <= i < s0.len() ==> #[trigger] s0[i] == s[i]);
        lemma_assoc_update(s0, j, v2);
        assert(t.drop_last() =~= s0.update(j, (s[j].0, v2)));
        assert(t.last() == s.last());
        assert(s.last().0 != s[j].0);
        assert(assoc_map(s0).insert(s[j].0, v2).insert(s.last().0, s.last().1) =~= assoc_map(
            s0,
        ).insert(s.last().0, s.last().1).insert(s[j].0, v2));
    }
}

/// Inserting an entry with a fresh key anywhere in the list inserts into
/// the denoted map.
pub proof fn lemma_assoc_insert<V>(s: Seq<(Seq<char>, V)>, j: int, k: Seq<char>, v: V)
    requires
        0 <= j <= s.len(),
        forall|i: int| 0 <= i < s.len() ==> (#[trigger] s[i]).0 != k,
    ensures
        assoc_map(s.insert(j, (k, v))) == assoc_map(s).insert(k, v),
    decreases s.len(),
{
    let t = s.insert(j, (k, v));
    if j == s.len() {
        assert(t.drop_last() =~= s);
        assert(t.last() == (k, v));
    } else {
        let s0 = s.drop_last();
        assert(forall|i: int| 0 <= i < s0.len() ==> #[trigger] s0[i] == s[i]);
        lemma_assoc_insert(s0, j, k, v);
        assert(t.drop_last() =~= s0.insert(j, (k, v)));
        assert(t.last() == s.last());
        assert(s.last().0 != k);
        assert(assoc_map(s0).insert(k, v).insert(s.last().0, s.last().1) =~= assoc_map(s0).insert(
            s.last().0,
            s.last().1,
        ).insert(k, v));
    }
}

/// The association entries a sequence of items denotes, keyed by id.
pub open spec fn id_entries(s: Seq<ItemView>) -> Seq<(Seq<char>, ItemView)> {
    s.map_values(|iv: ItemView| (iv.id, iv))
}

/// The name-to-id map a snapshot of the item list builds: one entry per
/// item, a later item overriding an earlier one with the same name.
pub open spec fn built_name_map(items: Seq<ItemView>) -> Map<Seq<char>, Seq<char>>
    decreases items.len(),
{
    if items.len() == 0 {
        Map::empty()
    } else {
        built_name_map(items.drop_last()).insert(items.last().name, items.last().id)
    }
}

/// The id-to-item map a snapshot of the item list builds.
pub open spec fn built_id_map(items: Seq<ItemView>) -> Map<Seq<char>, ItemView>
    decreases items.len(),
{
    if items.len() == 0 {
        Map::empty()
    } else {
        built_id_map(items.drop_last()).insert(items.last().id, items.last())
    }
}

/// Two sorted association lists denoting the same map are the same list:
/// the sorted form is canonical.
pub proof fn lemma_sorted_canonical<V>(s1: Seq<(Seq<char>, V)>, s2: Seq<(Seq<char>, V)>)
    requires
        keys_sorted(s1),
        keys_sorted(s2),
        assoc_map(s1) == assoc_map(s2),
    ensures
        s1 == s2,
    decreases s1.len(),
{
    if s1.len() == 0 {
        if s2.len() > 0 {
            assert(assoc_map(s2).contains_key(s2.last().0));
        }
        assert(s1 =~= s2);
    } else if s2.len() == 0 {
        assert(assoc_map(s1).contains_key(s1.last().0));
        assert(s1 =~= s2);
    } else {
        let k1 = s1.last().0;
        let k2 = s2.last().0;
        assert(assoc_map(s1).contains_key(k1));
        assert(assoc_map(s2).contains_key(k2));
        lemma_assoc_contains(s2, k1);
        lemma_assoc_contains(s1, k2);
        if k1 != k2 {
            let i = choose|i: int| 0 <= i < s2.len() && (#[trigger] s2[i]).0 == k1;
            let j2 = choose|j: int| 0 <= j < s1.len() && (#[trigger] s1[j]).0 == k2;
            assert(i < s2.len() - 1);
            assert(j2 < s1.len() - 1);
            assert(lex_lt(k1, k2));
            assert(lex_lt(k2, k1));
            lemma_lex_trans(k1, k2, k1);
            lemma_lex_irrefl(k1);
        }
        lemma_sorted_unique(s1);
        lemma_sorted_unique(s2);
        lemma_assoc_value(s1, s1.len() - 1);
        lemma_assoc_value(s2, s2.len() - 1);
        assert(s1.last().1 == s2.last().1);
        lemma_assoc_contains(s1.drop_last(), k1);
        lemma_assoc_contains(s2.drop_last(), k2);
        assert(forall|i: int| 0 <= i < s1.len() - 1 ==> #[trigger] s1.drop_last()[i] == s1[i]);
        assert(forall|i: int| 0 <= i < s2.len() - 1 ==> #[trigger] s2.drop_last()[i] == s2[i]);
        assert(!assoc_map(s1.drop_last()).contains_key(k1));
        assert(!assoc_map(s2.drop_last()).contains_key(k2));
        assert(assoc_map(s1.drop_last()) =~= assoc_map(s1).remove(k1));
        assert(assoc_map(s2.drop_last()) =~= assoc_map(s2).remove(k2));
        lemma_sorted_canonical(s1.drop_last(), s2.drop_last());
        assert(s1.len() == s2.len());
        assert forall|i: int| 0 <= i < s1.len() implies s1[i] == s2[i] by {
            if i < s1.len() - 1 {
                assert(s1.drop_last()[i] == s1[i]);
                assert(s2.drop_last()[i] == s2[i]);
            } else {
                assert(s1[i] == s1.last());
                assert(s2[i] == s2.last());
            }
        }
        assert(s1 =~= s2);
    }
}

/// The entries the name map is built from, one per item, keyed by name.
pub open spec fn name_entries_of(items: Seq<ItemView>) -> Seq<(Seq<char>, Seq<char>)> {
    items.map_values(|iv: ItemView| (iv.name, iv.id))
}

/// The built name map is the map of the per-item name entries.
pub proof fn lemma_built_name_map_is_assoc(items: Seq<ItemView>)
    ensures
        built_name_map(items) == assoc_map(name_entries_of(items)),
    decreases items.len(),
{
    if items.len() > 0 {
        lemma_built_name_map_is_assoc(items.drop_last());
        assert(name_entries_of(items).drop_last() =~= name_entries_of(items.drop_last()));
        assert(name_entries_of(items).last() == (items.last().name, items.last().id));
    }
}

/// The built id map is the map of the per-item id entries.
pub proof fn lemma_built_id_map_is_assoc(items: Seq<ItemView>)
    ensures
        built_id_map(items) == assoc_map(id_entries(items)),
    decreases items.len(),
{
    if items.len() > 0 {
        lemma_built_id_map_is_assoc(items.drop_last());
        assert(id_entries(items).drop_last() =~= id_entries(items.drop_last()));
        assert(id_entries(items).last() == (items.last().id, items.last()));
    }
}

/// A name is a key of the built name map exactly when some item carries it.
pub proof fn lemma_built_name_dom(items: Seq<ItemView>, n: Seq<char>)
    ensures
        built_name_map(items).contains_key(n) <==> exists|i: int|
            0 <= i < items.len() && (#[trigger] items[i]).name == n,
{
    lemma_built_name_map_is_assoc(items);
    lemma_assoc_contains(name_entries_of(items), n);
    if exists|i: int| 0 <= i < items.len() && (#[trigger] items[i]).name == n {
        let i = choose|i: int| 0 <= i < items.len() && (#[trigger] items[i]).name == n;
        assert((name_entries_of(items)[i]).0 == n);
    }
    if exists|i: int| 0 <= i < items.len() && (#[trigger] name_entries_of(items)[i]).0 == n {
        let i = choose|i: int| 0 <= i < items.len() && (#[trigger] name_entries_of(items)[i]).0
            == n;
        assert(items[i].name == n);
    }
}

/// An id is a key of the built id map exactly when some item carries it.
pub proof fn lemma_built_id_dom(items: Seq<ItemView>, id: Seq<char>)
    ensures
        built_id_map(items).contains_key(id) <==> exists|i: int|
            0 <= i < items.len() && (#[trigger] items[i]).id == id,
{
    lemma_built_id_map_is_assoc(items);
    lemma_assoc_contains(id_entries(items), id);
    if exists|i: int| 0 <= i < items.len() && (#[trigger] items[i]).id == id {
        let i = choose|i: int| 0 <= i < items.len() && (#[trigger] items[i]).id == id;
        assert((id_entries(items)[i]).0 == id);
    }
    if exists|i: int| 0 <= i < items.len() && (#[trigger] id_entries(items)[i]).0 == id {
        let i = choose|i: int| 0 <= i < items.len() && (#[trigger] id_entries(items)[i]).0 == id;
        assert(items[i].id == id);
    }
}

/// Building from a snapshot with pairwise-distinct names and ids yields
/// maps of equal cardinality: one entry in each per item.
pub proof fn lemma_build_equal_cardinality(items: Seq<ItemView>)
    requires
        forall|i: int, j: int|
            0 <= i < j < items.len() ==> (#[trigger] items[i]).name != (#[trigger] items[j]).name,
        forall|i: int, j: int|
            0 <= i < j < items.len() ==> (#[trigger] items[i]).id != (#[trigger] items[j]).id,
    ensures
        built_name_map(items).dom().finite(),
        built_id_map(items).dom().finite(),
        built_name_map(items).dom().len() == items.len(),
        built_id_map(items).dom().len() == items.len(),
    decreases items.len(),
{
    broadcast use vstd::set::axiom_set_insert_len;

    if items.len() > 0 {
        let prefix = items.drop_last();
        assert(forall|i: int| 0 <= i < prefix.len() ==> #[trigger] prefix[i] == items[i]);
        lemma_build_equal_cardinality(prefix);
        lemma_built_name_dom(prefix, items.last().name);
        lemma_built_id_dom(prefix, items.last().id);
        assert(!built_name_map(prefix).contains_key(items.last().name));
        assert(!built_id_map(prefix).contains_key(items.last().id));
        assert(built_name_map(items).dom() =~= built_name_map(prefix).dom().insert(
            items.last().name,
        ));
        assert(built_id_map(items).dom() =~= built_id_map(prefix).dom().insert(items.last().id));
    }
}

/// With pairwise-distinct names, every id in the built id map resolves,
/// through its item's name and the built name map, back to itself.
pub proof fn lemma_build_round_trip(items: Seq<ItemView>)
    requires
        forall|i: int, j: int|
            0 <= i < j < items.len() ==> (#[trigger] items[i]).name != (#[trigger] items[j]).name,
    ensures
        forall|id: Seq<char>| #[trigger]
            built_id_map(items).contains_key(id) ==> exists|i: int|
                0 <= i < items.len() && #[trigger] items[i] == built_id_map(items)[id],
        forall|id: Seq<char>| #[trigger]
            built_id_map(items).contains_key(id) ==> built_id_map(items)[id].id == id
                && built_name_map(items).contains_key(built_id_map(items)[id].name)
                && built_name_map(items)[built_id_map(items)[id].name] == id,
    decreases items.len(),
{
    if items.len() > 0 {
        let prefix = items.drop_last();
        let last = items.last();
        assert(forall|i: int| 0 <= i < prefix.len() ==> #[trigger] prefix[i] == items[i]);
        lemma_build_round_trip(prefix);
        assert forall|id: Seq<char>| #[trigger]
            built_id_map(items).contains_key(id) implies (exists|i: int|
            0 <= i < items.len() && #[trigger] items[i] == built_id_map(items)[id])
            && built_id_map(items)[id].id == id && built_name_map(items).contains_key(
            built_id_map(items)[id].name,
        ) && built_name_map(items)[built_id_map(items)[id].name] == id by {
            if id == last.id {
                assert(built_id_map(items)[id] == last);
                assert(items[items.len() - 1] == last);
            } else {
                assert(built_id_map(items)[id] == built_id_map(prefix)[id]);
                let v = built_id_map(prefix)[id];
                let i = choose|i: int| 0 <= i < prefix.len() && #[trigger] prefix[i] == v;
                assert(items[i] == v);
                assert(v.name != last.name);
                assert(built_name_map(items)[v.name] == built_name_map(prefix)[v.name]);
            }
        }
    }
}

/// Rebuilding from one snapshot is deterministic: any two well-formed
/// indexes whose maps were built from the same snapshot are identical,
/// entry for entry. In particular, replacing the snapshot twice with the
/// same item list leaves exactly the index one replacement produces.
pub proof fn lemma_replace_idempotent(a: Inventory, b: Inventory, items: Seq<ItemView>)
    requires
        a.wf(),
        b.wf(),
        a.name_map() == built_name_map(items),
        b.name_map() == built_name_map(items),
        a.id_map() == built_id_map(items),
        b.id_map() == built_id_map(items),
    ensures
        a.name_entries() == b.name_entries(),
        a.item_entries() == b.item_entries(),
{
    lemma_sorted_canonical(a.name_entries(), b.name_entries());
    lemma_sorted_canonical(a.item_entries(), b.item_entries());
}

/// The derived index: a name-to-id map and an id-to-item map, both kept as
/// association vectors sorted by key.
pub struct Inventory {
    name_to_id: Vec<(String, String)>,
    id_items: Vec<Item>,
}

impl Inventory {
    /// The (name, id) entries, in ascending name order.
    pub closed spec fn name_entries(self) -> Seq<(Seq<char>, Seq<char>)> {
        self.name_to_id.deep_view()
    }

    /// The (id, item) entries, in ascending id order.
    pub closed spec fn item_entries(self) -> Seq<(Seq<char>, ItemView)> {
        id_entries(self.id_items.deep_view())
    }

    /// The name-to-id map.
    pub open spec fn name_map(self) -> Map<Seq<char>, Seq<char>> {
        assoc_map(self.name_entries())
    }

    /// The id-to-item map.
    pub open spec fn id_map(self) -> Map<Seq<char>, ItemView> {
        assoc_map(self.item_entries())
    }

    /// Both entry lists are strictly sorted by key.
    pub open spec fn wf(self) -> bool {
        keys_sorted(self.name_entries()) && keys_sorted(self.item_entries())
    }

    /// How many names the index holds.
    pub fn num_names(&self) -> (n: usize)
        ensures
            n == self.name_entries().len(),
    {
        self.name_to_id.len()
    }

    /// The (name, id) pair at position `i` of the enumeration order.
    pub fn name_at(&self, i: usize) -> (e: (String, String))
        requires
            i < self.name_entries().len(),
        ensures
            e.0@ == self.name_entries()[i as int].0,
            e.1@ == self.name_entries()[i as int].1,
    {
        let entry = &self.name_to_id[i];
        (entry.0.clone(), entry.1.clone())
    }

    /// Looks a display name up, returning the id it maps to.
    pub fn get_id(&self, name: &str) -> (r: Option<String>)
        requires
            self.wf(),
        ensures
            match r {
                Some(id) => self.name_map().contains_key(name@) && id@ == self.name_map()[name@],
                None => !self.name_map().contains_key(name@),
            },
    {
        let ghost s = self.name_entries();
        let mut i: usize = 0;
        while i < self.name_to_id.len()
            invariant
                self.wf(),
                s == self.name_entries(),
                i <= s.len(),
                s.len() == self.name_to_id.len(),
                forall|k: int| 0 <= k < i ==> (#[trigger] s[k]).0 != name@,
            decreases s.len() - i,
        {
            if str_eq(self.name_to_id[i].0.as_str(), name) {
                proof {
                    lemma_sorted_unique(s);
                    lemma_assoc_value(s, i as int);
                }
                return Some(self.name_to_id[i].1.clone());
            }
            i = i + 1;
        }
        proof {
            lemma_assoc_contains(s, name@);
        }
        None
    }

    /// Tests whether a display name is present in the index.
    pub fn contains_name(&self, name: &str) -> (r: bool)
        requires
            self.wf(),
        ensures
            r == self.name_map().contains_key(name@),
    {
        match self.get_id(name) {
            Some(_) => true,
            None => false,
        }
    }

    /// Looks an item id up, returning the item it maps to. Absence is an
    /// ordinary outcome: callers racing a deletion treat it as a stale
    /// reference and skip.
    pub fn get_item(&self, id: &str) -> (r: Option<Item>)
        requires
            self.wf(),
        ensures
            match r {
                Some(item) => self.id_map().contains_key(id@) && item@ == self.id_map()[id@],
                None => !self.id_map().contains_key(id@),
            },
    {
        let ghost s = self.item_entries();
        let mut i: usize = 0;
        while i < self.id_items.len()
            invariant
                self.wf(),
                s == self.item_entries(),
                i <= s.len(),
                s.len() == self.id_items.len(),
                forall|k: int| 0 <= k < i ==> (#[trigger] s[k]).0 != id@,
            decreases s.len() - i,
        {
            proof {
                assert(s[i as int] == (self.id_items.deep_view()[i as int].id,
                self.id_items.deep_view()[i as int]));
            }
            if str_eq(self.id_items[i].id.as_str(), id) {
                proof {
                    lemma_sorted_unique(s);
                    lemma_assoc_value(s, i as int);
                }
                return Some(self.id_items[i].clone());
            }
            i = i + 1;
        }
        proof {
            lemma_assoc_contains(s, id@);
        }
        None
    }
}

/// Inserts a (name, id) entry into a sorted association vector, replacing
/// the value if the name is already present.
fn insert_name(v: &mut Vec<(String, String)>, name: String, id: String)
    requires
        keys_sorted(old(v).deep_view()),
    ensures
        keys_sorted(final(v).deep_view()),
        assoc_map(final(v).deep_view()) == assoc_map(old(v).deep_view()).insert(name@, id@),
{
    let ghost s = old(v).deep_view();
    let n = v.len();
    let mut j: usize = 0;
    while j < n && str_lt(v[j].0.as_str(), name.as_str())
        invariant
            j <= n,
            n == v.len(),
            *v == *old(v),
            s == v.deep_view(),
            keys_sorted(s),
            forall|i: int| 0 <= i < j ==> lex_lt((#[trigger] s[i]).0, name@),
        decreases n - j,
    {
        j = j + 1;
    }
    if j < n && str_eq(v[j].0.as_str(), name.as_str()) {
        proof {
            lemma_sorted_unique(s);
        }
        v[j] = (name, id);
        proof {
            assert(v.deep_view() =~= s.update(j as int, (s[j as int].0, id@)));
            lemma_assoc_update(s, j as int, id@);
            assert forall|a: int, b: int|
                0 <= a < b < v.deep_view().len() implies lex_lt(
                (#[trigger] v.deep_view()[a]).0,
                (#[trigger] v.deep_view()[b]).0,
            ) by {
                assert(v.deep_view()[a].0 == s[a].0);
                assert(v.deep_view()[b].0 == s[b].0);
            }
        }
    } else {
        proof {
            if j < n {
                if !lex_lt(name@, s[j as int].0) {
                    lemma_lex_connex(s[j as int].0, name@);
                }
                assert(lex_lt(name@, s[j as int].0));
            }
            assert forall|i: int| j <= i < s.len() implies lex_lt(name@, (#[trigger] s[i]).0) by {
                if i > j {
                    lemma_lex_trans(name@, s[j as int].0, s[i].0);
                }
            }
            assert forall|i: int| 0 <= i < s.len() implies (#[trigger] s[i]).0 != name@ by {
                lemma_lex_irrefl(name@);
            }
        }
        v.insert(j, (name, id));
        proof {
            let t = s.insert(j as int, (name@, id@));
            s.insert_ensures(j as int, (name@, id@));
            assert(v.deep_view() =~= t);
            lemma_assoc_insert(s, j as int, name@, id@);
            assert forall|a: int, b: int|
                0 <= a < b < t.len() implies lex_lt((#[trigger] t[a]).0, (#[trigger] t[b]).0) by {
                if a < j && b < j {
                    assert(t[a] == s[a] && t[b] == s[b]);
                } else if a < j && b == j {
                    assert(t[a] == s[a]);
                } else if a < j && b > j {
                    assert(t[a] == s[a] && t[b] == s[b - 1]);
                } else if a == j {
                    assert(t[b] == s[b - 1]);
                } else {
                    assert(t[a] == s[a - 1] && t[b] == s[b - 1]);
                }
            }
        }
    }
}

/// Inserts an item into an association vector sorted by id, replacing the
/// entry if the id is already present.
fn insert_item(v: &mut Vec<Item>, item: Item)
    requires
        keys_sorted(id_entries(old(v).deep_view())),
    ensures
        keys_sorted(id_entries(final(v).deep_view())),
        assoc_map(id_entries(final(v).deep_view())) == assoc_map(
            id_entries(old(v).deep_view()),
        ).insert(item@.id, item@),
{
    let ghost s = id_entries(old(v).deep_view());
    let n = v.len();
    let mut j: usize = 0;
    while j < n && str_lt(v[j].id.as_str(), item.id.as_str())
        invariant
            j <= n,
            n == v.len(),
            *v == *old(v),
            s == id_entries(v.deep_view()),
            keys_sorted(s),
            s.len() == n,
            forall|i: int| 0 <= i < j ==> lex_lt((#[trigger] s[i]).0, item@.id),
        decreases n - j,
    {
        proof {
            assert(s[j as int].0 == v.deep_view()[j as int].id);
        }
        j = j + 1;
    }
    proof {
        if j < n {
            assert(s[j as int].0 == v.deep_view()[j as int].id);
        }
    }
    if j < n && str_eq(v[j].id.as_str(), item.id.as_str()) {
        proof {
            lemma_sorted_unique(s);
        }
        v[j] = item;
        proof {
            let item_v = v.deep_view()[j as int];
            assert(v.deep_view() =~= old(v).deep_view().update(j as int, item_v));
            assert(id_entries(v.deep_view()) =~= s.update(j as int, (s[j as int].0, item_v)));
            lemma_assoc_update(s, j as int, item_v);
            let t = id_entries(v.deep_view());
            assert forall|a: int, b: int|
                0 <= a < b < t.len() implies lex_lt((#[trigger] t[a]).0, (#[trigger] t[b]).0) by {
                assert(t[a].0 == s[a].0);
                assert(t[b].0 == s[b].0);
            }
        }
    } else {
        proof {
            if j < n {
                if !lex_lt(item@.id, s[j as int].0) {
                    lemma_lex_connex(s[j as int].0, item@.id);
                }
                assert(lex_lt(item@.id, s[j as int].0));
            }
            assert forall|i: int| j <= i < s.len() implies lex_lt(item@.id, (#[trigger] s[i]).0) by {
                if i > j {
                    lemma_lex_trans(item@.id, s[j as int].0, s[i].0);
                }
            }
            assert forall|i: int| 0 <= i < s.len() implies (#[trigger] s[i]).0 != item@.id by {
                lemma_lex_irrefl(item@.id);
            }
        }
        v.insert(j, item);
        proof {
            let t = s.insert(j as int, (item@.id, item@));
            s.insert_ensures(j as int, (item@.id, item@));
            assert(v.deep_view() =~= old(v).deep_view().insert(j as int, item@));
            old(v).deep_view().insert_ensures(j as int, item@);
            assert(id_entries(v.deep_view()) =~= t);
            lemma_assoc_insert(s, j as int, item@.id, item@);
            assert forall|a: int, b: int|
                0 <= a < b < t.len() implies lex_lt((#[trigger] t[a]).0, (#[trigger] t[b]).0) by {
                if a < j && b < j {
                    assert(t[a] == s[a] && t[b] == s[b]);
                } else if a < j && b == j {
                    assert(t[a] == s[a]);
                } else if a < j && b > j {
                    assert(t[a] == s[a] && t[b] == s[b - 1]);
                } else if a == j {
                    assert(t[b] == s[b - 1]);
                } else {
                    assert(t[a] == s[a - 1] && t[b] == s[b - 1]);
                }
            }
        }
    }
}

impl Inventory {
    /// Rebuilds both maps, wholesale, from a snapshot of the item list.
    /// An item seen later overrides an earlier one that shares its name
    /// or id.
    pub fn make(&mut self, items: Vec<Item>)
        ensures
            final(self).wf(),
            final(self).name_map() == built_name_map(items.deep_view()),
            final(self).id_map() == built_id_map(items.deep_view()),
    {
        let ghost dv = items.deep_view();
        let mut names: Vec<(String, String)> = Vec::new();
        let mut ids: Vec<Item> = Vec::new();
        proof {
            assert(names.deep_view() =~= Seq::<(Seq<char>, Seq<char>)>::empty());
            assert(ids.deep_view() =~= Seq::<ItemView>::empty());
            assert(id_entries(ids.deep_view()) =~= Seq::<(Seq<char>, ItemView)>::empty());
            assert(dv.take(0) =~= Seq::<ItemView>::empty());
        }
        let mut i: usize = 0;
        while i < items.len()
            invariant
                i <= items.len(),
                dv == items.deep_view(),
                dv.len() == items.len(),
                keys_sorted(names.deep_view()),
                keys_sorted(id_entries(ids.deep_view())),
                assoc_map(names.deep_view()) == built_name_map(dv.take(i as int)),
                assoc_map(id_entries(ids.deep_view())) == built_id_map(dv.take(i as int)),
            decreases items.len() - i,
        {
            let name = items[i].name.clone();
            let id = items[i].id.clone();
            let item = items[i].clone();
            insert_name(&mut names, name, id);
            insert_item(&mut ids, item);
            proof {
                assert(dv.take(i + 1).drop_last() =~= dv.take(i as int));
                assert(dv.take(i + 1).last() == dv[i as int]);
            }
            i = i + 1;
        }
        proof {
            assert(dv.take(dv.len() as int) =~= dv);
        }
        self.name_to_id = names;
        self.id_items = ids;
    }
}

impl Default for Inventory {
    /// The empty index.
    fn default() -> (r: Self)
        ensures
            r.wf(),
            r.name_entries() == Seq::<(Seq<char>, Seq<char>)>::empty(),
            r.item_entries() == Seq::<(Seq<char>, ItemView)>::empty(),
    {
        let r = Inventory { name_to_id: Vec::new(), id_items: Vec::new() };
        proof {
            assert(r.name_entries() =~= Seq::<(Seq<char>, Seq<char>)>::empty());
            assert(r.item_entries() =~= Seq::<(Seq<char>, ItemView)>::empty());
        }
        r
    }
}

} // verus!
