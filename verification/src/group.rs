//! Category grouping for the list views: the distinct categories in
//! lexicographic order, the items each one holds in snapshot order, and
//! the by-name ordering used inside a category block.

use vstd::prelude::*;
use crate::item::{Item, ItemView};
use crate::strings::{lemma_lex_irrefl, lemma_lex_trans, lex_lt, str_eq, str_lt};

verus! {

/// The items of one category, in snapshot order.
pub open spec fn items_of_category(items: Seq<ItemView>, cat: Seq<char>) -> Seq<ItemView>
    decreases items.len(),
{
    if items.len() == 0 {
        Seq::empty()
    } else if items[0].category == cat {
        seq![items[0]] + items_of_category(items.drop_first(), cat)
    } else {
        items_of_category(items.drop_first(), cat)
    }
}

/// Keeps the items of one category, in order.
pub fn items_with_category(items: &Vec<Item>, cat: &str) -> (r: Vec<Item>)
    ensures
        r.deep_view() == items_of_category(items.deep_view(), cat@),
{
    let ghost dv = items.deep_view();
    let mut r: Vec<Item> = Vec::new();
    let mut i: usize = 0;
    proof {
        assert(r.deep_view() =~= Seq::<ItemView>::empty());
        assert(dv.skip(0) =~= dv);
    }
    while i < items.len()
        invariant
            i <= items.len(),
            dv == items.deep_view(),
            dv.len() == items.len(),
            r.deep_view() + items_of_category(dv.skip(i as int), cat@) =~= items_of_category(
                dv,
                cat@,
            ),
        decreases items.len() - i,
    {
        proof {
            assert(dv.skip(i as int)[0] == dv[i as int]);
            assert(dv.skip(i as int).drop_first() =~= dv.skip(i + 1));
        }
        if str_eq(items[i].category.as_str(), cat) {
            let ghost prev = r.deep_view();
            let x = items[i].clone();
            let ghost xv = x@;
            r.push(x);
            proof {
                assert(r.deep_view() =~= prev.push(xv));
                assert(prev.push(xv) + items_of_category(dv.skip(i + 1), cat@) =~= prev + (seq![xv]
                    + items_of_category(dv.skip(i + 1), cat@)));
            }
        }
        i = i + 1;
    }
    proof {
        assert(items_of_category(dv.skip(dv.len() as int), cat@) =~= Seq::<ItemView>::empty());
        assert(r.deep_view() =~= items_of_category(dv, cat@));
    }
    r
}

/// `x` occurs among the sequences of `s`.
pub open spec fn seq_contains_str(s: Seq<Seq<char>>, x: Seq<char>) -> bool {
    exists|i: int| 0 <= i < s.len() && s[i] == x
}

/// The names are strictly ascending.
pub open spec fn names_sorted(s: Seq<Seq<char>>) -> bool {
    forall|i: int, j: int| 0 <= i < j < s.len() ==> lex_lt(#[trigger] s[i], #[trigger] s[j])
}

/// Inserts a name into a sorted list of distinct names, keeping it
/// sorted; a name already present is left alone.
fn insert_sorted_unique(v: &mut Vec<String>, x: String)
    requires
        names_sorted(old(v).deep_view()),
    ensures
        names_sorted(final(v).deep_view()),
        forall|y: Seq<char>|
            seq_contains_str(final(v).deep_view(), y) <==> (seq_contains_str(
                old(v).deep_view(),
                y,
            ) || y == x@),
{
    let ghost s = old(v).deep_view();
    let n = v.len();
    let mut j: usize = 0;
    while j < n && str_lt(v[j].as_str(), x.as_str())
        invariant
            j <= n,
            n == v.len(),
            *v == *old(v),
            s == v.deep_view(),
            names_sorted(s),
            forall|i: int| 0 <= i < j ==> lex_lt(#[trigger] s[i], x@),
        decreases n - j,
    {
        j = j + 1;
    }
    if j < n && str_eq(v[j].as_str(), x.as_str()) {
        proof {
            assert(s[j as int] == x@);
            assert(seq_contains_str(s, x@));
            assert(forall|y: Seq<char>|
                seq_contains_str(v.deep_view(), y) <==> (seq_contains_str(s, y) || y == x@));
        }
        return ;
    }
    proof {
        if j < n {
            if !lex_lt(x@, s[j as int]) {
                crate::strings::lemma_lex_connex(s[j as int], x@);
            }
            assert(lex_lt(x@, s[j as int]));
        }
        assert forall|i: int| j <= i < s.len() implies lex_lt(x@, #[trigger] s[i]) by {
            if i > j {
                lemma_lex_trans(x@, s[j as int], s[i]);
            }
        }
    }
    v.insert(j, x);
    proof {
        let t = s.insert(j as int, x@);
        s.insert_ensures(j as int, x@);
        assert(v.deep_view() =~= t);
        assert forall|a: int, b: int|
            0 <= a < b < t.len() implies lex_lt(#[trigger] t[a], #[trigger] t[b]) by {
            if a < j && b < j {
                assert(t[a] == s[a] && t[b] == s[b]);
            } else if a < j && b == j {
                assert(t[a] == s[a]);
            } else if a < j && b > j {
                assert(t[a] == s[a] && t[b] == s[b - 1]);
            } else if a == j {
                assert(t[b] == s[b - 1]);
            } else {
                assert(t[a] == s[a - 1] && t[b] == s[b - 1]);
            }
        }
        assert forall|y: Seq<char>|
            seq_contains_str(t, y) <==> (seq_contains_str(s, y) || y == x@) by {
            if seq_contains_str(t, y) {
                let i = choose|i: int| 0 <= i < t.len() && t[i] == y;
                if i < j {
                    assert(s[i] == y);
                } else if i > j {
                    assert(s[i - 1] == y);
                }
            }
            if seq_contains_str(s, y) {
                let i = choose|i: int| 0 <= i < s.len() && s[i] == y;
                if i < j {
                    assert(t[i] == y);
                } else {
                    assert(t[i + 1] == y);
                }
            }
            if y == x@ {
                assert(t[j as int] == y);
            }
        }
    }
}

/// `c` is the category of some item of the snapshot.
pub open spec fn category_of_some_item(items: Seq<ItemView>, c: Seq<char>) -> bool {
    exists|k: int| 0 <= k < items.len() && (#[trigger] items[k]).category == c
}

/// Every key is the category of some item of the snapshot: grouping
/// invents no category.
pub open spec fn keys_from_snapshot(keys: Seq<Seq<char>>, items: Seq<ItemView>) -> bool {
    forall|g: int| 0 <= g < keys.len() ==> category_of_some_item(items, #[trigger] keys[g])
}

/// Groups a snapshot by category: one group per distinct category of the
/// snapshot — no more and no fewer — the groups in ascending category
/// order, each holding its items in snapshot order.
pub fn group_by_category(items: &Vec<Item>) -> (r: Vec<(String, Vec<Item>)>)
    ensures
        names_sorted(Seq::new(r.deep_view().len(), |g: int| r.deep_view()[g].0)),
        forall|g: int|
            0 <= g < r.deep_view().len() ==> (#[trigger] r.deep_view()[g]).1 == items_of_category(
                items.deep_view(),
                r.deep_view()[g].0,
            ),
        forall|k: int|
            0 <= k < items.deep_view().len() ==> seq_contains_str(
                Seq::new(r.deep_view().len(), |g: int| r.deep_view()[g].0),
                (#[trigger] items.deep_view()[k]).category,
            ),
        keys_from_snapshot(
            Seq::new(r.deep_view().len(), |g: int| r.deep_view()[g].0),
            items.deep_view(),
        ),
{
    let ghost dv = items.deep_view();
    let mut cats: Vec<String> = Vec::new();
    let mut i: usize = 0;
    proof {
        assert(cats.deep_view() =~= Seq::<Seq<char>>::empty());
    }
    while i < items.len()
        invariant
            i <= items.len(),
            dv == items.deep_view(),
            dv.len() == items.len(),
            names_sorted(cats.deep_view()),
            forall|y: Seq<char>|
                seq_contains_str(cats.deep_view(), y) <==> exists|k: int|
                    0 <= k < i && (#[trigger] dv[k]).category == y,
        decreases items.len() - i,
    {
        let ghost before = cats.deep_view();
        insert_sorted_unique(&mut cats, items[i].category.clone());
        proof {
            assert forall|y: Seq<char>|
                seq_contains_str(cats.deep_view(), y) <==> exists|k: int|
                    0 <= k < i + 1 && (#[trigger] dv[k]).category == y by {
                if seq_contains_str(cats.deep_view(), y) {
                    if y == dv[i as int].category {
                        assert(0 <= i < i + 1 && dv[i as int].category == y);
                    }
                }
                if exists|k: int| 0 <= k < i + 1 && (#[trigger] dv[k]).category == y {
                    let k = choose|k: int| 0 <= k < i + 1 && (#[trigger] dv[k]).category == y;
                    if k < i {
                        assert(seq_contains_str(before, y));
                    }
                }
            }
        }
        i = i + 1;
    }
    let ghost catsv = cats.deep_view();
    let mut r: Vec<(String, Vec<Item>)> = Vec::new();
    let mut g: usize = 0;
    while g < cats.len()
        invariant
            g <= cats.len(),
            dv == items.deep_view(),
            catsv == cats.deep_view(),
            catsv.len() == cats.len(),
            names_sorted(catsv),
            forall|y: Seq<char>|
                seq_contains_str(catsv, y) <==> exists|k: int|
                    0 <= k < dv.len() && (#[trigger] dv[k]).category == y,
            r.deep_view().len() == g,
            forall|a: int| 0 <= a < g ==> (#[trigger] r.deep_view()[a]).0 == catsv[a],
            forall|a: int|
                0 <= a < g ==> (#[trigger] r.deep_view()[a]).1 == items_of_category(dv, catsv[a]),
        decreases cats.len() - g,
    {
        let members = items_with_category(items, cats[g].as_str());
        let entry = (cats[g].clone(), members);
        let ghost ev = (catsv[g as int], items_of_category(dv, catsv[g as int]));
        let ghost prev = r.deep_view();
        r.push(entry);
        proof {
            assert(r.deep_view() =~= prev.push(ev));
        }
        g = g + 1;
    }
    proof {
        let keys = Seq::new(r.deep_view().len(), |a: int| r.deep_view()[a].0);
        assert(keys =~= catsv);
        assert forall|k: int|
            0 <= k < dv.len() implies seq_contains_str(keys, (#[trigger] dv[k]).category) by {
            assert(seq_contains_str(catsv, dv[k].category));
        }
        assert forall|a: int|
            0 <= a < catsv.len() implies category_of_some_item(dv, #[trigger] catsv[a]) by {
            assert(seq_contains_str(catsv, catsv[a]));
            let k0 = choose|k: int| 0 <= k < dv.len() && (#[trigger] dv[k]).category == catsv[a];
            assert(0 <= k0 < dv.len() && dv[k0].category == catsv[a]);
        }
        assert(keys_from_snapshot(catsv, dv));
        assert(keys_from_snapshot(keys, dv));
    }
    r
}

/// The names are ascending, duplicates side by side.
pub open spec fn sorted_by_name(s: Seq<ItemView>) -> bool {
    forall|i: int, j: int|
        0 <= i < j < s.len() ==> !lex_lt((#[trigger] s[j]).name, (#[trigger] s[i]).name)
}

/// Sorts items by display name, ascending; the result holds exactly the
/// given items.
pub fn sort_items_by_name(items: &Vec<Item>) -> (r: Vec<Item>)
    ensures
        sorted_by_name(r.deep_view()),
        r.deep_view().to_multiset() == items.deep_view().to_multiset(),
        r.deep_view().len() == items.deep_view().len(),
{
    broadcast use vstd::seq_lib::group_to_multiset_ensures, vstd::seq_lib::to_multiset_insert;

    let ghost dv = items.deep_view();
    let mut r: Vec<Item> = Vec::new();
    let mut i: usize = 0;
    proof {
        assert(r.deep_view() =~= Seq::<ItemView>::empty());
        assert(dv.take(0) =~= Seq::<ItemView>::empty());
        assert(Seq::<ItemView>::empty().to_multiset() =~= r.deep_view().to_multiset());
    }
    while i < items.len()
        invariant
            i <= items.len(),
            dv == items.deep_view(),
            dv.len() == items.len(),
            sorted_by_name(r.deep_view()),
            r.deep_view().len() == i,
            r.deep_view().to_multiset() == dv.take(i as int).to_multiset(),
        decreases items.len() - i,
    {
        broadcast use vstd::seq_lib::group_to_multiset_ensures, vstd::seq_lib::to_multiset_insert;

        let x = items[i].clone();
        let ghost xv = x@;
        let mut j: usize = 0;
        while j < r.len()
            invariant
                j <= r.len(),
                sorted_by_name(r.deep_view()),
                r.deep_view().len() == r.len(),
                xv == x@,
                forall|k: int| 0 <= k < j ==> !lex_lt(xv.name, (#[trigger] r.deep_view()[k]).name),
            ensures
                j <= r.len(),
                forall|k: int| 0 <= k < j ==> !lex_lt(xv.name, (#[trigger] r.deep_view()[k]).name),
                j == r.len() || lex_lt(xv.name, r.deep_view()[j as int].name),
            decreases r.len() - j,
        {
            proof {
                assert(r.deep_view()[j as int] == r@[j as int]@);
            }
            if str_lt(x.name.as_str(), r[j].name.as_str()) {
                break ;
            }
            j = j + 1;
        }
        let ghost prev = r.deep_view();
        r.insert(j, x);
        proof {
            assert(r.deep_view() =~= prev.insert(j as int, xv));
            prev.insert_ensures(j as int, xv);
            assert(sorted_by_name(r.deep_view())) by {
                let t = r.deep_view();
                assert forall|a: int, b: int|
                    0 <= a < b < t.len() implies !lex_lt((#[trigger] t[b]).name, (
                #[trigger] t[a]).name) by {
                    if a < j && b < j {
                    } else if a < j && b == j {
                        if lex_lt(t[b].name, t[a].name) {
                            lemma_lex_irrefl(xv.name);
                        }
                    } else if a < j && b > j {
                        assert(t[b] == prev[b - 1]);
                    } else if a == j {
                        assert(t[b] == prev[b - 1]);
                        if lex_lt(prev[b - 1].name, xv.name) {
                            assert(lex_lt(xv.name, prev[j as int].name));
                            lemma_lex_trans(prev[b - 1].name, xv.name, prev[j as int].name);
                            lemma_lex_irrefl(prev[j as int].name);
                        }
                    } else {
                        assert(t[a] == prev[a - 1] && t[b] == prev[b - 1]);
                    }
                }
            }
            assert(dv.take(i + 1).drop_last() =~= dv.take(i as int));
            assert(dv.take(i + 1) =~= dv.take(i as int).push(dv[i as int]));
            assert(r.deep_view().to_multiset() =~= dv.take(i + 1).to_multiset());
        }
        i = i + 1;
    }
    proof {
        assert(dv.take(dv.len() as int) =~= dv);
    }
    r
}

} // verus!
