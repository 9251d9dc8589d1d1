//! The fuzzy search engine: filters the name-to-id index against a
//! whitespace-tokenized, case-insensitive, multi-term query. The query is
//! split on ASCII whitespace and each token lowercased; a candidate
//! matches when its lowercased name contains every token as a substring.
//! Matches come back in the index's lexicographic name order, capped at
//! five. Case folding is the full Unicode mapping of the standard
//! library, named [`lower_of`].

use vstd::prelude::*;
use crate::index::Inventory;
use crate::strings::{contains_str, is_substring, lex_lt, lower_of, lowercase, split_ws, tokens};

verus! {

/// The number of results a search returns at most.
pub open spec fn result_cap() -> nat {
    5
}

/// The tokens of a query: its whitespace-separated parts, each
/// lowercased.
pub open spec fn query_tokens(query: Seq<char>) -> Seq<Seq<char>> {
    tokens(query).map_values(|t: Seq<char>| lower_of(t))
}

/// An already-lowercased name matches when it contains every token.
pub open spec fn matches_tokens(lowered_name: Seq<char>, toks: Seq<Seq<char>>) -> bool {
    forall|t: int| 0 <= t < toks.len() ==> is_substring(#[trigger] toks[t], lowered_name)
}

/// The first matching entries, in order, at most `cap` of them.
pub open spec fn filtered(
    entries: Seq<(Seq<char>, Seq<char>)>,
    toks: Seq<Seq<char>>,
    cap: nat,
) -> Seq<(Seq<char>, Seq<char>)>
    decreases entries.len(),
{
    if entries.len() == 0 || cap == 0 {
        Seq::empty()
    } else if matches_tokens(lower_of(entries[0].0), toks) {
        seq![entries[0]] + filtered(entries.drop_first(), toks, (cap - 1) as nat)
    } else {
        filtered(entries.drop_first(), toks, cap)
    }
}

/// What a query returns against an entry list: nothing for a query without
/// tokens (no browse-all behaviour), else the first five matches.
pub open spec fn filter_spec(
    entries: Seq<(Seq<char>, Seq<char>)>,
    query: Seq<char>,
) -> Seq<(Seq<char>, Seq<char>)> {
    let toks = query_tokens(query);
    if toks.len() == 0 {
        Seq::empty()
    } else {
        filtered(entries, toks, result_cap())
    }
}

/// `sub` occurs inside `s` in order.
pub open spec fn is_subsequence<T>(sub: Seq<T>, s: Seq<T>) -> bool
    decreases sub.len(), s.len(),
{
    if sub.len() == 0 {
        true
    } else if s.len() == 0 {
        false
    } else {
        (sub[0] == s[0] && is_subsequence(sub.drop_first(), s.drop_first())) || is_subsequence(
            sub,
            s.drop_first(),
        )
    }
}

/// What the filter returns: at most `cap` entries, every one of them a
/// match, and in the order the entry list has them — so, against the
/// index, in lexicographic name order.
pub proof fn lemma_filtered_properties(
    entries: Seq<(Seq<char>, Seq<char>)>,
    toks: Seq<Seq<char>>,
    cap: nat,
)
    ensures
        filtered(entries, toks, cap).len() <= cap,
        forall|k: int|
            0 <= k < filtered(entries, toks, cap).len() ==> matches_tokens(
                lower_of((#[trigger] filtered(entries, toks, cap)[k]).0),
                toks,
            ),
        is_subsequence(filtered(entries, toks, cap), entries),
    decreases entries.len(),
{
    if entries.len() == 0 || cap == 0 {
    } else {
        let tail = entries.drop_first();
        let f = filtered(entries, toks, cap);
        if matches_tokens(lower_of(entries[0].0), toks) {
            lemma_filtered_properties(tail, toks, (cap - 1) as nat);
            let rest = filtered(tail, toks, (cap - 1) as nat);
            assert(f == seq![entries[0]] + rest);
            assert(f[0] == entries[0]);
            assert(forall|k: int| 0 < k < f.len() ==> #[trigger] f[k] == rest[k - 1]);
            assert(f.drop_first() =~= rest);
        } else {
            lemma_filtered_properties(tail, toks, cap);
        }
    }
}

/// A subsequence of an entry list with strictly ascending names — the
/// index's enumeration — has strictly ascending names itself, and every
/// one of its entries is an entry of the list. So what the filter
/// returns comes back in the index's lexicographic name order.
pub proof fn lemma_subsequence_sorted(
    sub: Seq<(Seq<char>, Seq<char>)>,
    s: Seq<(Seq<char>, Seq<char>)>,
)
    requires
        is_subsequence(sub, s),
        forall|i: int, j: int|
            0 <= i < j < s.len() ==> lex_lt((#[trigger] s[i]).0, (#[trigger] s[j]).0),
    ensures
        forall|i: int, j: int|
            0 <= i < j < sub.len() ==> lex_lt((#[trigger] sub[i]).0, (#[trigger] sub[j]).0),
        forall|k: int|
            0 <= k < sub.len() ==> exists|i: int| 0 <= i < s.len() && #[trigger] sub[k] == s[i],
    decreases sub.len(), s.len(),
{
    if sub.len() == 0 {
    } else {
        let st = s.drop_first();
        assert(forall|i: int| 0 <= i < st.len() ==> #[trigger] st[i] == s[i + 1]);
        if sub[0] == s[0] && is_subsequence(sub.drop_first(), st) {
            let t = sub.drop_first();
            assert(forall|i: int| 0 <= i < t.len() ==> #[trigger] t[i] == sub[i + 1]);
            lemma_subsequence_sorted(t, st);
            assert forall|i: int, j: int|
                0 <= i < j < sub.len() implies lex_lt((sub[i]).0, (sub[j]).0) by {
                if i == 0 {
                    let w = choose|w: int| 0 <= w < st.len() && #[trigger] t[j - 1] == st[w];
                    assert(sub[j] == s[w + 1]);
                    assert(lex_lt(s[0].0, s[w + 1].0));
                } else {
                    assert(sub[i] == t[i - 1] && sub[j] == t[j - 1]);
                }
            }
            assert forall|k: int|
                0 <= k < sub.len() implies exists|i: int|
                0 <= i < s.len() && #[trigger] sub[k] == s[i] by {
                if k == 0 {
                    assert(sub[0] == s[0]);
                } else {
                    let w = choose|w: int| 0 <= w < st.len() && #[trigger] t[k - 1] == st[w];
                    assert(sub[k] == s[w + 1]);
                }
            }
        } else {
            lemma_subsequence_sorted(sub, st);
            assert forall|k: int|
                0 <= k < sub.len() implies exists|i: int|
                0 <= i < s.len() && #[trigger] sub[k] == s[i] by {
                let w = choose|w: int| 0 <= w < st.len() && #[trigger] sub[k] == st[w];
                assert(sub[k] == s[w + 1]);
            }
        }
    }
}

/// A query without tokens — the empty query among them — returns
/// nothing, whatever the index holds: there is no browse-all behaviour.
pub proof fn lemma_empty_query(entries: Seq<(Seq<char>, Seq<char>)>, query: Seq<char>)
    requires
        tokens(query).len() == 0,
    ensures
        filter_spec(entries, query) == Seq::<(Seq<char>, Seq<char>)>::empty(),
{
}

/// What a search returns, for every index and query: at most five
/// entries, each of whose lowercased names contains every token of the
/// query, and in the order the index enumerates them — its lexicographic
/// name order.
pub proof fn lemma_filter_spec_properties(entries: Seq<(Seq<char>, Seq<char>)>, query: Seq<char>)
    ensures
        filter_spec(entries, query).len() <= result_cap(),
        forall|k: int|
            0 <= k < filter_spec(entries, query).len() ==> matches_tokens(
                lower_of((#[trigger] filter_spec(entries, query)[k]).0),
                query_tokens(query),
            ),
        is_subsequence(filter_spec(entries, query), entries),
{
    let toks = query_tokens(query);
    if toks.len() == 0 {
        assert(is_subsequence(filter_spec(entries, query), entries));
    } else {
        lemma_filtered_properties(entries, toks, result_cap());
    }
}

/// Filters the index's (name, id) entries against the query: the query is
/// split on ASCII whitespace and each token lowercased, and an entry
/// matches when its lowercased name contains every token. The first five
/// matches come back in the index's name order; a query without tokens
/// returns nothing.
pub fn filter_items(inv: &Inventory, search_value: &str) -> (r: Vec<(String, String)>)
    ensures
        r.deep_view() == filter_spec(inv.name_entries(), search_value@),
{
    let ghost entries = inv.name_entries();
    let ghost qv = search_value@;
    let raw = split_ws(search_value);
    let ghost raw_dv = raw.deep_view();
    let mut toks: Vec<String> = Vec::new();
    let mut t0: usize = 0;
    proof {
        assert(toks.deep_view() =~= Seq::<Seq<char>>::empty());
        assert(query_tokens(qv).take(0) =~= Seq::<Seq<char>>::empty());
    }
    while t0 < raw.len()
        invariant
            t0 <= raw.len(),
            raw_dv == raw.deep_view(),
            raw_dv == tokens(qv),
            raw_dv.len() == raw.len(),
            toks.deep_view() =~= query_tokens(qv).take(t0 as int),
        decreases raw.len() - t0,
    {
        let lt = lowercase(raw[t0].as_str());
        let ghost prev = toks.deep_view();
        toks.push(lt);
        proof {
            assert(toks.deep_view() =~= prev.push(lower_of(raw_dv[t0 as int])));
            assert(query_tokens(qv)[t0 as int] == lower_of(tokens(qv)[t0 as int]));
            assert(query_tokens(qv).take(t0 + 1).drop_last() =~= query_tokens(qv).take(t0 as int));
        }
        t0 = t0 + 1;
    }
    proof {
        assert(toks.deep_view() =~= query_tokens(qv));
    }
    let ghost toks_dv = toks.deep_view();
    let mut r: Vec<(String, String)> = Vec::new();
    proof {
        assert(r.deep_view() =~= Seq::<(Seq<char>, Seq<char>)>::empty());
    }
    if toks.len() == 0 {
        return r;
    }
    let n = inv.num_names();
    let mut i: usize = 0;
    proof {
        assert(entries.skip(0) =~= entries);
    }
    while i < n && r.len() < 5
        invariant
            i <= n,
            n == entries.len(),
            entries == inv.name_entries(),
            toks_dv == toks.deep_view(),
            toks_dv.len() > 0,
            r.deep_view().len() <= 5,
            r.deep_view() + filtered(entries.skip(i as int), toks_dv, (5 - r.deep_view().len()) as nat)
                =~= filtered(entries, toks_dv, 5),
        decreases n - i,
    {
        let entry = inv.name_at(i);
        let lowered_name = lowercase(entry.0.as_str());
        let ghost low = lower_of(entries[i as int].0);
        let mut ok = true;
        let mut t: usize = 0;
        while ok && t < toks.len()
            invariant
                t <= toks.len(),
                toks_dv == toks.deep_view(),
                lowered_name@ == low,
                ok ==> forall|u: int| 0 <= u < t ==> is_substring(#[trigger] toks_dv[u], low),
                !ok ==> !matches_tokens(low, toks_dv),
            decreases toks.len() - t,
        {
            if !contains_str(lowered_name.as_str(), toks[t].as_str()) {
                proof {
                    assert(toks_dv[t as int] == toks[t as int]@);
                }
                ok = false;
            }
            t = t + 1;
        }
        proof {
            if ok {
                assert(matches_tokens(low, toks_dv));
            }
            let c = (5 - r.deep_view().len()) as nat;
            assert(entries.skip(i as int)[0] == entries[i as int]);
            assert(entries.skip(i as int).drop_first() =~= entries.skip(i + 1));
            assert(entries[i as int] == (entries[i as int].0, entries[i as int].1));
        }
        if ok {
            let ghost prev = r.deep_view();
            r.push(entry);
            proof {
                assert(r.deep_view() =~= prev.push((entries[i as int].0, entries[i as int].1)));
                assert(prev.push(entries[i as int]) + filtered(
                    entries.skip(i + 1),
                    toks_dv,
                    (5 - r.deep_view().len()) as nat,
                ) =~= prev + (seq![entries[i as int]] + filtered(
                    entries.skip(i + 1),
                    toks_dv,
                    (5 - r.deep_view().len()) as nat,
                )));
            }
        }
        i = i + 1;
    }
    proof {
        if i == n {
            assert(entries.skip(n as int).len() == 0);
            assert(filtered(entries.skip(n as int), toks_dv, (5 - r.deep_view().len()) as nat)
                =~= Seq::<(Seq<char>, Seq<char>)>::empty());
        }
        assert(r.deep_view() =~= filtered(entries, toks_dv, 5));
        assert(query_tokens(search_value@) == toks_dv);
    }
    r
}

/// The select-first action: the id of the first search result, or nothing
/// when the result list is empty — pressing enter with no match is a
/// no-op, not an error.
pub fn select_first(results: &Vec<(String, String)>) -> (r: Option<String>)
    ensures
        match r {
            Some(id) => results.deep_view().len() > 0 && id@ == results.deep_view()[0].1,
            None => results.deep_view().len() == 0,
        },
{
    if results.len() == 0 {
        None
    } else {
        Some(results[0].1.clone())
    }
}

} // verus!
