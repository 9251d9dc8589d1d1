//! Character and string helpers shared by the index, the search engine and
//! the log parser: ASCII case folding, lexicographic order on character
//! sequences, and substring search.

use vstd::prelude::*;

verus! {

/// Relies on String::push: appends the given character to the end of the string.
#[verifier::external_body]
pub(crate) fn push_char(s: &mut String, c: char)
    ensures
        final(s)@ == old(s)@.push(c),
{
    s.push(c);
}

/// The ASCII lowercase image of one character: letters `A`..`Z` map to
/// `a`..`z`, every other character is unchanged.
pub open spec fn lower_char(c: char) -> char {
    if 65 <= c as u32 && c as u32 <= 90 {
        ((c as u32 + 32) as u8) as char
    } else {
        c
    }
}

/// The ASCII lowercase image of a character sequence.
pub open spec fn lower(s: Seq<char>) -> Seq<char> {
    s.map_values(|c: char| lower_char(c))
}

/// ASCII-lowercases one character.
pub fn lower_char_exec(c: char) -> (r: char)
    ensures
        r == lower_char(c),
{
    let u = c as u32;
    if 65 <= u && u <= 90 {
        ((u + 32) as u8) as char
    } else {
        c
    }
}

/// ASCII-lowercases a string, character by character.
pub fn to_lower(s: &str) -> (r: String)
    ensures
        r@ == lower(s@),
{
    let n = s.unicode_len();
    let mut r = String::new();
    let mut i: usize = 0;
    while i < n
        invariant
            i <= n,
            n == s@.len(),
            r@ == lower(s@.take(i as int)),
        decreases n - i,
    {
        let c = s.get_char(i);
        push_char(&mut r, lower_char_exec(c));
        proof {
            assert(s@.take(i + 1) =~= s@.take(i as int).push(s@[i as int]));
            assert(lower(s@.take(i + 1)) =~= lower(s@.take(i as int)).push(lower_char(s@[i as int])));
        }
        i = i + 1;
    }
    proof {
        assert(s@.take(n as int) =~= s@);
    }
    r
}

/// What `str::to_lowercase` returns for a character sequence: the full
/// Unicode lowercase mapping, a function of the characters alone.
pub uninterp spec fn lower_of(s: Seq<char>) -> Seq<char>;

/// Relies on str::to_lowercase: the Unicode lowercase mapping of the
/// string. The result depends on the characters alone, and an empty
/// string stays empty.
#[verifier::external_body]
pub(crate) fn lowercase(s: &str) -> (r: String)
    ensures
        r@ == lower_of(s@),
        s@.len() == 0 ==> r@.len() == 0,
{
    s.to_lowercase()
}

/// Strict lexicographic order on character sequences, comparing by Unicode
/// scalar value. This is the enumeration order of the derived index.
pub open spec fn lex_lt(a: Seq<char>, b: Seq<char>) -> bool
    decreases a.len(),
{
    if b.len() == 0 {
        false
    } else if a.len() == 0 {
        true
    } else if a[0] != b[0] {
        (a[0] as u32) < (b[0] as u32)
    } else {
        lex_lt(a.drop_first(), b.drop_first())
    }
}

/// No sequence comes before itself.
pub proof fn lemma_lex_irrefl(a: Seq<char>)
    ensures
        !lex_lt(a, a),
    decreases a.len(),
{
    if a.len() > 0 {
        lemma_lex_irrefl(a.drop_first());
    }
}

/// The lexicographic order is transitive.
pub proof fn lemma_lex_trans(a: Seq<char>, b: Seq<char>, c: Seq<char>)
    requires
        lex_lt(a, b),
        lex_lt(b, c),
    ensures
        lex_lt(a, c),
    decreases b.len(),
{
    if a.len() == 0 {
    } else {
        if a[0] == b[0] && b[0] == c[0] {
            lemma_lex_trans(a.drop_first(), b.drop_first(), c.drop_first());
        }
    }
}

/// Two sequences neither of which comes before the other are equal.
pub proof fn lemma_lex_connex(a: Seq<char>, b: Seq<char>)
    requires
        !lex_lt(a, b),
        !lex_lt(b, a),
    ensures
        a == b,
    decreases a.len(),
{
    if a.len() == 0 || b.len() == 0 {
        assert(a =~= b);
    } else {
        assert(a[0] as u32 == b[0] as u32);
        vstd::utf8::char_u32_cast(a[0], a[0] as u32);
        vstd::utf8::char_u32_cast(b[0], b[0] as u32);
        assert(a[0] == b[0]);
        lemma_lex_connex(a.drop_first(), b.drop_first());
        assert(a =~= seq![a[0]] + a.drop_first());
        assert(b =~= seq![b[0]] + b.drop_first());
    }
}

/// After an equal prefix of length `i`, the order of the two sequences is
/// decided by their tails.
proof fn lemma_lex_lt_skip(a: Seq<char>, b: Seq<char>, i: int)
    requires
        0 <= i < a.len(),
        0 <= i < b.len(),
        a.take(i) =~= b.take(i),
        a[i] == b[i],
    ensures
        lex_lt(a.skip(i), b.skip(i)) == lex_lt(a.skip(i + 1), b.skip(i + 1)),
{
    assert(a.skip(i).len() > 0);
    assert(b.skip(i).len() > 0);
    assert(a.skip(i)[0] == a[i]);
    assert(b.skip(i)[0] == b[i]);
    assert(a.skip(i).drop_first() =~= a.skip(i + 1));
    assert(b.skip(i).drop_first() =~= b.skip(i + 1));
}

/// Decides whether `a` comes strictly before `b` in lexicographic order.
pub fn str_lt(a: &str, b: &str) -> (r: bool)
    ensures
        r == lex_lt(a@, b@),
{
    let an = a.unicode_len();
    let bn = b.unicode_len();
    let mut i: usize = 0;
    proof {
        assert(a@.skip(0) =~= a@);
        assert(b@.skip(0) =~= b@);
        assert(a@.take(0) =~= b@.take(0));
    }
    loop
        invariant
            i <= an,
            i <= bn,
            an == a@.len(),
            bn == b@.len(),
            a@.take(i as int) =~= b@.take(i as int),
            lex_lt(a@, b@) == lex_lt(a@.skip(i as int), b@.skip(i as int)),
        decreases an - i,
    {
        if i >= bn {
            assert(b@.skip(i as int).len() == 0);
            return false;
        }
        if i >= an {
            assert(a@.skip(i as int).len() == 0);
            return true;
        }
        let ca = a.get_char(i);
        let cb = b.get_char(i);
        if ca != cb {
            proof {
                assert(a@.skip(i as int)[0] == a@[i as int]);
                assert(b@.skip(i as int)[0] == b@[i as int]);
            }
            return (ca as u32) < (cb as u32);
        }
        proof {
            assert(a@[i as int] == b@[i as int]);
            lemma_lex_lt_skip(a@, b@, i as int);
            assert(a@.take(i + 1) =~= b@.take(i + 1));
        }
        i = i + 1;
    }
}

/// `pat` occurs in `s` starting at position `i`.
pub open spec fn matches_at(s: Seq<char>, pat: Seq<char>, i: int) -> bool {
    0 <= i && i + pat.len() <= s.len() && s.subrange(i, i + pat.len()) =~= pat
}

/// An occurrence at position `p` of `s` is an occurrence at the start of
/// the suffix from `p`.
pub proof fn lemma_matches_at_skip(s: Seq<char>, pat: Seq<char>, p: int)
    requires
        0 <= p <= s.len(),
    ensures
        matches_at(s, pat, p) == matches_at(s.skip(p), pat, 0),
{
    if p + pat.len() <= s.len() {
        assert(s.skip(p).subrange(0, pat.len() as int) =~= s.subrange(p, p + pat.len()));
    }
}

/// `pat` occurs somewhere in `s` (the empty pattern occurs in every string).
pub open spec fn is_substring(pat: Seq<char>, s: Seq<char>) -> bool {
    exists|i: int| matches_at(s, pat, i)
}

/// Tests whether `pat` occurs in `s` at exactly the position `at`.
pub fn match_at(s: &str, pat: &str, at: usize) -> (r: bool)
    ensures
        r == matches_at(s@, pat@, at as int),
{
    let n = s.unicode_len();
    let m = pat.unicode_len();
    if m > n || at > n - m {
        return false;
    }
    let mut j: usize = 0;
    while j < m
        invariant
            j <= m,
            at + m <= n,
            n == s@.len(),
            m == pat@.len(),
            forall|k: int| 0 <= k < j ==> s@[at + k] == pat@[k],
        decreases m - j,
    {
        if s.get_char(at + j) != pat.get_char(j) {
            proof {
                if matches_at(s@, pat@, at as int) {
                    assert(s@.subrange(at as int, at + m)[j as int] == s@[at + j]);
                }
            }
            return false;
        }
        j = j + 1;
    }
    proof {
        assert(s@.subrange(at as int, at + m) =~= pat@);
    }
    true
}

/// Finds the first occurrence of `pat` in `s` at or after position `from`.
pub fn find_from(s: &str, pat: &str, from: usize) -> (r: Option<usize>)
    ensures
        match r {
            Some(i) => from <= i && matches_at(s@, pat@, i as int) && forall|k: int|
                from <= k < i ==> !matches_at(s@, pat@, k),
            None => forall|k: int| from <= k ==> !matches_at(s@, pat@, k),
        },
{
    let n = s.unicode_len();
    let m = pat.unicode_len();
    if m > n || from > n - m {
        return None;
    }
    let mut i: usize = from;
    while i <= n - m
        invariant
            from <= i,
            m <= n,
            i <= n - m + 1,
            n == s@.len(),
            m == pat@.len(),
            forall|k: int| from <= k < i ==> !matches_at(s@, pat@, k),
        decreases n + 1 - i - m,
    {
        if match_at(s, pat, i) {
            return Some(i);
        }
        i = i + 1;
    }
    proof {
        assert(forall|k: int| k > n - m ==> !matches_at(s@, pat@, k));
    }
    None
}

/// Tests whether `pat` occurs anywhere in `s`.
pub fn contains_str(s: &str, pat: &str) -> (r: bool)
    ensures
        r == is_substring(pat@, s@),
{
    match find_from(s, pat, 0) {
        Some(_) => true,
        None => false,
    }
}

/// Decides string equality by content.
pub fn str_eq(a: &str, b: &str) -> (r: bool)
    ensures
        r == (a@ == b@),
{
    let an = a.unicode_len();
    let bn = b.unicode_len();
    if an != bn {
        return false;
    }
    let r = match_at(a, b, 0);
    proof {
        if r {
            assert(a@.subrange(0, a@.len() as int) =~= a@);
        } else {
            assert(!matches_at(a@, b@, 0));
            if a@ == b@ {
                assert(a@.subrange(0, b@.len() as int) =~= b@);
            }
        }
    }
    r
}

/// The ASCII whitespace characters, as the standard library's
/// `split_ascii_whitespace` understands them.
pub open spec fn is_ws(c: char) -> bool {
    c == ' ' || c == '\t' || c == '\n' || c == '\u{c}' || c == '\r'
}

/// Length of the maximal whitespace-free prefix of `s`.
pub open spec fn first_token_len(s: Seq<char>) -> nat
    decreases s.len(),
{
    if s.len() == 0 || is_ws(s[0]) {
        0
    } else {
        1 + first_token_len(s.drop_first())
    }
}

/// The whitespace-free prefix never reaches past the end of the sequence.
pub proof fn lemma_first_token_len_le(s: Seq<char>)
    ensures
        first_token_len(s) <= s.len(),
    decreases s.len(),
{
    if s.len() > 0 && !is_ws(s[0]) {
        lemma_first_token_len_le(s.drop_first());
    }
}

/// The whitespace-separated tokens of `s`, in order.
pub open spec fn tokens(s: Seq<char>) -> Seq<Seq<char>>
    decreases s.len(),
    via tokens_decreases
{
    if s.len() == 0 {
        Seq::empty()
    } else if is_ws(s[0]) {
        tokens(s.drop_first())
    } else {
        seq![s.take(first_token_len(s) as int)] + tokens(s.skip(first_token_len(s) as int))
    }
}

#[via_fn]
proof fn tokens_decreases(s: Seq<char>) {
    lemma_first_token_len_le(s);
}

/// A whitespace-free run of length `j` followed by whitespace (or the end)
/// is exactly the first token.
proof fn lemma_first_token_len(s: Seq<char>, j: int)
    requires
        0 <= j <= s.len(),
        forall|k: int| 0 <= k < j ==> !is_ws(s[k]),
        j == s.len() || is_ws(s[j]),
    ensures
        first_token_len(s) == j,
    decreases s.len(),
{
    if j == 0 {
    } else {
        assert(!is_ws(s[0]));
        assert(forall|k: int| 0 <= k < j - 1 ==> s.drop_first()[k] == s[k + 1]);
        lemma_first_token_len(s.drop_first(), j - 1);
    }
}

/// Splits `s` on ASCII whitespace, as `split_ascii_whitespace` does,
/// returning the tokens as owned strings.
pub fn split_ws(s: &str) -> (r: Vec<String>)
    ensures
        r.deep_view() =~= tokens(s@),
{
    let n = s.unicode_len();
    let mut r: Vec<String> = Vec::new();
    let mut i: usize = 0;
    proof {
        assert(s@.skip(0) =~= s@);
        assert(r.deep_view() =~= Seq::<Seq<char>>::empty());
    }
    while i < n
        invariant
            i <= n,
            n == s@.len(),
            tokens(s@) =~= r.deep_view() + tokens(s@.skip(i as int)),
        decreases n - i,
    {
        let c = s.get_char(i);
        if c == ' ' || c == '\t' || c == '\n' || c == '\u{c}' || c == '\r' {
            proof {
                assert(s@.skip(i as int)[0] == s@[i as int]);
                assert(s@.skip(i as int).drop_first() =~= s@.skip(i + 1));
            }
            i = i + 1;
        } else {
            let start = i;
            let mut j: usize = i + 1;
            while j < n
                invariant
                    start < j <= n,
                    n == s@.len(),
                    forall|k: int| start <= k < j ==> !is_ws(s@[k]),
                ensures
                    start < j <= n,
                    forall|k: int| start <= k < j ==> !is_ws(s@[k]),
                    j == n || is_ws(s@[j as int]),
                decreases n - j,
            {
                let c2 = s.get_char(j);
                if c2 == ' ' || c2 == '\t' || c2 == '\n' || c2 == '\u{c}' || c2 == '\r' {
                    break;
                }
                j = j + 1;
            }
            let tok = s.substring_char(start, j);
            let tok_s = String::from_str(tok);
            let ghost prev = r.deep_view();
            proof {
                let rest = s@.skip(start as int);
                assert(forall|k: int| 0 <= k < j - start ==> rest[k] == s@[start + k]);
                assert(j - start < rest.len() ==> rest[j - start] == s@[j as int]);
                lemma_first_token_len(rest, j - start);
                assert(rest.take(j - start) =~= s@.subrange(start as int, j as int));
                assert(rest.skip(j - start) =~= s@.skip(j as int));
                assert(tokens(rest) =~= seq![s@.subrange(start as int, j as int)] + tokens(
                    s@.skip(j as int),
                ));
            }
            r.push(tok_s);
            proof {
                assert(r.deep_view() =~= prev.push(tok_s@));
                assert(prev.push(tok_s@) + tokens(s@.skip(j as int)) =~= prev + tokens(
                    s@.skip(start as int),
                ));
            }
            i = j;
        }
    }
    proof {
        assert(tokens(s@.skip(n as int)) =~= Seq::<Seq<char>>::empty());
    }
    r
}

} // verus!
