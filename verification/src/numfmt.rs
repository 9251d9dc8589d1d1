//! Decimal rendering and parsing of integers, used by the JSON encoders,
//! the notification texts and the form-input handling.

use vstd::prelude::*;
use crate::strings::push_char;

verus! {

/// The character for the decimal digit `d`.
pub open spec fn digit_char(d: int) -> char {
    ((48 + d) as u8) as char
}

/// The decimal digits of `n`, most significant first, no sign and no
/// leading zeros (`0` is rendered as a single `0`).
pub open spec fn dec_digits(n: nat) -> Seq<char>
    decreases n,
{
    if n < 10 {
        seq![digit_char(n as int)]
    } else {
        dec_digits(n / 10).push(digit_char((n % 10) as int))
    }
}

/// The decimal rendering of a signed integer: a `-` sign for negative
/// values, then the digits of the magnitude.
pub open spec fn dec_int(n: int) -> Seq<char> {
    if n < 0 {
        seq!['-'] + dec_digits((-n) as nat)
    } else {
        dec_digits(n as nat)
    }
}

/// Renders an unsigned integer in decimal.
pub fn u64_to_string(n: u64) -> (r: String)
    ensures
        r@ == dec_digits(n as nat),
    decreases n,
{
    let d = ((n % 10) as u8 + 48) as char;
    if n < 10 {
        let mut s = String::new();
        push_char(&mut s, d);
        proof {
            assert(s@ =~= dec_digits(n as nat));
        }
        s
    } else {
        let mut s = u64_to_string(n / 10);
        push_char(&mut s, d);
        s
    }
}

/// Renders a signed integer in decimal.
pub fn i64_to_string(n: i64) -> (r: String)
    ensures
        r@ == dec_int(n as int),
{
    if n >= 0 {
        u64_to_string(n as u64)
    } else {
        let mag: u64 = ((-(n + 1)) as u64) + 1;
        assert(mag == -(n as int));
        let mut s = String::new();
        push_char(&mut s, '-');
        let digits = u64_to_string(mag);
        s.append(digits.as_str());
        proof {
            assert(s@ =~= seq!['-'] + dec_digits((-(n as int)) as nat));
        }
        s
    }
}

/// `c` is a decimal digit.
pub open spec fn is_digit(c: char) -> bool {
    48 <= c as u32 <= 57
}

/// The value of the digit `c`.
pub open spec fn digit_val(c: char) -> int {
    c as u32 - 48
}

/// The value of a string of digits, most significant first.
pub open spec fn digits_val(s: Seq<char>) -> int
    decreases s.len(),
{
    if s.len() == 0 {
        0
    } else {
        digits_val(s.drop_last()) * 10 + digit_val(s.last())
    }
}

/// The digits of `s` after an optional leading sign.
pub open spec fn int_body(s: Seq<char>) -> Seq<char> {
    if s.len() > 0 && (s[0] == '-' || s[0] == '+') {
        s.drop_first()
    } else {
        s
    }
}

/// The integer a decimal literal denotes: the value of its digits, negated
/// after a `-` sign.
pub open spec fn int_of_str(s: Seq<char>) -> int {
    if s.len() > 0 && s[0] == '-' {
        -digits_val(int_body(s))
    } else {
        digits_val(int_body(s))
    }
}

/// `s` is a decimal integer literal as `str::parse` for `i64` accepts it:
/// an optional sign, then one or more digits, denoting a value in range.
pub open spec fn is_i64_literal(s: Seq<char>) -> bool {
    &&& int_body(s).len() > 0
    &&& forall|i: int| 0 <= i < int_body(s).len() ==> is_digit(#[trigger] int_body(s)[i])
    &&& i64::MIN <= int_of_str(s) <= i64::MAX
}

/// A digit string has a nonnegative value, and extending it cannot shrink
/// the value.
proof fn lemma_digits_val_nonneg(s: Seq<char>)
    requires
        forall|i: int| 0 <= i < s.len() ==> is_digit(#[trigger] s[i]),
    ensures
        digits_val(s) >= 0,
    decreases s.len(),
{
    if s.len() > 0 {
        lemma_digits_val_nonneg(s.drop_last());
    }
}

/// Appending digits never decreases the value of a digit string.
proof fn lemma_digits_val_prefix(s: Seq<char>, i: int)
    requires
        forall|k: int| 0 <= k < s.len() ==> is_digit(#[trigger] s[k]),
        0 <= i <= s.len(),
    ensures
        digits_val(s) >= digits_val(s.take(i)),
    decreases s.len() - i,
{
    if i < s.len() {
        lemma_digits_val_prefix(s, i + 1);
        assert(s.take(i + 1).drop_last() =~= s.take(i));
        assert(s.take(i + 1).last() == s[i]);
        lemma_digits_val_nonneg(s.take(i));
        assert(digits_val(s.take(i + 1)) == digits_val(s.take(i)) * 10 + digit_val(s[i]));
    } else {
        assert(s.take(i) =~= s);
    }
}

/// Parses a decimal integer exactly as `str::parse::<i64>` does: `Some`
/// on every in-range literal with an optional sign, `None` on everything
/// else (empty input, stray characters, overflow).
pub fn parse_i64(s: &str) -> (r: Option<i64>)
    ensures
        match r {
            Some(v) => is_i64_literal(s@) && v as int == int_of_str(s@),
            None => !is_i64_literal(s@),
        },
{
    let n = s.unicode_len();
    if n == 0 {
        return None;
    }
    let c0 = s.get_char(0);
    let neg = c0 == '-';
    let start: usize = if c0 == '-' || c0 == '+' {
        1
    } else {
        0
    };
    proof {
        if start == 1 {
            assert(int_body(s@) =~= s@.drop_first());
        } else {
            assert(int_body(s@) =~= s@);
        }
    }
    let ghost body = int_body(s@);
    if n == start {
        return None;
    }
    // The magnitude may reach 2^63 for the most negative value, so it is
    // accumulated in a u64 against the sign's own limit.
    let limit: u64 = if neg {
        9223372036854775808
    } else {
        9223372036854775807
    };
    let mut mag: u64 = 0;
    let mut i: usize = start;
    while i < n
        invariant
            start <= i <= n,
            start == 0 || start == 1,
            n == s@.len(),
            start == 1 ==> body =~= s@.drop_first(),
            start == 0 ==> body =~= s@,
            start == 1 ==> (s@[0] == '-' || s@[0] == '+'),
            start == 0 ==> !(s@[0] == '-' || s@[0] == '+'),
            neg == (s@[0] == '-'),
            limit == if neg { 9223372036854775808u64 } else { 9223372036854775807u64 },
            forall|k: int| 0 <= k < i - start ==> is_digit(#[trigger] body[k]),
            mag == digits_val(body.take(i - start)),
            mag <= limit,
        decreases n - i,
    {
        let c = s.get_char(i);
        let u = c as u32;
        if u < 48 || u > 57 {
            proof {
                assert(0 <= i - start < body.len());
                if start == 1 {
                    assert(body[i - start] == s@.drop_first()[i - 1]);
                    assert(s@.drop_first()[i - 1] == s@[i as int]);
                } else {
                    assert(body[i - start] == s@[i as int]);
                }
                assert(!is_digit(body[i - start]));
            }
            return None;
        }
        let d = (u - 48) as u64;
        proof {
            assert(0 <= i - start < body.len());
            if start == 1 {
                assert(body[i - start] == s@.drop_first()[i - 1]);
                assert(s@.drop_first()[i - 1] == s@[i as int]);
            } else {
                assert(body[i - start] == s@[i as int]);
            }
            assert(is_digit(body[i - start]));
            assert(digit_val(body[i - start]) == d);
            assert(body.take(i - start + 1).drop_last() =~= body.take(i - start));
            assert(body.take(i - start + 1).last() == body[i - start]);
            assert(digits_val(body.take(i - start + 1)) == mag * 10 + d);
        }
        if mag > (limit - d) / 10 {
            proof {
                assert(mag * 10 + d > limit) by (nonlinear_arith)
                    requires
                        mag > (limit - d) / 10,
                        d <= limit,
                        limit >= 10,
                ;
                if is_i64_literal(s@) {
                    lemma_digits_val_prefix(body, i - start + 1);
                    if neg {
                        assert(int_of_str(s@) == -digits_val(body));
                        assert(digits_val(body) > 9223372036854775808);
                    } else {
                        assert(int_of_str(s@) == digits_val(body));
                        assert(digits_val(body) > 9223372036854775807);
                    }
                }
            }
            return None;
        }
        proof {
            assert(mag * 10 + d <= limit) by (nonlinear_arith)
                requires
                    mag <= (limit - d) / 10,
                    d <= limit,
                ;
        }
        mag = mag * 10 + d;
        i = i + 1;
    }
    proof {
        assert(body.take(n - start) =~= body);
    }
    if neg {
        if mag == 9223372036854775808 {
            proof {
                assert(int_of_str(s@) == -(mag as int));
            }
            Some(i64::MIN)
        } else {
            Some(-(mag as i64))
        }
    } else {
        Some(mag as i64)
    }
}

} // verus!
