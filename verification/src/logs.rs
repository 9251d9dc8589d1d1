//! Log reconstruction: parses the newline-delimited activity log the
//! backend serves, rewrites embedded item-id tokens into current display
//! names through the derived index, orders the records by instant, and
//! buckets them by the calendar date their timestamps record — the
//! writer's local date, which the log carries explicitly, rather than a
//! re-rendering of the instant in the reader's own zone.
//!
//! Each log line is one object of the fixed shape the backend's encoder
//! writes: a quoted timestamp, level, label and message, the string
//! bodies carrying the usual escapes. A line that does not parse is
//! skipped and the parse continues; a lost line never poisons the rest.

use vstd::prelude::*;
use crate::date::{day_number, instant_seconds, spec_day_number, spec_instant, stamp_valid, Date,
    LogStamp};
use crate::index::Inventory;
use crate::item::ItemView;
use crate::numfmt::{digit_val, is_digit};
use crate::strings::{contains_str, find_from, is_substring, lemma_matches_at_skip, lower,
    match_at, matches_at, push_char, str_eq, to_lower};

verus! {

/// The severity of a log record.
#[derive(Debug, Clone, Copy, PartialEq, Eq, Structural)]
pub enum LogLevel {
    Error,
    Warn,
    Info,
    Debug,
    Trace,
}

impl View for LogLevel {
    type V = LogLevel;

    open spec fn view(&self) -> LogLevel {
        *self
    }
}

impl DeepView for LogLevel {
    type V = LogLevel;

    open spec fn deep_view(&self) -> LogLevel {
        *self
    }
}

/// The level a name denotes, compared without regard to case.
pub open spec fn spec_level_of(s: Seq<char>) -> Option<LogLevel> {
    let l = lower(s);
    if l == "error"@ {
        Some(LogLevel::Error)
    } else if l == "warn"@ {
        Some(LogLevel::Warn)
    } else if l == "info"@ {
        Some(LogLevel::Info)
    } else if l == "debug"@ {
        Some(LogLevel::Debug)
    } else if l == "trace"@ {
        Some(LogLevel::Trace)
    } else {
        None
    }
}

/// Parses a level name, without regard to case.
pub fn parse_level(s: &str) -> (r: Option<LogLevel>)
    ensures
        r == spec_level_of(s@),
{
    let l = to_lower(s);
    if str_eq(l.as_str(), "error") {
        Some(LogLevel::Error)
    } else if str_eq(l.as_str(), "warn") {
        Some(LogLevel::Warn)
    } else if str_eq(l.as_str(), "info") {
        Some(LogLevel::Info)
    } else if str_eq(l.as_str(), "debug") {
        Some(LogLevel::Debug)
    } else if str_eq(l.as_str(), "trace") {
        Some(LogLevel::Trace)
    } else {
        None
    }
}

/// One reconstructed record of the activity log.
#[derive(Debug, PartialEq, Eq)]
pub struct LogItem {
    pub stamp: LogStamp,
    pub level: LogLevel,
    pub label: String,
    pub message: String,
}

impl Clone for LogItem {
    /// Clones the record, field by field.
    fn clone(&self) -> (r: Self)
        ensures
            r == *self,
    {
        LogItem {
            stamp: self.stamp,
            level: self.level,
            label: self.label.clone(),
            message: self.message.clone(),
        }
    }
}

/// The mathematical image of a [`LogItem`].
pub ghost struct LogItemView {
    pub stamp: LogStamp,
    pub level: LogLevel,
    pub label: Seq<char>,
    pub message: Seq<char>,
}

impl View for LogItem {
    type V = LogItemView;

    open spec fn view(&self) -> LogItemView {
        LogItemView {
            stamp: self.stamp,
            level: self.level,
            label: self.label@,
            message: self.message@,
        }
    }
}

impl DeepView for LogItem {
    type V = LogItemView;

    open spec fn deep_view(&self) -> LogItemView {
        self.view()
    }
}

/// Length of the maximal newline-free prefix of `s`.
pub open spec fn first_line_len(s: Seq<char>) -> nat
    decreases s.len(),
{
    if s.len() == 0 || s[0] == '\n' {
        0
    } else {
        1 + first_line_len(s.drop_first())
    }
}

/// The newline-free prefix never reaches past the end of the sequence.
proof fn lemma_first_line_len_le(s: Seq<char>)
    ensures
        first_line_len(s) <= s.len(),
    decreases s.len(),
{
    if s.len() > 0 && s[0] != '\n' {
        lemma_first_line_len_le(s.drop_first());
    }
}

/// The nonempty lines of `s`, in order.
pub open spec fn split_lines(s: Seq<char>) -> Seq<Seq<char>>
    decreases s.len(),
    via split_lines_decreases
{
    if s.len() == 0 {
        Seq::empty()
    } else if s[0] == '\n' {
        split_lines(s.drop_first())
    } else {
        seq![s.take(first_line_len(s) as int)] + split_lines(s.skip(first_line_len(s) as int))
    }
}

#[via_fn]
proof fn split_lines_decreases(s: Seq<char>) {
    lemma_first_line_len_le(s);
}

/// A newline-free run of length `j` followed by a newline (or the end) is
/// exactly the first line.
proof fn lemma_first_line_len(s: Seq<char>, j: int)
    requires
        0 <= j <= s.len(),
        forall|k: int| 0 <= k < j ==> s[k] != '\n',
        j == s.len() || s[j] == '\n',
    ensures
        first_line_len(s) == j,
    decreases s.len(),
{
    if j != 0 {
        assert(forall|k: int| 0 <= k < j - 1 ==> s.drop_first()[k] == s[k + 1]);
        lemma_first_line_len(s.drop_first(), j - 1);
    }
}

/// Splits a blob into its nonempty lines.
pub fn split_into_lines(s: &str) -> (r: Vec<String>)
    ensures
        r.deep_view() =~= split_lines(s@),
{
    let n = s.unicode_len();
    let mut r: Vec<String> = Vec::new();
    let mut i: usize = 0;
    proof {
        assert(s@.skip(0) =~= s@);
        assert(r.deep_view() =~= Seq::<Seq<char>>::empty());
    }
    while i < n
        invariant
            i <= n,
            n == s@.len(),
            split_lines(s@) =~= r.deep_view() + split_lines(s@.skip(i as int)),
        decreases n - i,
    {
        let c = s.get_char(i);
        if c == '\n' {
            proof {
                assert(s@.skip(i as int)[0] == s@[i as int]);
                assert(s@.skip(i as int).drop_first() =~= s@.skip(i + 1));
            }
            i = i + 1;
        } else {
            let start = i;
            let mut j: usize = i + 1;
            while j < n
                invariant
                    start < j <= n,
                    n == s@.len(),
                    forall|k: int| start <= k < j ==> s@[k] != '\n',
                ensures
                    start < j <= n,
                    forall|k: int| start <= k < j ==> s@[k] != '\n',
                    j == n || s@[j as int] == '\n',
                decreases n - j,
            {
                let c2 = s.get_char(j);
                if c2 == '\n' {
                    break;
                }
                j = j + 1;
            }
            let line = s.substring_char(start, j);
            let line_s = String::from_str(line);
            let ghost prev = r.deep_view();
            proof {
                let rest = s@.skip(start as int);
                assert(forall|k: int| 0 <= k < j - start ==> rest[k] == s@[start + k]);
                assert(j - start < rest.len() ==> rest[j - start] == s@[j as int]);
                lemma_first_line_len(rest, j - start);
                assert(rest.take(j - start) =~= s@.subrange(start as int, j as int));
                assert(rest.skip(j - start) =~= s@.skip(j as int));
                assert(split_lines(rest) =~= seq![s@.subrange(start as int, j as int)]
                    + split_lines(s@.skip(j as int)));
            }
            r.push(line_s);
            proof {
                assert(r.deep_view() =~= prev.push(line_s@));
                assert(prev.push(line_s@) + split_lines(s@.skip(j as int)) =~= prev + split_lines(
                    s@.skip(start as int),
                ));
            }
            i = j;
        }
    }
    proof {
        assert(split_lines(s@.skip(n as int)) =~= Seq::<Seq<char>>::empty());
    }
    r
}

/// The length of a quoted string's body, from just after the opening
/// quote to its closing quote, escape pairs skipped whole; nothing when
/// the quote is never closed.
pub open spec fn string_body_len(s: Seq<char>) -> Option<nat>
    decreases s.len(),
{
    if s.len() == 0 {
        None
    } else if s[0] == '"' {
        Some(0)
    } else if s[0] == '\\' {
        if s.len() < 2 {
            None
        } else {
            match string_body_len(s.skip(2)) {
                Some(n) => Some(n + 2),
                None => None,
            }
        }
    } else {
        match string_body_len(s.skip(1)) {
            Some(n) => Some(n + 1),
            None => None,
        }
    }
}

/// Finds the closing quote of the string body that starts at `start`,
/// skipping escape pairs.
pub fn find_string_end(s: &str, start: usize) -> (r: Option<usize>)
    requires
        start <= s@.len(),
    ensures
        match r {
            Some(j) => start <= j < s@.len() && string_body_len(s@.skip(start as int)) == Some(
                (j - start) as nat,
            ),
            None => string_body_len(s@.skip(start as int)) is None,
        },
{
    let n = s.unicode_len();
    let mut j: usize = start;
    while j < n
        invariant
            start <= j <= n,
            n == s@.len(),
            string_body_len(s@.skip(start as int)) == match string_body_len(s@.skip(j as int)) {
                Some(m) => Some((m + j - start) as nat),
                None => None::<nat>,
            },
        decreases n - j,
    {
        let c = s.get_char(j);
        proof {
            assert(s@.skip(j as int)[0] == s@[j as int]);
        }
        if c == '"' {
            return Some(j);
        } else if c == '\\' {
            if j + 1 >= n {
                proof {
                    assert(s@.skip(j as int).len() == 1);
                }
                return None;
            }
            proof {
                assert(s@.skip(j as int).skip(2) =~= s@.skip(j + 2));
            }
            j = j + 2;
        } else {
            proof {
                assert(s@.skip(j as int).skip(1) =~= s@.skip(j + 1));
            }
            j = j + 1;
        }
    }
    proof {
        assert(s@.skip(j as int).len() == 0);
    }
    None
}

/// The character an escape introducer stands for, for the escapes the
/// log's encoder can produce.
pub open spec fn unescaped_char(c: char) -> Option<char> {
    if c == 'n' {
        Some('\n')
    } else if c == 't' {
        Some('\t')
    } else if c == 'r' {
        Some('\r')
    } else if c == '"' {
        Some('"')
    } else if c == '\\' {
        Some('\\')
    } else if c == '/' {
        Some('/')
    } else {
        None
    }
}

/// A string body with its escapes decoded; nothing when an escape is
/// dangling or unknown.
pub open spec fn unescape(s: Seq<char>) -> Option<Seq<char>>
    decreases s.len(),
{
    if s.len() == 0 {
        Some(Seq::empty())
    } else if s[0] == '\\' {
        if s.len() < 2 {
            None
        } else {
            match (unescaped_char(s[1]), unescape(s.skip(2))) {
                (Some(d), Some(rest)) => Some(seq![d] + rest),
                _ => None,
            }
        }
    } else {
        match unescape(s.drop_first()) {
            Some(rest) => Some(seq![s[0]] + rest),
            None => None,
        }
    }
}

/// Decodes a string body's escapes.
pub fn unescape_str(s: &str) -> (r: Option<String>)
    ensures
        match r {
            Some(out) => unescape(s@) == Some(out@),
            None => unescape(s@) is None,
        },
{
    let n = s.unicode_len();
    let mut out = String::new();
    let mut i: usize = 0;
    proof {
        assert(s@.skip(0) =~= s@);
    }
    while i < n
        invariant
            i <= n,
            n == s@.len(),
            unescape(s@) == match unescape(s@.skip(i as int)) {
                Some(rest) => Some(out@ + rest),
                None => None::<Seq<char>>,
            },
        decreases n - i,
    {
        let c = s.get_char(i);
        proof {
            assert(s@.skip(i as int)[0] == s@[i as int]);
        }
        if c == '\\' {
            if i + 1 >= n {
                proof {
                    assert(s@.skip(i as int).len() == 1);
                }
                return None;
            }
            let e = s.get_char(i + 1);
            proof {
                assert(s@.skip(i as int)[1] == s@[i + 1]);
                assert(s@.skip(i as int).skip(2) =~= s@.skip(i + 2));
            }
            let d: char = if e == 'n' {
                '\n'
            } else if e == 't' {
                '\t'
            } else if e == 'r' {
                '\r'
            } else if e == '"' {
                '"'
            } else if e == '\\' {
                '\\'
            } else if e == '/' {
                '/'
            } else {
                return None;
            };
            push_char(&mut out, d);
            proof {
                assert(unescape(s@.skip(i as int)) == match unescape(s@.skip(i + 2)) {
                    Some(rest) => Some(seq![d] + rest),
                    None => None::<Seq<char>>,
                });
                if unescape(s@.skip(i + 2)) is Some {
                    assert(out@ + unescape(s@.skip(i + 2))->0 =~= out@.drop_last() + (seq![d]
                        + unescape(s@.skip(i + 2))->0));
                }
            }
            i = i + 2;
        } else {
            push_char(&mut out, c);
            proof {
                assert(s@.skip(i as int).drop_first() =~= s@.skip(i + 1));
                assert(unescape(s@.skip(i as int)) == match unescape(s@.skip(i + 1)) {
                    Some(rest) => Some(seq![c] + rest),
                    None => None::<Seq<char>>,
                });
                if unescape(s@.skip(i + 1)) is Some {
                    assert(out@ + unescape(s@.skip(i + 1))->0 =~= out@.drop_last() + (seq![c]
                        + unescape(s@.skip(i + 1))->0));
                }
            }
            i = i + 1;
        }
    }
    proof {
        assert(s@.skip(n as int).len() == 0);
        assert(unescape(s@.skip(n as int)) == Some(Seq::<char>::empty()));
        assert(out@ + Seq::<char>::empty() =~= out@);
    }
    Some(out)
}

/// The timestamp a date field denotes, in the log's fixed shape: a
/// four-digit year, two-digit month, day, hour, minute and second, and a
/// signed hours-and-minutes offset — rejected unless it is a real
/// calendar date and time.
pub open spec fn spec_parse_stamp(s: Seq<char>) -> Option<LogStamp> {
    if s.len() == 26 && is_digit(s[0]) && is_digit(s[1]) && is_digit(s[2]) && is_digit(s[3]) && s[4]
        == '-' && is_digit(s[5]) && is_digit(s[6]) && s[7] == '-' && is_digit(s[8]) && is_digit(
        s[9],
    ) && s[10] == ' ' && is_digit(s[11]) && is_digit(s[12]) && s[13] == ':' && is_digit(s[14])
        && is_digit(s[15]) && s[16] == ':' && is_digit(s[17]) && is_digit(s[18]) && s[19] == ' ' && (
    s[20] == '+' || s[20] == '-') && is_digit(s[21]) && is_digit(s[22]) && s[23] == ':' && is_digit(
        s[24],
    ) && is_digit(s[25]) {
        let y = digit_val(s[0]) * 1000 + digit_val(s[1]) * 100 + digit_val(s[2]) * 10 + digit_val(
            s[3],
        );
        let mo = digit_val(s[5]) * 10 + digit_val(s[6]);
        let da = digit_val(s[8]) * 10 + digit_val(s[9]);
        let h = digit_val(s[11]) * 10 + digit_val(s[12]);
        let mi = digit_val(s[14]) * 10 + digit_val(s[15]);
        let se = digit_val(s[17]) * 10 + digit_val(s[18]);
        let off = (digit_val(s[21]) * 10 + digit_val(s[22])) * 60 + digit_val(s[24]) * 10
            + digit_val(s[25]);
        let signed_off = if s[20] == '-' {
            -off
        } else {
            off
        };
        let st = LogStamp {
            date: Date { year: y as i64, month: mo as u8, day: da as u8 },
            hour: h as u8,
            minute: mi as u8,
            second: se as u8,
            offset_min: signed_off as i32,
        };
        if stamp_valid(st) {
            Some(st)
        } else {
            None
        }
    } else {
        None
    }
}

/// Reads the decimal digit at position `i`.
fn dval(s: &str, i: usize) -> (r: Option<u8>)
    requires
        i < s@.len(),
    ensures
        match r {
            Some(v) => is_digit(s@[i as int]) && v as int == digit_val(s@[i as int]),
            None => !is_digit(s@[i as int]),
        },
{
    let u = s.get_char(i) as u32;
    if 48 <= u && u <= 57 {
        Some((u - 48) as u8)
    } else {
        None
    }
}

/// Parses a date field in the log's fixed timestamp shape.
pub fn parse_stamp(s: &str) -> (r: Option<LogStamp>)
    ensures
        r == spec_parse_stamp(s@),
{
    let n = s.unicode_len();
    if n != 26 {
        return None;
    }
    let d0 = match dval(s, 0) { Some(v) => v, None => { return None; } };
    let d1 = match dval(s, 1) { Some(v) => v, None => { return None; } };
    let d2 = match dval(s, 2) { Some(v) => v, None => { return None; } };
    let d3 = match dval(s, 3) { Some(v) => v, None => { return None; } };
    if s.get_char(4) != '-' {
        return None;
    }
    let d5 = match dval(s, 5) { Some(v) => v, None => { return None; } };
    let d6 = match dval(s, 6) { Some(v) => v, None => { return None; } };
    if s.get_char(7) != '-' {
        return None;
    }
    let d8 = match dval(s, 8) { Some(v) => v, None => { return None; } };
    let d9 = match dval(s, 9) { Some(v) => v, None => { return None; } };
    if s.get_char(10) != ' ' {
        return None;
    }
    let d11 = match dval(s, 11) { Some(v) => v, None => { return None; } };
    let d12 = match dval(s, 12) { Some(v) => v, None => { return None; } };
    if s.get_char(13) != ':' {
        return None;
    }
    let d14 = match dval(s, 14) { Some(v) => v, None => { return None; } };
    let d15 = match dval(s, 15) { Some(v) => v, None => { return None; } };
    if s.get_char(16) != ':' {
        return None;
    }
    let d17 = match dval(s, 17) { Some(v) => v, None => { return None; } };
    let d18 = match dval(s, 18) { Some(v) => v, None => { return None; } };
    if s.get_char(19) != ' ' {
        return None;
    }
    let sign = s.get_char(20);
    if !(sign == '+' || sign == '-') {
        return None;
    }
    let d21 = match dval(s, 21) { Some(v) => v, None => { return None; } };
    let d22 = match dval(s, 22) { Some(v) => v, None => { return None; } };
    if s.get_char(23) != ':' {
        return None;
    }
    let d24 = match dval(s, 24) { Some(v) => v, None => { return None; } };
    let d25 = match dval(s, 25) { Some(v) => v, None => { return None; } };
    let y = (d0 as i64) * 1000 + (d1 as i64) * 100 + (d2 as i64) * 10 + (d3 as i64);
    let mo = d5 * 10 + d6;
    let da = d8 * 10 + d9;
    let h = d11 * 10 + d12;
    let mi = d14 * 10 + d15;
    let se = d17 * 10 + d18;
    let off: i32 = ((d21 as i32) * 10 + (d22 as i32)) * 60 + (d24 as i32) * 10 + (d25 as i32);
    let signed_off: i32 = if sign == '-' {
        -off
    } else {
        off
    };
    let st = LogStamp {
        date: Date { year: y, month: mo, day: da },
        hour: h,
        minute: mi,
        second: se,
        offset_min: signed_off,
    };
    let valid = mo >= 1 && mo <= 12 && da >= 1 && h <= 23 && mi <= 59 && se <= 59 && signed_off
        >= -1439 && signed_off <= 1439 && {
        let dim: u8 = if mo == 2 {
            if (y % 4 == 0 && (y % 100 != 0 || y % 400 == 0)) {
                29
            } else {
                28
            }
        } else if mo == 4 || mo == 6 || mo == 9 || mo == 11 {
            30
        } else {
            31
        };
        da <= dim
    };
    if valid {
        Some(st)
    } else {
        None
    }
}

/// A line with its one trailing comma removed — every line of the log
/// but the last carries one.
pub open spec fn strip_comma(line: Seq<char>) -> Seq<char> {
    if line.len() > 0 && line.last() == ',' {
        line.drop_last()
    } else {
        line
    }
}

/// The record a log line denotes: after the trailing comma is stripped,
/// the line must carry the encoder's exact shape — a brace, the four
/// quoted fields under their fixed keys, and the closing brace — with a
/// well-formed timestamp and level. Anything else denotes no record.
pub open spec fn spec_parse_line(line: Seq<char>) -> Option<LogItemView> {
    let l = strip_comma(line);
    if !matches_at(l, "{\"date\": \""@, 0) {
        None
    } else {
        let r1 = l.skip(10);
        match string_body_len(r1) {
            None => None,
            Some(n1) => {
                let rawdate = r1.take(n1 as int);
                let r2 = r1.skip(n1 as int);
                if !matches_at(r2, "\", \"level\": \""@, 0) {
                    None
                } else {
                    let r3 = r2.skip(13);
                    match string_body_len(r3) {
                        None => None,
                        Some(n2) => {
                            let rawlevel = r3.take(n2 as int);
                            let r4 = r3.skip(n2 as int);
                            if !matches_at(r4, "\", \"label\": \""@, 0) {
                                None
                            } else {
                                let r5 = r4.skip(13);
                                match string_body_len(r5) {
                                    None => None,
                                    Some(n3) => {
                                        let rawlabel = r5.take(n3 as int);
                                        let r6 = r5.skip(n3 as int);
                                        if !matches_at(r6, "\", \"message\": \""@, 0) {
                                            None
                                        } else {
                                            let r7 = r6.skip(15);
                                            match string_body_len(r7) {
                                                None => None,
                                                Some(n4) => {
                                                    let rawmsg = r7.take(n4 as int);
                                                    let r8 = r7.skip(n4 as int);
                                                    if r8 != "\"}"@ {
                                                        None
                                                    } else {
                                                        spec_assemble_record(
                                                            rawdate,
                                                            rawlevel,
                                                            rawlabel,
                                                            rawmsg,
                                                        )
                                                    }
                                                },
                                            }
                                        }
                                    },
                                }
                            }
                        },
                    }
                }
            },
        }
    }
}

/// The record four raw field bodies assemble into, once unescaped: a
/// well-formed timestamp, a known level, and the label and message texts.
pub open spec fn spec_assemble_record(
    rawdate: Seq<char>,
    rawlevel: Seq<char>,
    rawlabel: Seq<char>,
    rawmsg: Seq<char>,
) -> Option<LogItemView> {
    match (unescape(rawdate), unescape(rawlevel), unescape(rawlabel), unescape(rawmsg)) {
        (Some(ud), Some(ul), Some(ulb), Some(um)) => {
            match (spec_parse_stamp(ud), spec_level_of(ul)) {
                (Some(stamp), Some(level)) => Some(
                    LogItemView { stamp, level, label: ulb, message: um },
                ),
                _ => None,
            }
        },
        _ => None,
    }
}

/// Parses one log line into a record, or nothing when the line is
/// malformed.
#[verifier::rlimit(100)]
pub fn parse_line(line: &str) -> (r: Option<LogItem>)
    ensures
        match r {
            Some(rec) => spec_parse_line(line@) == Some(rec@),
            None => spec_parse_line(line@) is None,
        },
{
    let n = line.unicode_len();
    let end: usize = if n > 0 && line.get_char(n - 1) == ',' {
        n - 1
    } else {
        n
    };
    let ls = line.substring_char(0, end);
    let ghost l = strip_comma(line@);
    proof {
        if line@.len() > 0 && line@.last() == ',' {
            assert(l =~= line@.subrange(0, end as int));
        } else {
            assert(l =~= line@.subrange(0, end as int));
        }
        assert(ls@ == l);
    }
    proof {
        reveal_strlit("{\"date\": \"");
        reveal_strlit("\", \"level\": \"");
        reveal_strlit("\", \"label\": \"");
        reveal_strlit("\", \"message\": \"");
        reveal_strlit("\"}");
    }
    if !match_at(ls, "{\"date\": \"", 0) {
        proof {
            assert(ls@.skip(0) =~= ls@);
            lemma_matches_at_skip(l, "{\"date\": \""@, 0);
        }
        return None;
    }
    let ghost r1 = l.skip(10);
    let e1 = match find_string_end(ls, 10) {
        Some(j) => j,
        None => {
            return None;
        },
    };
    let rawdate = ls.substring_char(10, e1);
    proof {
        assert(rawdate@ =~= r1.take(e1 - 10));
        lemma_matches_at_skip(l, "\", \"level\": \""@, e1 as int);
        assert(l.skip(e1 as int) =~= r1.skip(e1 - 10));
    }
    if !match_at(ls, "\", \"level\": \"", e1) {
        return None;
    }
    assert(e1 + 13 <= ls@.len());
    let level_at = e1 + 13;
    let ghost r3 = r1.skip(e1 - 10).skip(13);
    proof {
        assert(r3 =~= l.skip(level_at as int));
    }
    let e2 = match find_string_end(ls, level_at) {
        Some(j) => j,
        None => {
            return None;
        },
    };
    let rawlevel = ls.substring_char(level_at, e2);
    proof {
        assert(rawlevel@ =~= r3.take(e2 - level_at));
        lemma_matches_at_skip(l, "\", \"label\": \""@, e2 as int);
        assert(l.skip(e2 as int) =~= r3.skip(e2 - level_at));
    }
    if !match_at(ls, "\", \"label\": \"", e2) {
        return None;
    }
    assert(e2 + 13 <= ls@.len());
    let label_at = e2 + 13;
    let ghost r5 = r3.skip(e2 - level_at).skip(13);
    proof {
        assert(r5 =~= l.skip(label_at as int));
    }
    let e3 = match find_string_end(ls, label_at) {
        Some(j) => j,
        None => {
            return None;
        },
    };
    let rawlabel = ls.substring_char(label_at, e3);
    proof {
        assert(rawlabel@ =~= r5.take(e3 - label_at));
        lemma_matches_at_skip(l, "\", \"message\": \""@, e3 as int);
        assert(l.skip(e3 as int) =~= r5.skip(e3 - label_at));
    }
    if !match_at(ls, "\", \"message\": \"", e3) {
        return None;
    }
    assert(e3 + 15 <= ls@.len());
    let msg_at = e3 + 15;
    let ghost r7 = r5.skip(e3 - label_at).skip(15);
    proof {
        assert(r7 =~= l.skip(msg_at as int));
    }
    let e4 = match find_string_end(ls, msg_at) {
        Some(j) => j,
        None => {
            return None;
        },
    };
    let rawmsg = ls.substring_char(msg_at, e4);
    proof {
        assert(rawmsg@ =~= r7.take(e4 - msg_at));
        lemma_matches_at_skip(l, "\"}"@, e4 as int);
        assert(l.skip(e4 as int) =~= r7.skip(e4 - msg_at));
    }
    let ghost r8 = r7.skip(e4 - msg_at);
    if !(end - e4 == 2 && match_at(ls, "\"}", e4)) {
        proof {
            if r8 == "\"}"@ {
                assert(r8.len() == 2) by {
                    reveal_strlit("\"}");
                }
                assert(matches_at(l, "\"}"@, e4 as int)) by {
                    assert(l.subrange(e4 as int, e4 + 2) =~= r8);
                }
            }
        }
        return None;
    }
    proof {
        assert(r8 =~= l.subrange(e4 as int, e4 + 2));
        assert(matches_at(l, "\"}"@, e4 as int));
        assert(r8 =~= "\"}"@);
    }
    assemble_record(rawdate, rawlevel, rawlabel, rawmsg)
}

/// Unescapes the four raw field bodies and assembles the record.
fn assemble_record(rawdate: &str, rawlevel: &str, rawlabel: &str, rawmsg: &str) -> (r: Option<
    LogItem,
>)
    ensures
        match r {
            Some(rec) => spec_assemble_record(rawdate@, rawlevel@, rawlabel@, rawmsg@) == Some(
                rec@,
            ),
            None => spec_assemble_record(rawdate@, rawlevel@, rawlabel@, rawmsg@) is None,
        },
{
    let udate = match unescape_str(rawdate) {
        Some(v) => v,
        None => {
            return None;
        },
    };
    let ulevel = match unescape_str(rawlevel) {
        Some(v) => v,
        None => {
            return None;
        },
    };
    let ulabel = match unescape_str(rawlabel) {
        Some(v) => v,
        None => {
            return None;
        },
    };
    let umsg = match unescape_str(rawmsg) {
        Some(v) => v,
        None => {
            return None;
        },
    };
    let stamp = match parse_stamp(udate.as_str()) {
        Some(v) => v,
        None => {
            return None;
        },
    };
    let level = match parse_level(ulevel.as_str()) {
        Some(v) => v,
        None => {
            return None;
        },
    };
    Some(LogItem { stamp, level, label: ulabel, message: umsg })
}

/// The records a sequence of lines denotes, malformed lines skipped.
pub open spec fn parse_records(lines: Seq<Seq<char>>) -> Seq<LogItemView>
    decreases lines.len(),
{
    if lines.len() == 0 {
        Seq::empty()
    } else {
        match spec_parse_line(lines[0]) {
            Some(rec) => seq![rec] + parse_records(lines.drop_first()),
            None => parse_records(lines.drop_first()),
        }
    }
}

/// The records a raw log blob denotes: its nonempty lines parsed in
/// order, malformed lines skipped.
pub open spec fn spec_parse_log(s: Seq<char>) -> Seq<LogItemView> {
    parse_records(split_lines(s))
}

/// Parses a raw log blob into records, skipping malformed lines.
pub fn parse_log(s: &str) -> (r: Vec<LogItem>)
    ensures
        r.deep_view() == spec_parse_log(s@),
{
    let lines = split_into_lines(s);
    let ghost lv = lines.deep_view();
    let mut r: Vec<LogItem> = Vec::new();
    let mut i: usize = 0;
    proof {
        assert(r.deep_view() =~= Seq::<LogItemView>::empty());
        assert(lv.skip(0) =~= lv);
    }
    while i < lines.len()
        invariant
            i <= lines.len(),
            lv == lines.deep_view(),
            lv.len() == lines.len(),
            r.deep_view() + parse_records(lv.skip(i as int)) =~= parse_records(lv),
        decreases lines.len() - i,
    {
        proof {
            assert(lv.skip(i as int)[0] == lv[i as int]);
            assert(lv.skip(i as int).drop_first() =~= lv.skip(i + 1));
        }
        match parse_line(lines[i].as_str()) {
            Some(rec) => {
                let ghost prev = r.deep_view();
                let ghost recv = rec@;
                r.push(rec);
                proof {
                    assert(r.deep_view() =~= prev.push(recv));
                    assert(prev.push(recv) + parse_records(lv.skip(i + 1)) =~= prev + (seq![recv]
                        + parse_records(lv.skip(i + 1))));
                }
            },
            None => {
            },
        }
        i = i + 1;
    }
    proof {
        assert(parse_records(lv.skip(lv.len() as int)) =~= Seq::<LogItemView>::empty());
        assert(r.deep_view() =~= parse_records(lv));
    }
    r
}

/// The position of the first occurrence of `pat` in `s`.
pub open spec fn first_match(s: Seq<char>, pat: Seq<char>) -> Option<nat>
    decreases s.len(),
{
    if pat.len() == 0 {
        Some(0 as nat)
    } else if s.len() < pat.len() {
        None
    } else if s.take(pat.len() as int) == pat {
        Some(0 as nat)
    } else {
        match first_match(s.drop_first(), pat) {
            Some(i) => Some((i + 1) as nat),
            None => None,
        }
    }
}

/// An occurrence with none before it is the first occurrence.
proof fn lemma_first_match_some(s: Seq<char>, pat: Seq<char>, i: int)
    requires
        matches_at(s, pat, i),
        forall|k: int| 0 <= k < i ==> !matches_at(s, pat, k),
    ensures
        first_match(s, pat) == Some(i as nat),
    decreases i,
{
    if i == 0 {
        assert(s.take(pat.len() as int) =~= s.subrange(0, pat.len() as int));
    } else {
        assert(!matches_at(s, pat, 0));
        assert(s.take(pat.len() as int) != pat) by {
            if s.take(pat.len() as int) == pat {
                assert(s.subrange(0, pat.len() as int) =~= s.take(pat.len() as int));
            }
        }
        let t = s.drop_first();
        assert(matches_at(t, pat, i - 1)) by {
            assert(t.subrange(i - 1, i - 1 + pat.len()) =~= s.subrange(i, i + pat.len()));
        }
        assert forall|k: int| 0 <= k < i - 1 implies !matches_at(t, pat, k) by {
            if matches_at(t, pat, k) {
                assert(s.subrange(k + 1, k + 1 + pat.len()) =~= t.subrange(k, k + pat.len()));
                assert(matches_at(s, pat, k + 1));
            }
        }
        lemma_first_match_some(t, pat, i - 1);
    }
}

/// With no occurrence anywhere there is no first occurrence.
#[verifier::rlimit(100)]
proof fn lemma_first_match_none(s: Seq<char>, pat: Seq<char>)
    requires
        forall|k: int| !matches_at(s, pat, k),
    ensures
        first_match(s, pat) is None,
    decreases s.len(),
{
    if pat.len() == 0 {
        assert(s.subrange(0, 0) =~= pat);
        assert(matches_at(s, pat, 0));
    } else if s.len() >= pat.len() {
        assert(s.take(pat.len() as int) != pat) by {
            if s.take(pat.len() as int) == pat {
                assert(s.subrange(0, pat.len() as int) =~= s.take(pat.len() as int));
                assert(matches_at(s, pat, 0));
            }
        }
        let t = s.drop_first();
        assert forall|k: int| !matches_at(t, pat, k) by {
            if 0 <= k && k + pat.len() <= t.len() && matches_at(t, pat, k) {
                assert forall|m: int| 0 <= m < pat.len() implies #[trigger] s.subrange(
                    k + 1,
                    k + 1 + pat.len(),
                )[m] == t.subrange(k, k + pat.len())[m] by {
                    assert(t[k + m] == s[k + 1 + m]);
                }
                assert(s.subrange(k + 1, k + 1 + pat.len()) =~= t.subrange(k, k + pat.len()));
                assert(matches_at(s, pat, k + 1));
            }
        }
        lemma_first_match_none(t, pat);
    }
}

/// The placeholder a stale id token is replaced by: the token with its
/// fifth character replaced by an underscore marker, so the reader still
/// sees which id the line meant.
pub open spec fn stale_placeholder(token: Seq<char>) -> Seq<char> {
    token.take(4) + "_id"@ + token.skip(5)
}

/// The width of an embedded id token: the six-character introducer and a
/// twenty-character identifier.
pub open spec fn id_token_len() -> int {
    26
}

/// A message with every embedded id token resolved, scanning left to
/// right: a token whose id the index knows becomes the item's current
/// name, a stale one becomes its placeholder, and a token cut off by the
/// end of the message is left as it stands.
pub open spec fn rewrite_ids(msg: Seq<char>, id_map: Map<Seq<char>, ItemView>) -> Seq<char>
    decreases msg.len(),
{
    match first_match(msg, "items:"@) {
        None => msg,
        Some(i) => {
            if i + id_token_len() <= msg.len() {
                let token = msg.subrange(i as int, i + id_token_len());
                let repl = if id_map.contains_key(token) {
                    id_map[token].name
                } else {
                    stale_placeholder(token)
                };
                msg.take(i as int) + repl + rewrite_ids(msg.skip(i + id_token_len()), id_map)
            } else {
                msg
            }
        },
    }
}

/// Rewrites the embedded id tokens of one message through the index.
pub fn rewrite_message(msg: &str, inv: &Inventory) -> (r: String)
    requires
        inv.wf(),
    ensures
        r@ == rewrite_ids(msg@, inv.id_map()),
{
    let n = msg.unicode_len();
    let mut out = String::new();
    let mut pos: usize = 0;
    proof {
        assert(msg@.skip(0) =~= msg@);
    }
    loop
        invariant
            pos <= n,
            n == msg@.len(),
            inv.wf(),
            rewrite_ids(msg@, inv.id_map()) == out@ + rewrite_ids(
                msg@.skip(pos as int),
                inv.id_map(),
            ),
        decreases n - pos,
    {
        let found = find_from(msg, "items:", pos);
        let ghost suffix = msg@.skip(pos as int);
        match found {
            None => {
                proof {
                    assert forall|k: int| !matches_at(suffix, "items:"@, k) by {
                        if 0 <= k && k + "items:"@.len() <= suffix.len() && matches_at(
                            suffix,
                            "items:"@,
                            k,
                        ) {
                            lemma_matches_at_skip(msg@, "items:"@, pos + k);
                            assert(msg@.skip(pos + k) =~= suffix.skip(k));
                            assert(suffix.skip(k).subrange(0, "items:"@.len() as int)
                                =~= suffix.subrange(k, k + "items:"@.len()));
                            assert(matches_at(msg@, "items:"@, pos + k));
                        }
                    }
                    lemma_first_match_none(suffix, "items:"@);
                }
                let rest = msg.substring_char(pos, n);
                out.append(rest);
                proof {
                    assert(out@ =~= out@.subrange(0, out@.len() - rest@.len()) + suffix);
                }
                return out;
            },
            Some(i) => {
                proof {
                    assert(matches_at(suffix, "items:"@, i - pos)) by {
                        lemma_matches_at_skip(msg@, "items:"@, i as int);
                        assert(msg@.skip(i as int) =~= suffix.skip(i - pos));
                        assert(suffix.skip(i - pos).subrange(0, "items:"@.len() as int)
                            =~= suffix.subrange(i - pos, i - pos + "items:"@.len()));
                    }
                    assert forall|k: int| 0 <= k < i - pos implies !matches_at(
                        suffix,
                        "items:"@,
                        k,
                    ) by {
                        if matches_at(suffix, "items:"@, k) {
                            lemma_matches_at_skip(msg@, "items:"@, pos + k);
                            assert(msg@.skip(pos + k) =~= suffix.skip(k));
                            assert(suffix.skip(k).subrange(0, "items:"@.len() as int)
                                =~= suffix.subrange(k, k + "items:"@.len()));
                            assert(matches_at(msg@, "items:"@, pos + k));
                        }
                    }
                    lemma_first_match_some(suffix, "items:"@, i - pos);
                    assert("items:"@.len() <= 26) by {
                        reveal_strlit("items:");
                    }
                }
                if n - i >= 26 {
                    let token = msg.substring_char(i, i + 26);
                    let prefix = msg.substring_char(pos, i);
                    out.append(prefix);
                    proof {
                        assert(token@ =~= suffix.subrange(i - pos, i - pos + id_token_len()));
                        assert(prefix@ =~= suffix.take(i - pos));
                    }
                    match inv.get_item(token) {
                        Some(item) => {
                            out.append(item.name.as_str());
                        },
                        None => {
                            let head = msg.substring_char(i, i + 4);
                            let tail = msg.substring_char(i + 5, i + 26);
                            out.append(head);
                            out.append("_id");
                            out.append(tail);
                            proof {
                                assert(head@ =~= token@.take(4));
                                assert(tail@ =~= token@.skip(5));
                            }
                        },
                    }
                    proof {
                        assert(msg@.skip(i + 26) =~= suffix.skip(i - pos + id_token_len()));
                        let repl = if inv.id_map().contains_key(token@) {
                            inv.id_map()[token@].name
                        } else {
                            stale_placeholder(token@)
                        };
                        assert(rewrite_ids(suffix, inv.id_map()) == suffix.take(i - pos) + repl
                            + rewrite_ids(suffix.skip(i - pos + id_token_len()), inv.id_map()));
                        assert(out@ + rewrite_ids(msg@.skip(i + 26), inv.id_map()) =~= out@.subrange(
                            0,
                            out@.len() - suffix.take(i - pos).len() - repl.len(),
                        ) + rewrite_ids(suffix, inv.id_map()));
                    }
                    pos = i + 26;
                } else {
                    proof {
                        assert(rewrite_ids(suffix, inv.id_map()) == suffix);
                    }
                    let rest = msg.substring_char(pos, n);
                    out.append(rest);
                    proof {
                        assert(out@ =~= out@.subrange(0, out@.len() - rest@.len()) + suffix);
                    }
                    return out;
                }
            },
        }
    }
}

/// A label marks its record for id substitution when it speaks of
/// consuming, restocking or updating items.
pub open spec fn touched_label(label: Seq<char>) -> bool {
    ||| is_substring("Consumed"@, label)
    ||| is_substring("Restocked"@, label)
    ||| is_substring("Updated"@, label)
}

/// The records with every marked message rewritten through the index.
pub open spec fn spec_substitute(
    recs: Seq<LogItemView>,
    id_map: Map<Seq<char>, ItemView>,
) -> Seq<LogItemView> {
    Seq::new(
        recs.len(),
        |i: int|
            if touched_label(recs[i].label) {
                LogItemView { message: rewrite_ids(recs[i].message, id_map), ..recs[i] }
            } else {
                recs[i]
            },
    )
}

/// Rewrites the id tokens of every record whose label marks it.
pub fn substitute_records(records: Vec<LogItem>, inv: &Inventory) -> (r: Vec<LogItem>)
    requires
        inv.wf(),
    ensures
        r.deep_view() == spec_substitute(records.deep_view(), inv.id_map()),
{
    let ghost dv = records.deep_view();
    let mut r: Vec<LogItem> = Vec::new();
    let mut i: usize = 0;
    while i < records.len()
        invariant
            i <= records.len(),
            inv.wf(),
            dv == records.deep_view(),
            dv.len() == records.len(),
            r.deep_view() =~= spec_substitute(dv, inv.id_map()).take(i as int),
        decreases records.len() - i,
    {
        let rec = &records[i];
        let touched = contains_str(rec.label.as_str(), "Consumed") || contains_str(
            rec.label.as_str(),
            "Restocked",
        ) || contains_str(rec.label.as_str(), "Updated");
        let next = if touched {
            LogItem {
                stamp: rec.stamp,
                level: rec.level,
                label: rec.label.clone(),
                message: rewrite_message(rec.message.as_str(), inv),
            }
        } else {
            rec.clone()
        };
        let ghost prev = r.deep_view();
        let ghost nextv = next@;
        r.push(next);
        proof {
            assert(r.deep_view() =~= prev.push(nextv));
            assert(r.deep_view() =~= spec_substitute(dv, inv.id_map()).take(i + 1));
        }
        i = i + 1;
    }
    proof {
        assert(spec_substitute(dv, inv.id_map()).take(dv.len() as int) =~= spec_substitute(
            dv,
            inv.id_map(),
        ));
    }
    r
}

/// Substitution never loses or reorders a record, and of each record it
/// can touch nothing but the message: the count, the timestamps, the
/// levels and the labels all stay, an unmarked record stays whole, and a
/// marked record's message becomes exactly its rewriting.
pub proof fn lemma_substitute_preserves_records(
    recs: Seq<LogItemView>,
    id_map: Map<Seq<char>, ItemView>,
)
    ensures
        spec_substitute(recs, id_map).len() == recs.len(),
        forall|i: int|
            0 <= i < recs.len() ==> {
                let out = #[trigger] spec_substitute(recs, id_map)[i];
                &&& out.stamp == recs[i].stamp
                &&& out.level == recs[i].level
                &&& out.label == recs[i].label
            },
        forall|i: int|
            0 <= i < recs.len() && !touched_label(recs[i].label)
                ==> #[trigger] spec_substitute(recs, id_map)[i] == recs[i],
        forall|i: int|
            0 <= i < recs.len() && touched_label(recs[i].label) ==> (#[trigger] spec_substitute(
                recs,
                id_map,
            )[i]).message == rewrite_ids(recs[i].message, id_map),
{
}

/// A message without an id token is left exactly as it stands.
pub proof fn lemma_rewrite_no_token(msg: Seq<char>, id_map: Map<Seq<char>, ItemView>)
    requires
        first_match(msg, "items:"@) is None,
    ensures
        rewrite_ids(msg, id_map) == msg,
{
}

/// One rewriting step, written out: where the first id token of the
/// message starts at `i` and fits, the rewritten message is the
/// untouched prefix, then the token's replacement — the item's current
/// name when the index knows the id, the placeholder derived from the
/// token when it does not — and then the rewritten remainder. No other
/// character of the message moves, so a stale reference costs exactly
/// its own token and never the rest of the line.
pub proof fn lemma_rewrite_step(msg: Seq<char>, id_map: Map<Seq<char>, ItemView>, i: int)
    requires
        0 <= i,
        first_match(msg, "items:"@) == Some(i as nat),
        i + id_token_len() <= msg.len(),
    ensures
        ({
            let token = msg.subrange(i, i + id_token_len());
            let repl = if id_map.contains_key(token) {
                id_map[token].name
            } else {
                stale_placeholder(token)
            };
            rewrite_ids(msg, id_map) == msg.take(i) + repl + rewrite_ids(
                msg.skip(i + id_token_len()),
                id_map,
            )
        }),
{
}

/// The placeholder is derived from the id itself: for a well-formed
/// token — the six-character introducer and a twenty-character id — it
/// reads as the stale-reference marker followed by exactly that id.
pub proof fn lemma_stale_placeholder_shape(token: Seq<char>)
    requires
        token.len() == id_token_len(),
        token.take(6) == "items:"@,
    ensures
        stale_placeholder(token) == "item_id:"@ + token.skip(6),
{
    reveal_strlit("items:");
    reveal_strlit("item_id:");
    reveal_strlit("_id");
    assert forall|p: int| 0 <= p < 6 implies token[p] == "items:"@[p] by {
        assert(token.take(6)[p] == token[p]);
    }
    assert(stale_placeholder(token) =~= "item_id:"@ + token.skip(6));
}

/// The records are in descending instant order.
pub open spec fn sorted_desc(s: Seq<LogItemView>) -> bool {
    forall|i: int, j: int|
        0 <= i < j < s.len() ==> spec_instant((#[trigger] s[i]).stamp) >= spec_instant(
            (#[trigger] s[j]).stamp,
        )
}

/// Every record carries a real timestamp.
pub open spec fn stamps_valid(s: Seq<LogItemView>) -> bool {
    forall|i: int| 0 <= i < s.len() ==> stamp_valid((#[trigger] s[i]).stamp)
}

/// Sorts records by instant, most recent first; the result holds exactly
/// the given records.
#[verifier::rlimit(100)]
pub fn sort_records_desc(records: Vec<LogItem>) -> (r: Vec<LogItem>)
    requires
        stamps_valid(records.deep_view()),
    ensures
        sorted_desc(r.deep_view()),
        stamps_valid(r.deep_view()),
        r.deep_view().to_multiset() == records.deep_view().to_multiset(),
        r.deep_view().len() == records.deep_view().len(),
{
    broadcast use vstd::seq_lib::group_to_multiset_ensures, vstd::seq_lib::to_multiset_insert;

    let ghost dv = records.deep_view();
    let mut r: Vec<LogItem> = Vec::new();
    let mut i: usize = 0;
    proof {
        assert(r.deep_view() =~= Seq::<LogItemView>::empty());
        assert(dv.take(0) =~= Seq::<LogItemView>::empty());
        assert(Seq::<LogItemView>::empty().to_multiset() =~= r.deep_view().to_multiset());
    }
    while i < records.len()
        invariant
            i <= records.len(),
            dv == records.deep_view(),
            dv.len() == records.len(),
            stamps_valid(dv),
            sorted_desc(r.deep_view()),
            stamps_valid(r.deep_view()),
            r.deep_view().len() == i,
            r.deep_view().to_multiset() == dv.take(i as int).to_multiset(),
        decreases records.len() - i,
    {
        broadcast use vstd::seq_lib::group_to_multiset_ensures, vstd::seq_lib::to_multiset_insert;

        let x = records[i].clone();
        proof {
            assert(x@ == dv[i as int]);
            assert(stamp_valid(dv[i as int].stamp));
        }
        let key = instant_seconds(&x.stamp);
        let mut j: usize = 0;
        while j < r.len()
            invariant
                j <= r.len(),
                stamps_valid(r.deep_view()),
                r.deep_view().len() == r.len(),
                key as int == spec_instant(x@.stamp),
                forall|k: int|
                    0 <= k < j ==> spec_instant((#[trigger] r.deep_view()[k]).stamp)
                        >= key as int,
            ensures
                j <= r.len(),
                forall|k: int|
                    0 <= k < j ==> spec_instant((#[trigger] r.deep_view()[k]).stamp)
                        >= key as int,
                j == r.len() || spec_instant(r.deep_view()[j as int].stamp) < key as int,
            decreases r.len() - j,
        {
            proof {
                assert(stamp_valid(r.deep_view()[j as int].stamp));
                assert(r.deep_view()[j as int] == r@[j as int]@);
            }
            let kj = instant_seconds(&r[j].stamp);
            if kj < key {
                break;
            }
            j = j + 1;
        }
        let ghost prev = r.deep_view();
        let ghost xv = x@;
        r.insert(j, x);
        proof {
            assert(r.deep_view() =~= prev.insert(j as int, xv));
            prev.insert_ensures(j as int, xv);
            assert(sorted_desc(r.deep_view())) by {
                let t = r.deep_view();
                assert forall|a: int, b: int|
                    0 <= a < b < t.len() implies spec_instant((t[a]).stamp) >= spec_instant(
                    (t[b]).stamp,
                ) by {
                    if a < j && b < j {
                    } else if a < j && b == j {
                    } else if a < j && b > j {
                        assert(t[b] == prev[b - 1]);
                    } else if a == j {
                        assert(t[b] == prev[b - 1]);
                        if b - 1 > j - 1 && j as int <= b - 1 {
                            assert(spec_instant(prev[b - 1].stamp) <= key as int);
                        }
                    } else {
                        assert(t[a] == prev[a - 1] && t[b] == prev[b - 1]);
                    }
                }
            }
            assert(dv.take(i + 1).drop_last() =~= dv.take(i as int));
            assert(dv.take(i + 1) =~= dv.take(i as int).push(dv[i as int]));
            assert(r.deep_view().to_multiset() =~= dv.take(i + 1).to_multiset());
        }
        i = i + 1;
    }
    proof {
        assert(dv.take(dv.len() as int) =~= dv);
    }
    r
}

/// The records of one calendar day, in order.
pub open spec fn day_bucket(recs: Seq<LogItemView>, dn: int) -> Seq<LogItemView>
    decreases recs.len(),
{
    if recs.len() == 0 {
        Seq::empty()
    } else {
        let head = recs[0];
        let rest = day_bucket(recs.drop_first(), dn);
        if spec_day_number(
            head.stamp.date.year as int,
            head.stamp.date.month as int,
            head.stamp.date.day as int,
        ) == dn {
            seq![head] + rest
        } else {
            rest
        }
    }
}

/// Keeps the records of one calendar day, in order.
pub fn bucket_day(records: &Vec<LogItem>, dn: i64) -> (r: Vec<LogItem>)
    requires
        stamps_valid(records.deep_view()),
    ensures
        r.deep_view() == day_bucket(records.deep_view(), dn as int),
{
    let ghost dv = records.deep_view();
    let mut r: Vec<LogItem> = Vec::new();
    let mut i: usize = 0;
    proof {
        assert(r.deep_view() =~= Seq::<LogItemView>::empty());
        assert(dv.skip(0) =~= dv);
    }
    while i < records.len()
        invariant
            i <= records.len(),
            dv == records.deep_view(),
            dv.len() == records.len(),
            stamps_valid(dv),
            r.deep_view() + day_bucket(dv.skip(i as int), dn as int) =~= day_bucket(dv, dn as int),
        decreases records.len() - i,
    {
        proof {
            assert(dv.skip(i as int)[0] == dv[i as int]);
            assert(dv.skip(i as int).drop_first() =~= dv.skip(i + 1));
        }
        let d = day_number(&records[i].stamp.date);
        if d == dn {
            let ghost prev = r.deep_view();
            let x = records[i].clone();
            let ghost xv = x@;
            r.push(x);
            proof {
                assert(r.deep_view() =~= prev.push(xv));
                assert(prev.push(xv) + day_bucket(dv.skip(i + 1), dn as int) =~= prev + (seq![xv]
                    + day_bucket(dv.skip(i + 1), dn as int)));
            }
        }
        i = i + 1;
    }
    proof {
        assert(day_bucket(dv.skip(dv.len() as int), dn as int) =~= Seq::<LogItemView>::empty());
        assert(r.deep_view() =~= day_bucket(dv, dn as int));
    }
    r
}


/// Every record a parse produces carries a well-formed timestamp.
pub proof fn lemma_parse_records_valid(lines: Seq<Seq<char>>)
    ensures
        stamps_valid(parse_records(lines)),
    decreases lines.len(),
{
    if lines.len() > 0 {
        lemma_parse_records_valid(lines.drop_first());
        let rest = parse_records(lines.drop_first());
        match spec_parse_line(lines[0]) {
            Some(rec) => {
                assert(stamp_valid(rec.stamp));
                let whole = seq![rec] + rest;
                assert forall|i: int| 0 <= i < whole.len() implies stamp_valid(
                    (#[trigger] whole[i]).stamp,
                ) by {
                    if i > 0 {
                        assert(whole[i] == rest[i - 1]);
                    }
                }
            },
            None => {
            },
        }
    }
}

/// Substitution touches only messages, so it keeps every timestamp.
pub proof fn lemma_substitute_valid(recs: Seq<LogItemView>, id_map: Map<Seq<char>, ItemView>)
    requires
        stamps_valid(recs),
    ensures
        stamps_valid(spec_substitute(recs, id_map)),
{
    let out = spec_substitute(recs, id_map);
    assert forall|i: int| 0 <= i < out.len() implies stamp_valid((#[trigger] out[i]).stamp) by {
        assert(out[i].stamp == recs[i].stamp);
    }
}

/// Reconstructs the activity view of a raw log blob against a given
/// current date: the parsed records with their id tokens rewritten
/// through the index, sorted most recent first, and partitioned into the
/// given day and the day before it; anything older (or newer) is
/// discarded.
pub fn reconstruct_logs(raw: &str, inv: &Inventory, today: Date) -> (r: (
    Vec<LogItem>,
    Vec<LogItem>,
))
    requires
        inv.wf(),
        crate::date::date_valid(today),
    ensures
        ({
            let recs = spec_substitute(spec_parse_log(raw@), inv.id_map());
            let dn = spec_day_number(today.year as int, today.month as int, today.day as int);
            &&& sorted_desc(r.0.deep_view())
            &&& sorted_desc(r.1.deep_view())
            &&& r.0.deep_view().to_multiset() == day_bucket(recs, dn).to_multiset()
            &&& r.1.deep_view().to_multiset() == day_bucket(recs, dn - 1).to_multiset()
        }),
{
    broadcast use vstd::seq_lib::group_to_multiset_ensures;

    let parsed = parse_log(raw);
    proof {
        lemma_parse_records_valid(split_lines(raw@));
        lemma_substitute_valid(parsed.deep_view(), inv.id_map());
    }
    let subst = substitute_records(parsed, inv);
    let dn = day_number(&today);
    let today_bucket = bucket_day(&subst, dn);
    let yesterday_bucket = bucket_day(&subst, dn - 1);
    proof {
        lemma_day_bucket_valid(subst.deep_view(), dn as int);
        lemma_day_bucket_valid(subst.deep_view(), dn - 1);
    }
    let today_sorted = sort_records_desc(today_bucket);
    let yesterday_sorted = sort_records_desc(yesterday_bucket);
    (today_sorted, yesterday_sorted)
}

/// A day's bucket keeps only records of the whole, so their timestamps
/// stay well-formed.
proof fn lemma_day_bucket_valid(recs: Seq<LogItemView>, dn: int)
    requires
        stamps_valid(recs),
    ensures
        stamps_valid(day_bucket(recs, dn)),
    decreases recs.len(),
{
    if recs.len() > 0 {
        assert forall|i: int| 0 <= i < recs.drop_first().len() implies stamp_valid(
            (#[trigger] recs.drop_first()[i]).stamp,
        ) by {
            assert(recs.drop_first()[i] == recs[i + 1]);
        }
        lemma_day_bucket_valid(recs.drop_first(), dn);
        let rest = day_bucket(recs.drop_first(), dn);
        if spec_day_number(
            recs[0].stamp.date.year as int,
            recs[0].stamp.date.month as int,
            recs[0].stamp.date.day as int,
        ) == dn {
            let whole = seq![recs[0]] + rest;
            assert forall|i: int| 0 <= i < whole.len() implies stamp_valid(
                (#[trigger] whole[i]).stamp,
            ) by {
                if i > 0 {
                    assert(whole[i] == rest[i - 1]);
                }
            }
        }
    }
}

/// Loads the activity view for the local calendar date now: the current
/// day's records and the previous day's, each sorted most recent first.
pub fn load_logs(raw: &str, inv: &Inventory) -> (r: (Date, Vec<LogItem>, Vec<LogItem>))
    requires
        inv.wf(),
    ensures
        crate::date::date_valid(r.0),
        ({
            let recs = spec_substitute(spec_parse_log(raw@), inv.id_map());
            let dn = spec_day_number(r.0.year as int, r.0.month as int, r.0.day as int);
            &&& sorted_desc(r.1.deep_view())
            &&& sorted_desc(r.2.deep_view())
            &&& r.1.deep_view().to_multiset() == day_bucket(recs, dn).to_multiset()
            &&& r.2.deep_view().to_multiset() == day_bucket(recs, dn - 1).to_multiset()
        }),
{
    let today = crate::date::local_today();
    let (current, yesterday) = reconstruct_logs(raw, inv, today);
    (today, current, yesterday)
}

} // verus!
