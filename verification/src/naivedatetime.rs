//! Timestamp codec: a naive calendar timestamp (no timezone, no sub-second
//! precision) against the fixed wire pattern `YYYY-MM-DD HH:MM:SS`,
//! zero-padded, 24-hour clock, parsed strictly.

use vstd::prelude::*;
use crate::decimal::{digit_char_of, digit_val, digit_val_u8, digit_str, is_digit};
use crate::stringified::ParseError;

verus! {

/// A naive calendar timestamp, held as plain fields.
#[derive(Clone, Copy, Debug, PartialEq, Eq, Structural)]
pub struct Timestamp {
    pub year: u16,
    pub month: u8,
    pub day: u8,
    pub hour: u8,
    pub minute: u8,
    pub second: u8,
}

pub open spec fn is_leap_year(y: int) -> bool {
    (y % 4 == 0 && y % 100 != 0) || y % 400 == 0
}

pub open spec fn days_in_month(y: int, m: int) -> int {
    if m == 2 {
        if is_leap_year(y) {
            29
        } else {
            28
        }
    } else if m == 4 || m == 6 || m == 9 || m == 11 {
        30
    } else {
        31
    }
}

/// A timestamp the codec can represent on the wire: a real calendar date
/// with in-range time fields and a four-digit year.
pub open spec fn ts_valid(t: Timestamp) -> bool {
    &&& t.year <= 9999
    &&& 1 <= t.month <= 12
    &&& 1 <= t.day <= days_in_month(t.year as int, t.month as int)
    &&& t.hour <= 23
    &&& t.minute <= 59
    &&& t.second <= 59
}

/// The wire form of a timestamp: exactly `YYYY-MM-DD HH:MM:SS`.
pub open spec fn spec_format(t: Timestamp) -> Seq<char> {
    seq![
        digit_char_of(t.year as int / 1000),
        digit_char_of((t.year as int / 100) % 10),
        digit_char_of((t.year as int / 10) % 10),
        digit_char_of(t.year as int % 10),
        '-',
        digit_char_of(t.month as int / 10),
        digit_char_of(t.month as int % 10),
        '-',
        digit_char_of(t.day as int / 10),
        digit_char_of(t.day as int % 10),
        ' ',
        digit_char_of(t.hour as int / 10),
        digit_char_of(t.hour as int % 10),
        ':',
        digit_char_of(t.minute as int / 10),
        digit_char_of(t.minute as int % 10),
        ':',
        digit_char_of(t.second as int / 10),
        digit_char_of(t.second as int % 10),
    ]
}

/// The string has the shape of the pattern: digits and the fixed
/// separators in their exact places, nothing more.
pub open spec fn matches_pattern(s: Seq<char>) -> bool {
    &&& s.len() == 19
    &&& is_digit(s[0]) && is_digit(s[1]) && is_digit(s[2]) && is_digit(s[3])
    &&& s[4] == '-'
    &&& is_digit(s[5]) && is_digit(s[6])
    &&& s[7] == '-'
    &&& is_digit(s[8]) && is_digit(s[9])
    &&& s[10] == ' '
    &&& is_digit(s[11]) && is_digit(s[12])
    &&& s[13] == ':'
    &&& is_digit(s[14]) && is_digit(s[15])
    &&& s[16] == ':'
    &&& is_digit(s[17]) && is_digit(s[18])
}

pub open spec fn two_digit_val(s: Seq<char>, i: int) -> int {
    digit_val(s[i]) * 10 + digit_val(s[i + 1])
}

/// The fields read off a string of the right shape.
pub open spec fn spec_parse_fields(s: Seq<char>) -> Timestamp {
    Timestamp {
        year: (digit_val(s[0]) * 1000 + digit_val(s[1]) * 100 + digit_val(s[2]) * 10 + digit_val(
            s[3],
        )) as u16,
        month: two_digit_val(s, 5) as u8,
        day: two_digit_val(s, 8) as u8,
        hour: two_digit_val(s, 11) as u8,
        minute: two_digit_val(s, 14) as u8,
        second: two_digit_val(s, 17) as u8,
    }
}

/// A wire string the timestamp codec accepts.
pub open spec fn spec_parse_ok(s: Seq<char>) -> bool {
    matches_pattern(s) && ts_valid(spec_parse_fields(s))
}

fn push_two_digits(out: &mut String, v: u8)
    requires
        v < 100,
    ensures
        final(out)@ == old(out)@ + seq![
            digit_char_of(v as int / 10),
            digit_char_of(v as int % 10),
        ],
{
    out.append(digit_str(v / 10));
    out.append(digit_str(v % 10));
    proof {
        assert(final(out)@ =~= old(out)@ + seq![
            digit_char_of(v as int / 10),
            digit_char_of(v as int % 10),
        ]);
    }
}

/// `write` direction: formats exactly to `YYYY-MM-DD HH:MM:SS`.
pub fn write_timestamp(t: &Timestamp) -> (r: String)
    requires
        ts_valid(*t),
    ensures
        r@ == spec_format(*t),
{
    proof {
        reveal_strlit("-");
        reveal_strlit(" ");
        reveal_strlit(":");
    }
    let mut out = String::new();
    out.append(digit_str((t.year / 1000) as u8));
    out.append(digit_str(((t.year / 100) % 10) as u8));
    out.append(digit_str(((t.year / 10) % 10) as u8));
    out.append(digit_str((t.year % 10) as u8));
    out.append("-");
    push_two_digits(&mut out, t.month);
    out.append("-");
    push_two_digits(&mut out, t.day);
    out.append(" ");
    push_two_digits(&mut out, t.hour);
    out.append(":");
    push_two_digits(&mut out, t.minute);
    out.append(":");
    push_two_digits(&mut out, t.second);
    proof {
        assert(out@ =~= spec_format(*t));
    }
    out
}

fn days_in_month_exec(y: u16, m: u8) -> (r: u8)
    ensures
        r as int == days_in_month(y as int, m as int),
{
    if m == 2 {
        if (y % 4 == 0 && y % 100 != 0) || y % 400 == 0 {
            29
        } else {
            28
        }
    } else if m == 4 || m == 6 || m == 9 || m == 11 {
        30
    } else {
        31
    }
}

/// `read` direction: parses strictly against `YYYY-MM-DD HH:MM:SS` and
/// rejects any deviation of shape or any out-of-range field.
pub fn read_timestamp(s: &str) -> (r: Result<Timestamp, ParseError>)
    ensures
        r is Ok <==> spec_parse_ok(s@),
        r matches Ok(t) ==> t == spec_parse_fields(s@) && ts_valid(t),
        r matches Err(e) ==> {
            &&& e.input@ == s@
            &&& if !matches_pattern(s@) {
                e.reason@ == "does not match the pattern YYYY-MM-DD HH:MM:SS"@
            } else {
                e.reason@ == "timestamp field out of range"@
            }
        },
{
    match parse_pattern(s) {
        None => Err(
            ParseError {
                input: s.to_owned(),
                reason: "does not match the pattern YYYY-MM-DD HH:MM:SS".to_owned(),
            },
        ),
        Some(t) => {
            if t.month < 1 || t.month > 12 || t.day < 1 || t.day > days_in_month_exec(
                t.year,
                t.month,
            ) || t.hour > 23 || t.minute > 59 || t.second > 59 {
                Err(
                    ParseError {
                        input: s.to_owned(),
                        reason: "timestamp field out of range".to_owned(),
                    },
                )
            } else {
                Ok(t)
            }
        },
    }
}

fn sep_ok(s: &str, i: usize, c: char) -> (r: bool)
    requires
        i < s@.len(),
    ensures
        r == (s@[i as int] == c),
{
    s.get_char(i) == c
}

fn parse_pattern(s: &str) -> (r: Option<Timestamp>)
    ensures
        r is Some <==> matches_pattern(s@),
        r matches Some(t) ==> t == spec_parse_fields(s@),
{
    if s.unicode_len() != 19 {
        return None;
    }
    if !sep_ok(s, 4, '-') || !sep_ok(s, 7, '-') || !sep_ok(s, 10, ' ') || !sep_ok(s, 13, ':')
        || !sep_ok(s, 16, ':') {
        return None;
    }
    let y0 = digit_val_u8(s.get_char(0));
    let y1 = digit_val_u8(s.get_char(1));
    let y2 = digit_val_u8(s.get_char(2));
    let y3 = digit_val_u8(s.get_char(3));
    if y0 >= 10 || y1 >= 10 || y2 >= 10 || y3 >= 10 {
        return None;
    }
    let mo = match two_digits(s, 5) {
        Some(v) => v,
        None => {
            return None;
        },
    };
    let d = match two_digits(s, 8) {
        Some(v) => v,
        None => {
            return None;
        },
    };
    let h = match two_digits(s, 11) {
        Some(v) => v,
        None => {
            return None;
        },
    };
    let mi = match two_digits(s, 14) {
        Some(v) => v,
        None => {
            return None;
        },
    };
    let se = match two_digits(s, 17) {
        Some(v) => v,
        None => {
            return None;
        },
    };
    let year: u16 = y0 as u16 * 1000 + y1 as u16 * 100 + y2 as u16 * 10 + y3 as u16;
    Some(Timestamp { year, month: mo, day: d, hour: h, minute: mi, second: se })
}

fn two_digits(s: &str, i: usize) -> (r: Option<u8>)
    requires
        i + 1 < s@.len(),
        s@.len() <= usize::MAX,
    ensures
        r is Some <==> (is_digit(s@[i as int]) && is_digit(s@[i as int + 1])),
        r matches Some(v) ==> v as int == two_digit_val(s@, i as int),
{
    let hi = digit_val_u8(s.get_char(i));
    let lo = digit_val_u8(s.get_char(i + 1));
    if hi >= 10 || lo >= 10 {
        return None;
    }
    Some(hi * 10 + lo)
}

/// Round trip: a valid timestamp's wire form parses back to the identical
/// timestamp, and always satisfies the parser.
pub proof fn lemma_timestamp_round_trip(t: Timestamp)
    requires
        ts_valid(t),
    ensures
        spec_parse_ok(spec_format(t)),
        spec_parse_fields(spec_format(t)) == t,
{
    let s = spec_format(t);
    let y = t.year as int;
    assert(digit_val(digit_char_of(y / 1000)) == y / 1000);
    assert(digit_val(digit_char_of((y / 100) % 10)) == (y / 100) % 10);
    assert(digit_val(digit_char_of((y / 10) % 10)) == (y / 10) % 10);
    assert(digit_val(digit_char_of(y % 10)) == y % 10);
    assert((y / 1000) * 1000 + ((y / 100) % 10) * 100 + ((y / 10) % 10) * 10 + y % 10 == y)
        by (nonlinear_arith)
        requires
            0 <= y < 10000,
    ;
    lemma_two_digit_round(s, 5, t.month as int);
    lemma_two_digit_round(s, 8, t.day as int);
    lemma_two_digit_round(s, 11, t.hour as int);
    lemma_two_digit_round(s, 14, t.minute as int);
    lemma_two_digit_round(s, 17, t.second as int);
}

proof fn lemma_two_digit_round(s: Seq<char>, i: int, v: int)
    requires
        0 <= v < 100,
        0 <= i,
        i + 1 < s.len(),
        s[i] == digit_char_of(v / 10),
        s[i + 1] == digit_char_of(v % 10),
    ensures
        is_digit(s[i]),
        is_digit(s[i + 1]),
        two_digit_val(s, i) == v,
{
    assert(digit_val(digit_char_of(v / 10)) == v / 10);
    assert(digit_val(digit_char_of(v % 10)) == v % 10);
    assert((v / 10) * 10 + v % 10 == v) by (nonlinear_arith)
        requires
            0 <= v < 100,
    ;
}

} // verus!
