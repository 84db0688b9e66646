//! Display/Parse ("stringified") codec family for unsigned integers: the
//! typed value is a `u64`, the wire value its canonical decimal string,
//! with list and typed-key map variants.

use vstd::prelude::*;
use crate::decimal::{
    digit_val_u8, format_u64, is_dec_string, is_digit, parse_u64, spec_dec_val, spec_digits,
    lemma_digits_value,
};

verus! {

/// Why a wire string was rejected by a stringified codec.
#[derive(Debug, PartialEq, Eq)]
pub struct ParseError {
    /// The offending wire string, kept whole.
    pub input: String,
    /// A human-readable reason.
    pub reason: String,
}

/// A wire string the integer parser accepts, with a value that fits.
pub open spec fn u64_parse_ok(s: Seq<char>) -> bool {
    is_dec_string(s) && spec_dec_val(s) <= u64::MAX
}

/// The exact shape of the error the integer parser returns for an input.
pub open spec fn parse_err_matches(e: ParseError, s: Seq<char>) -> bool {
    &&& e.input@ == s
    &&& if !is_dec_string(s) {
        e.reason@ == "not a decimal number"@
    } else {
        e.reason@ == "number does not fit in 64 bits"@
    }
}

fn is_dec_str_exec(s: &str) -> (r: bool)
    ensures
        r == is_dec_string(s@),
{
    let n = s.unicode_len();
    if n == 0 {
        return false;
    }
    let mut i: usize = 0;
    while i < n
        invariant
            n == s@.len(),
            0 < n,
            i <= n,
            forall|j: int| 0 <= j < i ==> is_digit(#[trigger] s@[j]),
        decreases n - i,
    {
        if digit_val_u8(s.get_char(i)) >= 10 {
            return false;
        }
        i = i + 1;
    }
    true
}

/// `write` direction of the scalar codec: the canonical decimal rendering.
pub fn write_u64(v: u64) -> (r: String)
    ensures
        r@ == spec_digits(v as nat),
{
    format_u64(v)
}

/// `read` direction of the scalar codec. Succeeds exactly on nonempty
/// all-digit strings whose value fits in a `u64`.
pub fn read_u64(s: &str) -> (r: Result<u64, ParseError>)
    ensures
        r is Ok <==> u64_parse_ok(s@),
        r matches Ok(v) ==> v == spec_dec_val(s@),
        r matches Err(e) ==> parse_err_matches(e, s@),
{
    match parse_u64(s) {
        Some(v) => Ok(v),
        None => {
            let reason = if !is_dec_str_exec(s) {
                "not a decimal number"
            } else {
                "number does not fit in 64 bits"
            };
            Err(ParseError { input: s.to_owned(), reason: reason.to_owned() })
        },
    }
}

/// Round trip of the scalar codec: reading back a written value succeeds
/// and recovers the value.
pub proof fn lemma_u64_round_trip(v: u64)
    ensures
        u64_parse_ok(spec_digits(v as nat)),
        spec_dec_val(spec_digits(v as nat)) == v,
{
    lemma_digits_value(v as nat);
}

/// `write` direction of the list variant: each element through the scalar
/// codec, order preserved.
pub fn write_u64_list(data: &Vec<u64>) -> (r: Vec<String>)
    ensures
        r@.len() == data@.len(),
        forall|i: int| 0 <= i < data@.len() ==> (#[trigger] r@[i])@ == spec_digits(data@[i] as nat),
{
    let mut out: Vec<String> = Vec::new();
    let mut i: usize = 0;
    while i < data.len()
        invariant
            i <= data.len(),
            out@.len() == i,
            forall|j: int| 0 <= j < i ==> (#[trigger] out@[j])@ == spec_digits(data@[j] as nat),
        decreases data.len() - i,
    {
        out.push(write_u64(data[i]));
        i = i + 1;
    }
    out
}

/// `read` direction of the list variant: each element through the scalar
/// codec, order preserved; the first bad element fails the whole read.
pub fn read_u64_list(wire: &Vec<String>) -> (r: Result<Vec<u64>, ParseError>)
    ensures
        r is Ok <==> (forall|i: int| 0 <= i < wire@.len() ==> u64_parse_ok((#[trigger] wire@[i])@)),
        r matches Ok(out) ==> {
            &&& out@.len() == wire@.len()
            &&& forall|i: int|
                0 <= i < wire@.len() ==> #[trigger] out@[i] == spec_dec_val(wire@[i]@)
        },
        r matches Err(e) ==> exists|i: int|
            {
                &&& 0 <= i < wire@.len()
                &&& !u64_parse_ok((#[trigger] wire@[i])@)
                &&& (forall|j: int| 0 <= j < i ==> u64_parse_ok((#[trigger] wire@[j])@))
                &&& parse_err_matches(e, wire@[i]@)
            },
{
    let mut out: Vec<u64> = Vec::new();
    let mut i: usize = 0;
    while i < wire.len()
        invariant
            i <= wire.len(),
            out@.len() == i,
            forall|j: int| 0 <= j < i ==> u64_parse_ok((#[trigger] wire@[j])@),
            forall|j: int| 0 <= j < i ==> #[trigger] out@[j] == spec_dec_val(wire@[j]@),
        decreases wire.len() - i,
    {
        match read_u64(wire[i].as_str()) {
            Ok(v) => out.push(v),
            Err(e) => {
                return Err(e);
            },
        }
        i = i + 1;
    }
    Ok(out)
}

/// Round trip of the list variant: reading back a written list succeeds and
/// recovers every element in order.
pub proof fn lemma_u64_list_round_trip(typed: Seq<u64>, wire: Seq<String>)
    requires
        wire.len() == typed.len(),
        forall|i: int| 0 <= i < typed.len() ==> (#[trigger] wire[i])@ == spec_digits(typed[i] as nat),
    ensures
        forall|i: int| 0 <= i < wire.len() ==> u64_parse_ok((#[trigger] wire[i])@),
        forall|i: int| 0 <= i < wire.len() ==> spec_dec_val((#[trigger] wire[i])@) == typed[i],
{
    assert forall|i: int| 0 <= i < wire.len() implies u64_parse_ok((#[trigger] wire[i])@)
        && spec_dec_val(wire[i]@) == typed[i] by {
        lemma_digits_value(typed[i] as nat);
    }
}

/// Why a wire mapping was rejected by the typed-key map codec.
#[derive(Debug, PartialEq, Eq)]
pub enum MapKeyError {
    /// A wire key failed to parse as an integer.
    BadKey(ParseError),
    /// Two distinct wire keys parse to the same typed key; carries the
    /// second offending wire key and the typed key both parse to.
    KeyCollision { input: String, key: u64 },
}

/// Every wire key of the mapping parses as an integer.
pub open spec fn map_keys_ok<V>(pairs: Seq<(String, V)>) -> bool {
    forall|i: int| 0 <= i < pairs.len() ==> u64_parse_ok((#[trigger] pairs[i]).0@)
}

/// No two wire keys of the mapping parse to the same typed key.
pub open spec fn map_keys_distinct<V>(pairs: Seq<(String, V)>) -> bool {
    forall|i: int, j: int|
        #![trigger spec_dec_val(pairs[i].0@), spec_dec_val(pairs[j].0@)]
        0 <= i < j < pairs.len() ==> spec_dec_val(pairs[i].0@) != spec_dec_val(pairs[j].0@)
}

/// `read` direction of the typed-key map variant: every string key is parsed
/// as an integer, values pass through untouched and keep their wire order.
/// A key that fails to parse, or two wire keys that parse to the same typed
/// key, reject the whole mapping (collisions are rejected, not resolved).
#[verifier::loop_isolation(false)]
pub fn read_u64_key_map<V>(pairs: Vec<(String, V)>) -> (r: Result<Vec<(u64, V)>, MapKeyError>)
    ensures
        r is Ok <==> (map_keys_ok(pairs@) && map_keys_distinct(pairs@)),
        r matches Ok(out) ==> {
            &&& out@.len() == pairs@.len()
            &&& forall|i: int|
                0 <= i < pairs@.len() ==> (#[trigger] out@[i]).0 == spec_dec_val(pairs@[i].0@)
                    && out@[i].1 == pairs@[i].1
        },
        r matches Err(MapKeyError::BadKey(e)) ==> exists|i: int|
            {
                &&& 0 <= i < pairs@.len()
                &&& !u64_parse_ok((#[trigger] pairs@[i]).0@)
                &&& (forall|j: int| 0 <= j < i ==> u64_parse_ok((#[trigger] pairs@[j]).0@))
                &&& parse_err_matches(e, pairs@[i].0@)
            },
        r matches Err(MapKeyError::KeyCollision { input, key }) ==> exists|j: int|
            {
                &&& 0 <= j < pairs@.len()
                &&& input@ == (#[trigger] pairs@[j]).0@
                &&& key == spec_dec_val(pairs@[j].0@)
                &&& (forall|t: int| 0 <= t <= j ==> u64_parse_ok((#[trigger] pairs@[t]).0@))
                &&& (exists|i: int|
                    0 <= i < j && spec_dec_val((#[trigger] pairs@[i]).0@) == key)
            },
{
    let ghost orig = pairs@;
    let mut rest = pairs;
    let mut out: Vec<(u64, V)> = Vec::new();
    while rest.len() > 0
        invariant
            out@.len() + rest@.len() == orig.len(),
            rest@ == orig.skip(out@.len() as int),
            forall|j: int|
                0 <= j < out@.len() ==> u64_parse_ok((#[trigger] orig[j]).0@)
                    && out@[j].0 == spec_dec_val(orig[j].0@) && out@[j].1 == orig[j].1,
            forall|a: int, b: int|
                #![trigger out@[a].0, out@[b].0]
                0 <= a < b < out@.len() ==> out@[a].0 != out@[b].0,
        decreases rest@.len(),
    {
        let ghost idx = out@.len() as int;
        proof {
            assert(rest@[0] == orig[idx]);
        }
        let pair = rest.remove(0);
        let k_str = pair.0;
        let v = pair.1;
        let k = match read_u64(k_str.as_str()) {
            Ok(k) => k,
            Err(e) => {
                proof {
                    assert(!u64_parse_ok((orig[idx]).0@));
                    assert(!map_keys_ok(orig));
                    assert(parse_err_matches(e, orig[idx].0@));
                }
                return Err(MapKeyError::BadKey(e));
            },
        };
        let mut x: usize = 0;
        while x < out.len()
            invariant
                x <= out@.len(),
                forall|a: int| 0 <= a < x ==> (#[trigger] out@[a]).0 != k,
                forall|j: int|
                    0 <= j < out@.len() ==> u64_parse_ok((#[trigger] orig[j]).0@)
                        && out@[j].0 == spec_dec_val(orig[j].0@) && out@[j].1 == orig[j].1,
                out@.len() == idx,
                idx < orig.len(),
                k == spec_dec_val(orig[idx].0@),
                u64_parse_ok(orig[idx].0@),
                k_str == orig[idx].0,
            decreases out@.len() - x,
        {
            if out[x].0 == k {
                proof {
                    assert(spec_dec_val(orig[x as int].0@) == k);
                    assert(spec_dec_val(orig[idx].0@) == k);
                    assert(!map_keys_distinct(orig));
                }
                return Err(MapKeyError::KeyCollision { input: k_str, key: k });
            }
            x = x + 1;
        }
        out.push((k, v));
    }
    proof {
        assert(out@.len() == orig.len());
    }
    Ok(out)
}

/// `write` direction of the typed-key map variant: each typed key becomes
/// its canonical decimal string, values pass through untouched.
#[verifier::loop_isolation(false)]
pub fn write_u64_key_map<V>(pairs: Vec<(u64, V)>) -> (r: Vec<(String, V)>)
    ensures
        r@.len() == pairs@.len(),
        forall|i: int|
            0 <= i < pairs@.len() ==> (#[trigger] r@[i]).0@ == spec_digits(pairs@[i].0 as nat)
                && r@[i].1 == pairs@[i].1,
{
    let ghost orig = pairs@;
    let mut rest = pairs;
    let mut out: Vec<(String, V)> = Vec::new();
    while rest.len() > 0
        invariant
            out@.len() + rest@.len() == orig.len(),
            rest@ == orig.skip(out@.len() as int),
            forall|j: int|
                0 <= j < out@.len() ==> (#[trigger] out@[j]).0@ == spec_digits(orig[j].0 as nat)
                    && out@[j].1 == orig[j].1,
        decreases rest@.len(),
    {
        proof {
            assert(rest@[0] == orig[out@.len() as int]);
        }
        let pair = rest.remove(0);
        let s = write_u64(pair.0);
        out.push((s, pair.1));
    }
    out
}

/// Round trip of the typed-key map variant: a written mapping has keys that
/// all parse back, no collisions, and reading recovers every typed key and
/// value in order.
pub proof fn lemma_u64_key_map_round_trip<V>(typed: Seq<(u64, V)>, wire: Seq<(String, V)>)
    requires
        wire.len() == typed.len(),
        forall|i: int|
            0 <= i < typed.len() ==> (#[trigger] wire[i]).0@ == spec_digits(typed[i].0 as nat)
                && wire[i].1 == typed[i].1,
        forall|i: int, j: int|
            #![trigger typed[i].0, typed[j].0]
            0 <= i < j < typed.len() ==> typed[i].0 != typed[j].0,
    ensures
        map_keys_ok(wire),
        map_keys_distinct(wire),
        forall|i: int|
            0 <= i < wire.len() ==> spec_dec_val((#[trigger] wire[i]).0@) == typed[i].0
                && wire[i].1 == typed[i].1,
{
    assert forall|i: int| 0 <= i < wire.len() implies u64_parse_ok((#[trigger] wire[i]).0@)
        && spec_dec_val(wire[i].0@) == typed[i].0 by {
        lemma_digits_value(typed[i].0 as nat);
    }
}

} // verus!
