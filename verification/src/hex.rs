//! Byte-array hex codec: binary data on the typed side, a lowercase hex
//! string on the wire side, with optional-presence and list variants.

use vstd::prelude::*;

verus! {

/// Why a wire string was rejected by the hex codec.
#[derive(Debug, PartialEq, Eq)]
pub enum DecodeError {
    /// The wire string has an odd number of characters.
    OddLength { input: String },
    /// The character at `index` (the first offending one) is not a hex digit.
    InvalidChar { input: String, index: usize },
}

/// The lowercase hex digit for a nibble value.
pub open spec fn hex_char_of(v: int) -> char {
    if v == 0 {
        '0'
    } else if v == 1 {
        '1'
    } else if v == 2 {
        '2'
    } else if v == 3 {
        '3'
    } else if v == 4 {
        '4'
    } else if v == 5 {
        '5'
    } else if v == 6 {
        '6'
    } else if v == 7 {
        '7'
    } else if v == 8 {
        '8'
    } else if v == 9 {
        '9'
    } else if v == 10 {
        'a'
    } else if v == 11 {
        'b'
    } else if v == 12 {
        'c'
    } else if v == 13 {
        'd'
    } else if v == 14 {
        'e'
    } else {
        'f'
    }
}

/// Numeric value of a hex digit character; 16 for anything else.
pub open spec fn hex_val(c: char) -> int {
    if '0' as u32 <= c as u32 && c as u32 <= '9' as u32 {
        c as u32 - '0' as u32
    } else if 'a' as u32 <= c as u32 && c as u32 <= 'f' as u32 {
        c as u32 - 'a' as u32 + 10
    } else if 'A' as u32 <= c as u32 && c as u32 <= 'F' as u32 {
        c as u32 - 'A' as u32 + 10
    } else {
        16
    }
}

pub open spec fn is_hex_digit(c: char) -> bool {
    hex_val(c) < 16
}

/// The wire form of a byte sequence: two lowercase hex digits per byte,
/// high nibble first.
pub open spec fn spec_encode(b: Seq<u8>) -> Seq<char> {
    Seq::new(
        b.len() * 2,
        |i: int|
            if i % 2 == 0 {
                hex_char_of(b[i / 2] as int / 16)
            } else {
                hex_char_of(b[i / 2] as int % 16)
            },
    )
}

/// The byte sequence read back from a hex string (meaningful on valid input).
pub open spec fn spec_decode(s: Seq<char>) -> Seq<u8> {
    Seq::new(s.len() / 2, |i: int| (hex_val(s[2 * i]) * 16 + hex_val(s[2 * i + 1])) as u8)
}

/// A wire string the codec accepts: even length, hex digits throughout.
pub open spec fn valid_hex(s: Seq<char>) -> bool {
    s.len() % 2 == 0 && (forall|i: int| 0 <= i < s.len() ==> is_hex_digit(#[trigger] s[i]))
}

/// Each hex digit replaced by its lowercase form.
pub open spec fn lower_hex(s: Seq<char>) -> Seq<char> {
    Seq::new(s.len(), |i: int| hex_char_of(hex_val(s[i])))
}

/// The exact shape of the error `decode` returns for a given input.
pub open spec fn decode_err_matches(e: DecodeError, s: Seq<char>) -> bool {
    match e {
        DecodeError::OddLength { input } => input@ == s && s.len() % 2 != 0,
        DecodeError::InvalidChar { input, index } => input@ == s && s.len() % 2 == 0
            && index < s.len() && !is_hex_digit(s[index as int]) && (forall|j: int|
            0 <= j < index ==> is_hex_digit(#[trigger] s[j])),
    }
}

fn hex_digit_str(v: u8) -> (r: &'static str)
    requires
        v < 16,
    ensures
        r@.len() == 1,
        r@[0] == hex_char_of(v as int),
{
    proof {
        reveal_strlit("0");
        reveal_strlit("1");
        reveal_strlit("2");
        reveal_strlit("3");
        reveal_strlit("4");
        reveal_strlit("5");
        reveal_strlit("6");
        reveal_strlit("7");
        reveal_strlit("8");
        reveal_strlit("9");
        reveal_strlit("a");
        reveal_strlit("b");
        reveal_strlit("c");
        reveal_strlit("d");
        reveal_strlit("e");
        reveal_strlit("f");
    }
    match v {
        0 => "0",
        1 => "1",
        2 => "2",
        3 => "3",
        4 => "4",
        5 => "5",
        6 => "6",
        7 => "7",
        8 => "8",
        9 => "9",
        10 => "a",
        11 => "b",
        12 => "c",
        13 => "d",
        14 => "e",
        _ => "f",
    }
}

fn hex_val_u8(c: char) -> (v: u8)
    ensures
        v as int == hex_val(c),
{
    let u = c as u32;
    if '0' as u32 <= u && u <= '9' as u32 {
        (u - '0' as u32) as u8
    } else if 'a' as u32 <= u && u <= 'f' as u32 {
        (u - 'a' as u32 + 10) as u8
    } else if 'A' as u32 <= u && u <= 'F' as u32 {
        (u - 'A' as u32 + 10) as u8
    } else {
        16
    }
}

/// `write` direction of the scalar hex codec.
pub fn encode(data: &Vec<u8>) -> (r: String)
    ensures
        r@ == spec_encode(data@),
{
    let mut out = String::new();
    let mut i: usize = 0;
    while i < data.len()
        invariant
            i <= data.len(),
            out@ =~= spec_encode(data@.take(i as int)),
        decreases data.len() - i,
    {
        let b = data[i];
        out.append(hex_digit_str(b / 16));
        out.append(hex_digit_str(b % 16));
        i = i + 1;
        proof {
            assert(out@ =~= spec_encode(data@.take(i as int)));
        }
    }
    proof {
        assert(data@.take(data@.len() as int) =~= data@);
    }
    out
}

/// `read` direction of the scalar hex codec. Succeeds exactly on valid hex
/// strings; the error pins down the first reason the input was rejected.
pub fn decode(s: &str) -> (r: Result<Vec<u8>, DecodeError>)
    ensures
        r is Ok <==> valid_hex(s@),
        r matches Ok(b) ==> b@ == spec_decode(s@),
        r matches Err(e) ==> decode_err_matches(e, s@),
{
    let n = s.unicode_len();
    if n % 2 != 0 {
        return Err(DecodeError::OddLength { input: s.to_owned() });
    }
    let mut out: Vec<u8> = Vec::new();
    let mut i: usize = 0;
    while i < n
        invariant
            n == s@.len(),
            n % 2 == 0,
            i % 2 == 0,
            i <= n,
            forall|j: int| 0 <= j < i ==> is_hex_digit(#[trigger] s@[j]),
            out@ =~= spec_decode(s@.take(i as int)),
        decreases n - i,
    {
        let hi = hex_val_u8(s.get_char(i));
        if hi >= 16 {
            return Err(DecodeError::InvalidChar { input: s.to_owned(), index: i });
        }
        let lo = hex_val_u8(s.get_char(i + 1));
        if lo >= 16 {
            return Err(DecodeError::InvalidChar { input: s.to_owned(), index: i + 1 });
        }
        out.push(hi * 16 + lo);
        i = i + 2;
        proof {
            assert(out@ =~= spec_decode(s@.take(i as int)));
        }
    }
    proof {
        assert(s@.take(s@.len() as int) =~= s@);
    }
    Ok(out)
}

/// Round trip: every byte sequence is recovered from its own wire form,
/// and the wire form is always valid hex.
pub proof fn lemma_hex_round_trip(b: Seq<u8>)
    ensures
        valid_hex(spec_encode(b)),
        spec_decode(spec_encode(b)) =~= b,
{
    assert forall|i: int| 0 <= i < spec_encode(b).len() implies is_hex_digit(
        #[trigger] spec_encode(b)[i],
    ) by {
        let v = if i % 2 == 0 {
            b[i / 2] as int / 16
        } else {
            b[i / 2] as int % 16
        };
        assert(0 <= v < 16);
    }
    assert forall|i: int| 0 <= i < b.len() implies spec_decode(spec_encode(b))[i] == b[i] by {
        let x = b[i] as int;
        assert(spec_encode(b)[2 * i] == hex_char_of(x / 16));
        assert(spec_encode(b)[2 * i + 1] == hex_char_of(x % 16));
        assert(hex_val(hex_char_of(x / 16)) == x / 16);
        assert(hex_val(hex_char_of(x % 16)) == x % 16);
        assert((x / 16) * 16 + x % 16 == x) by (nonlinear_arith)
            requires 0 <= x < 256;
    }
}

/// Canonical write: re-encoding a decoded valid string gives the same string
/// with every digit lowercased.
pub proof fn lemma_hex_canonical(s: Seq<char>)
    requires
        valid_hex(s),
    ensures
        spec_encode(spec_decode(s)) =~= lower_hex(s),
{
    assert forall|i: int| 0 <= i < lower_hex(s).len() implies spec_encode(spec_decode(s))[i]
        == lower_hex(s)[i] by {
        let j = i / 2;
        let a = hex_val(s[2 * j]);
        let c = hex_val(s[2 * j + 1]);
        assert(is_hex_digit(s[2 * j]));
        assert(is_hex_digit(s[2 * j + 1]));
        assert(spec_decode(s)[j] == (a * 16 + c) as u8);
        assert((a * 16 + c) / 16 == a && (a * 16 + c) % 16 == c) by (nonlinear_arith)
            requires 0 <= a < 16 && 0 <= c < 16;
        if i % 2 == 0 {
            assert(i == 2 * j);
        } else {
            assert(i == 2 * j + 1);
        }
    }
}

/// `write` direction of the optional variant: an absent value is written as
/// an absent/null wire value, a present one through the scalar codec.
pub fn encode_opt(data: &Option<Vec<u8>>) -> (r: Option<String>)
    ensures
        data is None <==> r is None,
        r matches Some(s) ==> s@ == spec_encode(data->0@),
{
    match data {
        None => None,
        Some(b) => Some(encode(b)),
    }
}

/// `read` direction of the optional variant: an absent/null wire value reads
/// as `None`, a present string through the scalar codec.
pub fn decode_opt(wire: Option<String>) -> (r: Result<Option<Vec<u8>>, DecodeError>)
    ensures
        wire is None ==> (r matches Ok(o) && o is None),
        wire matches Some(s) ==> {
            &&& r is Ok <==> valid_hex(s@)
            &&& (r matches Ok(o) ==> o matches Some(b) && b@ == spec_decode(s@))
            &&& (r matches Err(e) ==> decode_err_matches(e, s@))
        },
{
    match wire {
        None => Ok(None),
        Some(s) => match decode(s.as_str()) {
            Ok(b) => Ok(Some(b)),
            Err(e) => Err(e),
        },
    }
}

/// `write` direction of the list variant: each element through the scalar
/// codec, order preserved.
pub fn encode_list(data: &Vec<Vec<u8>>) -> (r: Vec<String>)
    ensures
        r@.len() == data@.len(),
        forall|i: int| 0 <= i < data@.len() ==> (#[trigger] r@[i])@ == spec_encode(data@[i]@),
{
    let mut out: Vec<String> = Vec::new();
    let mut i: usize = 0;
    while i < data.len()
        invariant
            i <= data.len(),
            out@.len() == i,
            forall|j: int| 0 <= j < i ==> (#[trigger] out@[j])@ == spec_encode(data@[j]@),
        decreases data.len() - i,
    {
        out.push(encode(&data[i]));
        i = i + 1;
    }
    out
}

/// `read` direction of the list variant: each element through the scalar
/// codec, order preserved; the first invalid element fails the whole read
/// and no partial result is returned.
pub fn decode_list(wire: &Vec<String>) -> (r: Result<Vec<Vec<u8>>, DecodeError>)
    ensures
        r is Ok <==> (forall|i: int| 0 <= i < wire@.len() ==> valid_hex((#[trigger] wire@[i])@)),
        r matches Ok(out) ==> {
            &&& out@.len() == wire@.len()
            &&& forall|i: int|
                0 <= i < wire@.len() ==> (#[trigger] out@[i])@ == spec_decode(wire@[i]@)
        },
        r matches Err(e) ==> exists|i: int|
            {
                &&& 0 <= i < wire@.len()
                &&& !valid_hex((#[trigger] wire@[i])@)
                &&& (forall|j: int| 0 <= j < i ==> valid_hex((#[trigger] wire@[j])@))
                &&& decode_err_matches(e, wire@[i]@)
            },
{
    let mut out: Vec<Vec<u8>> = Vec::new();
    let mut i: usize = 0;
    while i < wire.len()
        invariant
            i <= wire.len(),
            out@.len() == i,
            forall|j: int| 0 <= j < i ==> valid_hex((#[trigger] wire@[j])@),
            forall|j: int| 0 <= j < i ==> (#[trigger] out@[j])@ == spec_decode(wire@[j]@),
        decreases wire.len() - i,
    {
        match decode(wire[i].as_str()) {
            Ok(b) => out.push(b),
            Err(e) => {
                return Err(e);
            },
        }
        i = i + 1;
    }
    Ok(out)
}

} // verus!
