//! Comma-list codec: the wire value is one string of tokens joined by a
//! literal comma (no escaping), the typed value an ordered sequence of
//! integers parsed token by token.

use vstd::prelude::*;
use crate::decimal::{is_dec_string, spec_dec_val, spec_digits, lemma_digits_value};
use crate::stringified::{u64_parse_ok, parse_err_matches, read_u64, write_u64, ParseError};

verus! {

/// Splitting a string on commas, one token per stretch between commas.
/// Splitting the empty string yields a single empty token.
pub open spec fn spec_split(s: Seq<char>) -> Seq<Seq<char>>
    decreases s.len(),
{
    if s.len() == 0 {
        seq![Seq::<char>::empty()]
    } else if s[0] == ',' {
        seq![Seq::<char>::empty()] + spec_split(s.drop_first())
    } else {
        let rest = spec_split(s.drop_first());
        rest.update(0, seq![s[0]] + rest[0])
    }
}

/// Joining tokens with a literal comma between neighbours.
pub open spec fn spec_join(parts: Seq<Seq<char>>) -> Seq<char>
    decreases parts.len(),
{
    if parts.len() == 0 {
        Seq::<char>::empty()
    } else if parts.len() == 1 {
        parts[0]
    } else {
        parts[0] + seq![','] + spec_join(parts.drop_first())
    }
}

pub open spec fn has_no_comma(s: Seq<char>) -> bool {
    forall|i: int| 0 <= i < s.len() ==> #[trigger] s[i] != ','
}

/// A split always yields at least one token.
pub proof fn lemma_split_nonempty(s: Seq<char>)
    ensures
        spec_split(s).len() > 0,
    decreases s.len(),
{
    if s.len() > 0 {
        lemma_split_nonempty(s.drop_first());
    }
}

/// Prepending a comma-free token to a string extends that string's first
/// token and leaves the rest of the split alone.
proof fn lemma_split_prepend_token(p: Seq<char>, t: Seq<char>)
    requires
        has_no_comma(p),
    ensures
        spec_split(p + t) =~~= spec_split(t).update(0, p + spec_split(t)[0]),
    decreases p.len(),
{
    lemma_split_nonempty(t);
    if p.len() == 0 {
        assert(p + t =~= t);
        assert(p + spec_split(t)[0] =~= spec_split(t)[0]);
        assert(spec_split(t).update(0, spec_split(t)[0]) =~= spec_split(t));
    } else {
        lemma_split_prepend_token(p.drop_first(), t);
        let s = p + t;
        assert(s[0] == p[0]);
        assert(s.drop_first() =~= p.drop_first() + t);
        let rest = spec_split(p.drop_first() + t);
        assert(spec_split(s) == rest.update(0, seq![s[0]] + rest[0]));
        assert(rest[0] == p.drop_first() + spec_split(t)[0]);
        assert(seq![s[0]] + (p.drop_first() + spec_split(t)[0]) =~= p + spec_split(t)[0]);
    }
}

/// Splitting after a leading comma: an empty first token, then the split of
/// the remainder.
proof fn lemma_split_leading_comma(t: Seq<char>)
    ensures
        spec_split(seq![','] + t) =~~= seq![Seq::<char>::empty()] + spec_split(t),
{
    let s = seq![','] + t;
    assert(s[0] == ',');
    assert(s.drop_first() =~= t);
}

/// Round trip of split and join: joining comma-free tokens and splitting
/// the result recovers exactly the original tokens.
pub proof fn lemma_split_join(parts: Seq<Seq<char>>)
    requires
        parts.len() > 0,
        forall|i: int| 0 <= i < parts.len() ==> has_no_comma(#[trigger] parts[i]),
    ensures
        spec_split(spec_join(parts)) =~~= parts,
    decreases parts.len(),
{
    if parts.len() == 1 {
        lemma_split_prepend_token(parts[0], Seq::<char>::empty());
        assert(parts[0] + Seq::<char>::empty() =~= parts[0]);
        assert(spec_join(parts) == parts[0]);
        assert(spec_split(Seq::<char>::empty()) == seq![Seq::<char>::empty()]);
        assert(parts[0] + Seq::<char>::empty() =~= parts[0]);
        assert(spec_split(parts[0]) =~~= seq![parts[0]]);
        assert(seq![parts[0]] =~~= parts);
    } else {
        let rest = parts.drop_first();
        lemma_split_join(rest);
        let tail = seq![','] + spec_join(rest);
        assert(spec_join(parts) =~= parts[0] + tail);
        lemma_split_prepend_token(parts[0], tail);
        lemma_split_leading_comma(spec_join(rest));
        assert(spec_split(tail) =~~= seq![Seq::<char>::empty()] + rest);
        assert(spec_split(tail)[0] =~= Seq::<char>::empty());
        assert(parts[0] + Seq::<char>::empty() =~= parts[0]);
        assert(spec_split(spec_join(parts)) =~~= (seq![Seq::<char>::empty()] + rest).update(
            0,
            parts[0],
        ));
        assert((seq![Seq::<char>::empty()] + rest).update(0, parts[0]) =~~= parts);
    }
}

fn find_comma(s: &str) -> (r: usize)
    ensures
        r <= s@.len(),
        forall|j: int| 0 <= j < r ==> #[trigger] s@[j] != ',',
        r < s@.len() ==> s@[r as int] == ',',
{
    let n = s.unicode_len();
    let mut i: usize = 0;
    while i < n
        invariant
            n == s@.len(),
            i <= n,
            forall|j: int| 0 <= j < i ==> #[trigger] s@[j] != ',',
        decreases n - i,
    {
        if s.get_char(i) == ',' {
            return i;
        }
        i = i + 1;
    }
    n
}

/// Splits a wire string into its comma-separated tokens.
pub fn split_commas(s: &str) -> (r: Vec<String>)
    ensures
        r@.len() == spec_split(s@).len(),
        forall|i: int| 0 <= i < r@.len() ==> (#[trigger] r@[i])@ == spec_split(s@)[i],
    decreases s@.len(),
{
    let n = s.unicode_len();
    let i = find_comma(s);
    if i == n {
        proof {
            lemma_split_prepend_token(s@, Seq::<char>::empty());
            assert(s@ + Seq::<char>::empty() =~= s@);
            assert(spec_split(s@) =~~= seq![s@]);
        }
        let mut out: Vec<String> = Vec::new();
        out.push(s.to_owned());
        out
    } else {
        let head = s.substring_char(0, i).to_owned();
        let tail = s.substring_char(i + 1, n);
        let mut rest = split_commas(tail);
        proof {
            let head_s = s@.take(i as int);
            let tail_s = s@.skip(i + 1);
            assert(s@ =~= head_s + (seq![','] + tail_s));
            lemma_split_prepend_token(head_s, seq![','] + tail_s);
            lemma_split_leading_comma(tail_s);
            lemma_split_nonempty(tail_s);
            assert(spec_split(seq![','] + tail_s)[0] =~= Seq::<char>::empty());
            assert(head_s + Seq::<char>::empty() =~= head_s);
            assert(spec_split(s@) =~~= seq![head_s] + spec_split(tail_s));
        }
        rest.insert(0, head);
        proof {
            assert(forall|j: int|
                0 <= j < rest@.len() ==> (#[trigger] rest@[j])@ == spec_split(s@)[j]);
        }
        rest
    }
}

/// `write` direction of the comma-list codec: each integer in canonical
/// decimal form, joined by commas, in order.
pub fn write_comma_list(data: &Vec<u64>) -> (r: String)
    ensures
        r@ == spec_join(data@.map_values(|v: u64| spec_digits(v as nat))),
{
    let ghost parts = data@.map_values(|v: u64| spec_digits(v as nat));
    let mut out = String::new();
    let mut i: usize = 0;
    while i < data.len()
        invariant
            i <= data.len(),
            parts == data@.map_values(|v: u64| spec_digits(v as nat)),
            out@ == spec_join(parts.take(i as int)),
        decreases data.len() - i,
    {
        if i > 0 {
            proof {
                reveal_strlit(",");
            }
            out.append(",");
        }
        let d = write_u64(data[i]);
        out.append(d.as_str());
        proof {
            lemma_join_snoc(parts.take(i + 1));
            assert(parts.take(i + 1).drop_last() =~= parts.take(i as int));
            assert(parts.take(i + 1).last() == parts[i as int]);
        }
        i = i + 1;
    }
    proof {
        assert(parts.take(parts.len() as int) =~= parts);
    }
    out
}

/// Joining with one more token on the end appends a comma and the token
/// (no comma for the very first token).
proof fn lemma_join_snoc(parts: Seq<Seq<char>>)
    requires
        parts.len() > 0,
    ensures
        parts.len() == 1 ==> spec_join(parts) =~= parts.last(),
        parts.len() > 1 ==> spec_join(parts) =~= spec_join(parts.drop_last()) + seq![',']
            + parts.last(),
    decreases parts.len(),
{
    if parts.len() > 1 {
        lemma_join_snoc(parts.drop_first());
        assert(parts.drop_first().drop_last() =~= parts.drop_last().drop_first());
        assert(parts.drop_first().last() == parts.last());
        if parts.len() == 2 {
            assert(spec_join(parts.drop_last()) == parts[0]);
        } else {
            assert(spec_join(parts.drop_last()) =~= parts[0] + seq![','] + spec_join(
                parts.drop_last().drop_first(),
            ));
        }
    }
}

/// `read` direction of the comma-list codec: the wire string is split on
/// commas and each token parsed as an integer, in order; the first bad
/// token fails the whole read. An empty wire string holds one empty token,
/// which fails to parse.
pub fn read_comma_list(s: &str) -> (r: Result<Vec<u64>, ParseError>)
    ensures
        r is Ok <==> (forall|i: int|
            0 <= i < spec_split(s@).len() ==> u64_parse_ok(#[trigger] spec_split(s@)[i])),
        r matches Ok(out) ==> {
            &&& out@.len() == spec_split(s@).len()
            &&& forall|i: int|
                0 <= i < out@.len() ==> #[trigger] out@[i] == spec_dec_val(spec_split(s@)[i])
        },
        r matches Err(e) ==> exists|i: int|
            {
                &&& 0 <= i < spec_split(s@).len()
                &&& !u64_parse_ok(#[trigger] spec_split(s@)[i])
                &&& (forall|j: int| 0 <= j < i ==> u64_parse_ok(#[trigger] spec_split(s@)[j]))
                &&& parse_err_matches(e, spec_split(s@)[i])
            },
{
    let tokens = split_commas(s);
    let mut out: Vec<u64> = Vec::new();
    let mut i: usize = 0;
    #[verifier::loop_isolation(false)]
    while i < tokens.len()
        invariant
            i <= tokens.len(),
            out@.len() == i,
            forall|j: int| 0 <= j < i ==> u64_parse_ok(#[trigger] spec_split(s@)[j]),
            forall|j: int| 0 <= j < i ==> #[trigger] out@[j] == spec_dec_val(spec_split(s@)[j]),
        decreases tokens.len() - i,
    {
        match read_u64(tokens[i].as_str()) {
            Ok(v) => out.push(v),
            Err(e) => {
                return Err(e);
            },
        }
        i = i + 1;
    }
    Ok(out)
}

/// The canonical decimal form of a number never contains a comma.
pub proof fn lemma_digits_no_comma(n: nat)
    ensures
        has_no_comma(spec_digits(n)),
{
    lemma_digits_value(n);
    assert forall|i: int| 0 <= i < spec_digits(n).len() implies #[trigger] spec_digits(n)[i]
        != ',' by {
        assert(crate::decimal::is_digit(spec_digits(n)[i]));
    }
}

/// Round trip of the comma-list codec: writing a nonempty integer sequence
/// and reading the result back recovers the sequence exactly. (The empty
/// sequence is written as the empty string, which reads back as one empty
/// token and is rejected.)
pub proof fn lemma_comma_list_round_trip(data: Seq<u64>)
    requires
        data.len() > 0,
    ensures
        ({
            let parts = data.map_values(|v: u64| spec_digits(v as nat));
            let wire = spec_join(parts);
            &&& spec_split(wire) =~~= parts
            &&& forall|i: int| 0 <= i < data.len() ==> u64_parse_ok(#[trigger] spec_split(wire)[i])
            &&& forall|i: int|
                0 <= i < data.len() ==> spec_dec_val(#[trigger] spec_split(wire)[i]) == data[i]
        }),
{
    let parts = data.map_values(|v: u64| spec_digits(v as nat));
    assert forall|i: int| 0 <= i < parts.len() implies has_no_comma(#[trigger] parts[i]) by {
        lemma_digits_no_comma(data[i] as nat);
    }
    lemma_split_join(parts);
    assert forall|i: int| 0 <= i < data.len() implies u64_parse_ok(#[trigger] spec_split(
        spec_join(parts),
    )[i]) && spec_dec_val(spec_split(spec_join(parts))[i]) == data[i] by {
        lemma_digits_value(data[i] as nat);
        assert(spec_split(spec_join(parts))[i] == parts[i]);
    }
}

} // verus!
