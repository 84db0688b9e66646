//! Tri-state optional codec: keeps "field absent", "field present with
//! null" and "field present with a value" apart on the read side. The
//! typed value is a nested optional: the outer layer says whether the
//! field key existed at all, the inner whether its value was non-null.

use vstd::prelude::*;

verus! {

/// Flattening of the tri-state back to an ordinary nullable: absent and
/// explicit-null collapse to null, a value stays a value.
pub open spec fn spec_flatten<T>(v: Option<Option<T>>) -> Option<T> {
    match v {
        Option::None => Option::None,
        Option::Some(Option::None) => Option::None,
        Option::Some(Option::Some(x)) => Option::Some(x),
    }
}

/// `read` direction. The surrounding framework invokes a field's codec only
/// when the field key is present, so reaching this function at all means
/// the outer layer is present; the outer-absent state is produced by the
/// framework skipping the call, never by this codec.
pub fn read_tri_state<T>(inner: Option<T>) -> (r: Option<Option<T>>)
    ensures
        r == Some(inner),
{
    Some(inner)
}

/// `write` direction. Deliberately lossy: the tri-state is read-only
/// information, and writing folds outer-absent and explicit-null together
/// as "no field".
pub fn write_tri_state<T>(v: Option<Option<T>>) -> (r: Option<T>)
    ensures
        r == spec_flatten(v),
{
    match v {
        None => None,
        Some(None) => None,
        Some(Some(x)) => Some(x),
    }
}

/// The designed write-side asymmetry: outer-absent and outer-present with
/// inner-null write to the same null wire value, and a present value is
/// written through unchanged.
pub proof fn lemma_tri_state_collapse<T>()
    ensures
        spec_flatten::<T>(None) == None::<T>,
        spec_flatten::<T>(Some(None)) == None::<T>,
        forall|x: T| #[trigger] spec_flatten(Some(Some(x))) == Some(x),
{
}

} // verus!
