//! Enum-string codec: a closed set of variants, each tied to one string
//! literal by an immutable two-way table. The table is the single source
//! of truth, so the variant-to-string mapping is a bijection; unknown
//! strings are rejected, never coerced. A variant is identified by its
//! index into the table.

use vstd::prelude::*;

verus! {

/// Why a wire string was rejected by an enum-string codec: the string is
/// outside the declared table. Carries the enum's name and the offending
/// string for diagnostics.
#[derive(Debug, PartialEq, Eq)]
pub struct InvalidValue {
    pub enum_name: String,
    pub value: String,
}

/// The declared table of an enum-string codec.
#[derive(Debug)]
pub struct StrEnum {
    /// The enum's name, carried into error messages.
    pub name: String,
    /// The string literal of each variant, indexed by variant.
    pub literals: Vec<String>,
}

/// The declared literals are pairwise distinct, which makes the
/// variant-to-string mapping a bijection.
pub open spec fn table_well_formed(t: StrEnum) -> bool {
    forall|i: int, j: int|
        #![trigger t.literals@[i], t.literals@[j]]
        0 <= i < j < t.literals@.len() ==> t.literals@[i]@ != t.literals@[j]@
}

impl StrEnum {
    /// Declares a table. Succeeds exactly when the literals are pairwise
    /// distinct; a table that would break the bijection is refused.
    pub fn new(name: String, literals: Vec<String>) -> (r: Option<StrEnum>)
        ensures
            r is Some <==> (forall|i: int, j: int|
                #![trigger literals@[i], literals@[j]]
                0 <= i < j < literals@.len() ==> literals@[i]@ != literals@[j]@),
            r matches Some(t) ==> t == (StrEnum { name, literals }) && table_well_formed(t),
    {
        let n = literals.len();
        let mut i: usize = 0;
        while i < n
            invariant
                n == literals@.len(),
                i <= n,
                forall|a: int, b: int|
                    #![trigger literals@[a], literals@[b]]
                    0 <= a < b < n && a < i ==> literals@[a]@ != literals@[b]@,
            decreases n - i,
        {
            let mut j: usize = i + 1;
            while j < n
                invariant
                    n == literals@.len(),
                    i < j || j == i + 1,
                    i < n,
                    j <= n,
                    forall|b: int| i < b < j ==> literals@[i as int]@ != (#[trigger] literals@[b])@,
                decreases n - j,
            {
                if literals[i].eq(&literals[j]) {
                    return None;
                }
                j = j + 1;
            }
            i = i + 1;
        }
        Some(StrEnum { name, literals })
    }

    /// `write` direction: the literal declared for a variant.
    pub fn write(&self, variant: usize) -> (r: String)
        requires
            variant < self.literals@.len(),
        ensures
            r@ == self.literals@[variant as int]@,
    {
        self.literals[variant].clone()
    }

    /// `read` direction: the variant declared for a literal; any string
    /// outside the table is rejected with the enum's name and the string.
    pub fn read(&self, s: &str) -> (r: Result<usize, InvalidValue>)
        ensures
            r is Ok <==> (exists|i: int|
                0 <= i < self.literals@.len() && (#[trigger] self.literals@[i])@ == s@),
            r matches Ok(i) ==> {
                &&& i < self.literals@.len()
                &&& self.literals@[i as int]@ == s@
                &&& forall|j: int| 0 <= j < i ==> (#[trigger] self.literals@[j])@ != s@
            },
            r matches Err(e) ==> {
                &&& (forall|i: int|
                    0 <= i < self.literals@.len() ==> (#[trigger] self.literals@[i])@ != s@)
                &&& e.enum_name@ == self.name@
                &&& e.value@ == s@
            },
    {
        let q = s.to_owned();
        let n = self.literals.len();
        let mut i: usize = 0;
        while i < n
            invariant
                n == self.literals@.len(),
                i <= n,
                q@ == s@,
                forall|j: int| 0 <= j < i ==> (#[trigger] self.literals@[j])@ != s@,
            decreases n - i,
        {
            if q.eq(&self.literals[i]) {
                return Ok(i);
            }
            i = i + 1;
        }
        Err(InvalidValue { enum_name: self.name.clone(), value: q })
    }
}

/// The bijection law: in a well-formed table two variants never share a
/// literal, so the variant read back from a written literal is the variant
/// that was written. Together with the contracts of `read` and `write`,
/// `read(write(v))` yields exactly `v` for every declared variant.
pub proof fn lemma_enum_bijection(t: StrEnum, v: int, i: int)
    requires
        table_well_formed(t),
        0 <= v < t.literals@.len(),
        0 <= i < t.literals@.len(),
        t.literals@[i]@ == t.literals@[v]@,
    ensures
        i == v,
{
}

} // verus!
