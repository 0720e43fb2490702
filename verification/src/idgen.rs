//! Fresh identifier bits for newly created records.

use vstd::prelude::*;

verus! {

/// Relies on `ulid::Ulid::new`: a 128-bit identifier built from the current
/// time and the process's random number generator. Nothing is promised of
/// the value — uniqueness among live records is enforced by the stores on
/// insert, never assumed of the generator.
#[verifier::external_body]
pub(crate) fn fresh_ulid_bits() -> (r: u128) {
    ulid::Ulid::new().0
}

} // verus!
