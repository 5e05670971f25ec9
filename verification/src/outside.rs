//! Trusted declarations for the outside crates and the few std functions that
//! vstd gives no specification to. Everything else in this library is verified
//! against the contracts stated here.

use vstd::prelude::*;

verus! {

#[verifier::external_type_specification]
#[verifier::external_body]
pub struct ExUuid(uuid::Uuid);

/// Relies on uuid::Uuid's derived Clone, which copies the value (Uuid is Copy).
pub assume_specification[ <uuid::Uuid as Clone>::clone ](u: &uuid::Uuid) -> (r: uuid::Uuid)
    ensures
        r == *u,
;

/// Relies on uuid::Uuid::new_v4, which draws a fresh random identifier.
/// Nothing can be promised of a random value.
#[verifier::external_body]
pub(crate) fn fresh_uuid() -> uuid::Uuid {
    uuid::Uuid::new_v4()
}

/// Relies on uuid::Uuid::new_v4, rendered in uuid's hyphenated text form.
/// Nothing can be promised of a random value.
#[verifier::external_body]
pub(crate) fn fresh_uuid_string() -> String {
    uuid::Uuid::new_v4().to_string()
}

/// Relies on str's PartialEq, which is true exactly when the two character
/// sequences are equal.
#[verifier::external_body]
pub(crate) fn str_eq(a: &str, b: &str) -> (r: bool)
    ensures
        r == (a@ == b@),
{
    a == b
}

} // verus!
