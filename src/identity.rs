//! Identities: the storage keys that names are bound to.
use vstd::prelude::*;

verus! {

/// `x` has the layout of a random (version 4) UUID read as a big-endian integer:
/// version nibble 4 and variant bits 10.
pub open spec fn is_random_identity(x: u128) -> bool {
    x & 0xF000_C000_0000_0000_0000 == 0x4000_8000_0000_0000_0000
}

/// Relies on uuid::Uuid::new_v4 for a random identity, read out with Uuid::as_u128.
#[verifier::external_body]
pub(crate) fn fresh_identity() -> (r: u128)
    ensures
        is_random_identity(r),
{
    uuid::Uuid::new_v4().as_u128()
}

} // verus!
