//! The external source of fresh random base values.

use vstd::prelude::*;

verus! {

/// Relies on `uuid::Uuid::new_v4`, which draws a fresh random UUID: the
/// result is a random 128-bit value, so nothing is promised of it.
#[verifier::external_body]
pub(crate) fn fresh_base() -> u128 {
    uuid::Uuid::new_v4().as_u128()
}

} // verus!
