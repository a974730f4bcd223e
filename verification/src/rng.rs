//! The one trusted item around the random number generator.

use vstd::prelude::*;

verus! {

/// Relies on `rand::random`: a byte drawn from the thread-local generator,
/// uniform over all 256 values.  Nothing is promised of the result; the
/// random instruction's semantics hold for every byte that comes back.
#[verifier::external_body]
pub(crate) fn random_byte() -> u8 {
    rand::random::<u8>()
}

} // verus!
