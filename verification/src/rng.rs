use vstd::prelude::*;

verus! {

/// Relies on rand::random: one uniformly drawn byte from the thread-local
/// generator. Nothing is promised of the value; callers must be correct for
/// all 256 possible bytes.
#[verifier::external_body]
pub(crate) fn random_byte() -> u8 {
    rand::random::<u8>()
}

} // verus!
