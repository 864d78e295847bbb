//! The random numbers of the `rand` crate.

use rand::distributions::Alphanumeric;
use rand::Rng;
use vstd::prelude::*;

verus! {

/// `Rng::gen::<u64>` on the generator of the current thread. It may return any
/// number, so nothing is claimed of which one it is.
#[verifier::external_body]
pub(crate) fn random_u64() -> (n: u64) {
    rand::thread_rng().gen::<u64>()
}

/// `Rng::gen_range` on the generator of the current thread returns a number
/// that is not below `low` and below `high`. It panics where there is none.
#[verifier::external_body]
pub(crate) fn random_in_range(low: u16, high: u16) -> (n: u16)
    requires
        low < high,
    ensures
        low <= n < high,
{
    rand::thread_rng().gen_range(low..high)
}

/// Whether a byte is the code of a letter from A to Z or a to z, or of a digit.
pub open spec fn is_alphanumeric(b: u8) -> bool {
    0x41 <= b <= 0x5a || 0x61 <= b <= 0x7a || 0x30 <= b <= 0x39
}

/// `Rng::sample` with the distribution `Alphanumeric`, on the generator of the
/// current thread, returns the code of an ASCII letter or digit.
#[verifier::external_body]
pub(crate) fn random_alphanumeric() -> (b: u8)
    ensures
        is_alphanumeric(b),
{
    rand::thread_rng().sample(Alphanumeric)
}

} // verus!
