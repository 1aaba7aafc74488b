use vstd::prelude::*;
use rand::Rng;

verus! {

/// Calls `rand::thread_rng().gen_range(0, n)`, which its documentation describes as a
/// random value in the range `[0, n)` (and which panics when `n` is 0). Which value comes
/// back is left open.
#[verifier::external_body]
pub(crate) fn roll_below(n: u32) -> (r: u32)
    requires
        n > 0,
    ensures
        r < n,
{
    rand::thread_rng().gen_range(0, n)
}

/// Calls `rand::random::<u8>()`, a random byte; nothing is promised of its value.
#[verifier::external_body]
pub(crate) fn random_byte() -> u8 {
    rand::random::<u8>()
}

} // verus!
