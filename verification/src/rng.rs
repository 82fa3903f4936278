//! Randomness, drawn through the rand crate.
//!
//! Nothing is assumed of the drawn values beyond their range: every caller
//! is verified for every value the range admits.

use vstd::prelude::*;
use rand::Rng;

verus! {

pub open spec fn is_ascii_alnum_byte(b: u8) -> bool {
    (0x30 <= b <= 0x39) || (0x41 <= b <= 0x5a) || (0x61 <= b <= 0x7a)
}

/// Relies on rand::Rng::gen_range over `0..n`: a uniformly random integer
/// below `n`; the range never being empty, the call does not panic. Only
/// the range of the result is assumed.
#[verifier::external_body]
pub(crate) fn rand_below(n: u32) -> (r: u32)
    requires
        n >= 1,
    ensures
        r < n,
{
    rand::thread_rng().gen_range(0..n)
}

/// Relies on rand::distributions::Alphanumeric sampled as a byte: a
/// uniformly random ASCII alphanumeric byte (a digit, an uppercase or a
/// lowercase letter). Only the range of the result is assumed.
#[verifier::external_body]
pub(crate) fn random_alnum_byte() -> (r: u8)
    ensures
        is_ascii_alnum_byte(r),
{
    rand::thread_rng().sample(rand::distributions::Alphanumeric)
}

} // verus!
