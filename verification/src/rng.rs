//! The library's one source of randomness: a uniform fixed-point draw from
//! `[0, 1)`, provided by the `rand` crate.

use vstd::prelude::*;
use rand::Rng;

verus! {

/// Relies on rand's `Rng::gen_range` on the thread-local generator: a draw
/// from `[0, 65536)`. Nothing beyond the range is promised of the outcome.
#[verifier::external_body]
pub fn random_unit() -> (r: i64)
    ensures
        0 <= r < 65536,
{
    rand::thread_rng().gen_range(0..65536i64)
}

} // verus!
