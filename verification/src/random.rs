//! The source of chance: which shape comes next.

use rand::Rng;
use vstd::prelude::*;

verus! {

/// Draws a number with `gen_range` from the generator that `rand::thread_rng`
/// hands out. Trusted, not proved: the number lies in `low..high`. Which
/// number of that range comes is left open, so two calls may differ.
#[verifier::external_body]
pub(crate) fn random_in_range(low: i32, high: i32) -> (n: i32)
    requires
        low < high,
    ensures
        low <= n < high,
{
    rand::thread_rng().gen_range(low, high)
}

} // verus!
