use rand::Rng;
use vstd::prelude::*;

verus! {

/// Relies on rand's `thread_rng().gen_range(low, high)`: a draw from the
/// half-open range `[low, high)`; it panics when `low >= high`.
#[verifier::external_body]
fn uniform_draw(min: i32, max: i32) -> (r: i32)
    requires
        min < max,
    ensures
        min <= r < max,
{
    rand::thread_rng().gen_range(min, max)
}

/// A uniformly distributed integer of `[min, max)`.
pub fn generate_random(min: i32, max: i32) -> (r: i32)
    requires
        min < max,
    ensures
        min <= r < max,
{
    uniform_draw(min, max)
}

} // verus!
