use vstd::prelude::*;

verus! {

/// A random integer between `min` and `max`, both included.
///
/// Calls `rand::Rng::gen_range` on the thread's generator with the inclusive
/// range. The generator draws from that range and panics on an empty one, so
/// `min` may not exceed `max`; which value comes back is left open.
#[verifier::external_body]
pub fn get_random(min: u32, max: u32) -> (r: u32)
    requires
        min <= max,
    ensures
        min <= r <= max,
{
    rand::Rng::gen_range(&mut rand::thread_rng(), min..=max)
}

} // verus!
