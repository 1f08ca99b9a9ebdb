use rand::Rng;
use vstd::prelude::*;

verus! {

/// Relies on `rand::Rng::gen_range` over `lo..hi` with the thread-local generator:
/// it returns an integer in `[lo, hi)` and panics only on an empty range.
#[verifier::external_body]
fn gen_range_i32(lo: i32, hi: i32) -> (r: i32)
    requires
        lo < hi,
    ensures
        lo <= r < hi,
{
    rand::thread_rng().gen_range(lo..hi)
}

/// A uniformly drawn integer in `[min, max)`; an empty or reversed range gives `min`.
pub fn random_i32(min: i32, max: i32) -> (r: i32)
    ensures
        min < max ==> min <= r < max,
        min >= max ==> r == min,
{
    if min < max {
        gen_range_i32(min, max)
    } else {
        min
    }
}

} // verus!
