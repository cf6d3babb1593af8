//! Random draws. The generator is passed in by the caller, so that a run can
//! be replayed from its seed.

use rand::rngs::StdRng;
use rand::Rng;
use vstd::prelude::*;

verus! {

/// The seedable generator that every random routine of this crate takes.
#[verifier::external_type_specification]
#[verifier::external_body]
pub struct ExStdRng(rand::rngs::StdRng);

/// Draws from `low..high` with `rand::Rng::gen_range`, which samples the
/// half-open range and refuses an empty one. Nothing is claimed of the
/// distribution: only that the value lies in the range.
#[verifier::external_body]
pub(crate) fn draw_range(rng: &mut StdRng, low: i64, high: i64) -> (v: i64)
    requires
        low < high,
    ensures
        low <= v < high,
{
    rng.gen_range(low..high)
}

/// Draws a seed for a pair of generators: any `u32` but the largest, so that
/// its successor exists.
pub fn draw_seed(rng: &mut StdRng) -> (seed: u32)
    ensures
        seed < u32::MAX,
{
    let v: i64 = draw_range(rng, 0, u32::MAX as i64);
    v as u32
}

} // verus!
