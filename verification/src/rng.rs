//! The optimizer's only source of randomness, wrapped so that the rest
//! of the crate can be verified against the draw's range alone.

use rand::Rng;
use vstd::prelude::*;

verus! {

/// Relies on rand's `Rng::gen_range` on an inclusive `u128` range: the
/// sample lies inside the range, and the call panics only when the range
/// is empty, which the precondition rules out.
#[verifier::external_body]
pub(crate) fn rand_u128(lo: u128, hi: u128) -> (r: u128)
    requires
        lo <= hi,
    ensures
        lo <= r <= hi,
{
    rand::thread_rng().gen_range(lo..=hi)
}

/// A uniform draw from the inclusive `i64` interval `[lo, hi]`,
/// derived from a single unsigned draw.
pub(crate) fn rand_i64(lo: i64, hi: i64) -> (r: i64)
    requires
        lo <= hi,
    ensures
        lo <= r <= hi,
{
    let span: u128 = (hi as i128 - lo as i128) as u128;
    let u = rand_u128(0, span);
    (lo as i128 + u as i128) as i64
}

} // verus!
