//! A particle-swarm optimizer for black-box search over box-bounded
//! parameter vectors, in a single-objective and a multi-objective
//! (Pareto) flavour, together with the supporting dictionary and corpus
//! index types of the surrounding extraction pipeline.
//!
//! All numeric optimizer state is kept in signed 64-bit fixed-point
//! form: a stored value `x` stands for the real number `x / SCALE`.

use vstd::prelude::*;

pub mod crowding;
pub mod mopso;
pub mod pso;
pub mod relex;
pub mod rng;
pub mod types;

verus! {

/// Fixed-point scale: a stored value `x` denotes the real `x / SCALE`.
pub const SCALE: i64 = 1_000_000;

/// Largest admissible hyperparameter weight (a real weight of 1000).
pub const MAX_WEIGHT: i64 = 1_000_000_000;

/// The mathematical view of a list of fixed-point vectors.
pub open spec fn views_of(s: Seq<Vec<i64>>) -> Seq<Seq<i64>> {
    s.map_values(|v: Vec<i64>| v@)
}

/// Clamp `x` into the closed interval `[lo, hi]`.
pub open spec fn clamp_spec(x: int, lo: int, hi: int) -> int {
    if x < lo {
        lo
    } else if x > hi {
        hi
    } else {
        x
    }
}

/// Division by `SCALE`, rounding toward zero.
pub open spec fn sdiv_spec(a: int) -> int {
    if a >= 0 {
        a / (SCALE as int)
    } else {
        -((-a) / (SCALE as int))
    }
}

/// Clamp a 128-bit value into an `i64` interval.
pub fn clamp_i128(x: i128, lo: i64, hi: i64) -> (r: i64)
    requires
        lo <= hi,
    ensures
        r == clamp_spec(x as int, lo as int, hi as int),
{
    if x < lo as i128 {
        lo
    } else if x > hi as i128 {
        hi
    } else {
        x as i64
    }
}

pub(crate) proof fn lemma_div_shrinks(a: int, b: int)
    requires
        a >= 0,
        b >= 1,
    ensures
        0 <= a / b <= a,
{
    assert(0 <= a / b <= a) by (nonlinear_arith)
        requires
            a >= 0,
            b >= 1,
    ;
}

/// Divide a 128-bit fixed-point product by `SCALE`, rounding toward zero.
pub fn sdiv(a: i128) -> (r: i128)
    requires
        a > i128::MIN,
    ensures
        r == sdiv_spec(a as int),
        a >= 0 ==> 0 <= r <= a,
        a < 0 ==> a <= r <= 0,
{
    proof {
        lemma_div_shrinks(if a >= 0 { a as int } else { -(a as int) }, SCALE as int);
    }
    if a >= 0 {
        ((a as u128) / (SCALE as u128)) as i128
    } else {
        -((((-a) as u128) / (SCALE as u128)) as i128)
    }
}

/// Every interval has its lower end at or below its upper end.
pub open spec fn bounds_wf(b: Seq<(i64, i64)>) -> bool {
    forall|i: int| 0 <= i < b.len() ==> (#[trigger] b[i]).0 <= b[i].1
}

/// The optimizer's runtime failure: the evaluation callback handed
/// back fitness or payload values of the wrong dimension.
#[derive(Clone, Copy, Debug, PartialEq, Eq, Structural)]
pub enum SwarmError {
    EvaluationMismatch,
}

/// Copies a fixed-point vector.
pub(crate) fn copy_vec(v: &Vec<i64>) -> (r: Vec<i64>)
    ensures
        r@ == v@,
{
    let mut r: Vec<i64> = Vec::new();
    let mut i: usize = 0;
    while i < v.len()
        invariant
            0 <= i <= v.len(),
            r@ == v@.subrange(0, i as int),
        decreases v.len() - i,
    {
        r.push(v[i]);
        proof {
            assert(r@ =~= v@.subrange(0, i + 1));
        }
        i += 1;
    }
    proof {
        assert(r@ =~= v@);
    }
    r
}

/// Copies a word-number vector.
pub(crate) fn copy_u32_vec(v: &Vec<u32>) -> (r: Vec<u32>)
    ensures
        r@ == v@,
{
    let mut r: Vec<u32> = Vec::new();
    let mut i: usize = 0;
    while i < v.len()
        invariant
            0 <= i <= v.len(),
            r@ == v@.subrange(0, i as int),
        decreases v.len() - i,
    {
        r.push(v[i]);
        proof {
            assert(r@ =~= v@.subrange(0, i + 1));
        }
        i += 1;
    }
    proof {
        assert(r@ =~= v@);
    }
    r
}

} // verus!
