//! Fitness values and the ordering on them.
//!
//! A fitness is the exact ratio of two dot products.  A zero denominator
//! marks a non-finite value; the ordering treats such a value as comparing
//! equal to everything, so it never wins a comparison.

use vstd::prelude::*;
use vstd::arithmetic::mul::lemma_mul_inequality;
use crate::model::{dot, lemma_dot_push, COEFF_LIMIT, FIT_LIMIT, N_LIMIT};

verus! {

/// The ratio `num / den`.  `den == 0` stands for a non-finite value.
#[derive(Clone, Copy, Debug, PartialEq, Eq, Structural)]
pub struct Fitness {
    pub num: i128,
    pub den: i128,
}

pub open spec fn fit_finite(f: Fitness) -> bool {
    f.den != 0
}

/// Magnitude bound under which the cross-multiplied comparison cannot
/// overflow.
pub open spec fn fit_bounded(f: Fitness) -> bool {
    &&& -FIT_LIMIT <= f.num <= FIT_LIMIT
    &&& -FIT_LIMIT <= f.den <= FIT_LIMIT
}

/// The strict order on fitness values: the exact rational comparison where
/// both sides are finite, and no ordering at all otherwise.
pub open spec fn fit_lt(a: Fitness, b: Fitness) -> bool {
    fit_finite(a) && fit_finite(b) && if a.den * b.den > 0 {
        a.num * b.den < b.num * a.den
    } else {
        a.num * b.den > b.num * a.den
    }
}

pub fn fitness_lt(a: &Fitness, b: &Fitness) -> (r: bool)
    requires
        fit_bounded(*a),
        fit_bounded(*b),
    ensures
        r == fit_lt(*a, *b),
{
    if a.den == 0 || b.den == 0 {
        false
    } else {
        proof {
            let l = FIT_LIMIT as int;
            assert(-(l * l) <= (a.num as int) * (b.den as int) <= l * l) by (nonlinear_arith)
                requires
                    -l <= a.num as int <= l,
                    -l <= b.den as int <= l,
            ;
            assert(-(l * l) <= (b.num as int) * (a.den as int) <= l * l) by (nonlinear_arith)
                requires
                    -l <= b.num as int <= l,
                    -l <= a.den as int <= l,
            ;
            assert(-(l * l) <= (a.den as int) * (b.den as int) <= l * l) by (nonlinear_arith)
                requires
                    -l <= a.den as int <= l,
                    -l <= b.den as int <= l,
            ;
        }
        let dd = a.den * b.den;
        let lhs = a.num * b.den;
        let rhs = b.num * a.den;
        if dd > 0 {
            lhs < rhs
        } else {
            lhs > rhs
        }
    }
}

/// The order never holds in both directions.
pub proof fn lemma_fit_lt_asymmetric(a: Fitness, b: Fitness)
    ensures
        !(fit_lt(a, b) && fit_lt(b, a)),
{
    assert((a.den as int) * (b.den as int) == (b.den as int) * (a.den as int)) by (
    nonlinear_arith);
    assert((a.num as int) * (b.den as int) == (b.den as int) * (a.num as int)) by (
    nonlinear_arith);
    assert((b.num as int) * (a.den as int) == (a.den as int) * (b.num as int)) by (
    nonlinear_arith);
}

/// A value never lies strictly below itself.
pub proof fn lemma_fit_lt_irreflexive(a: Fitness)
    ensures
        !fit_lt(a, a),
{
    if fit_finite(a) {
        assert((a.den as int) * (a.den as int) > 0) by (nonlinear_arith)
            requires
                a.den != 0,
        ;
    }
}

/// The exact dot product of a weight vector against a coefficient vector.
pub fn dot_product(p: &Vec<u64>, v: &Vec<i64>) -> (r: i128)
    requires
        p@.len() == v@.len(),
        p@.len() <= N_LIMIT,
        forall|i: int| 0 <= i < v@.len() ==> -COEFF_LIMIT <= #[trigger] v@[i] <= COEFF_LIMIT,
    ensures
        r == dot(p@, v@),
{
    let ghost m = (u64::MAX as int) * (COEFF_LIMIT as int);
    let n = p.len();
    let mut acc: i128 = 0;
    let mut i: usize = 0;
    while i < n
        invariant
            0 <= i <= n,
            n == p@.len(),
            p@.len() == v@.len(),
            n <= N_LIMIT,
            forall|k: int| 0 <= k < v@.len() ==> -COEFF_LIMIT <= #[trigger] v@[k] <= COEFF_LIMIT,
            m == (u64::MAX as int) * (COEFF_LIMIT as int),
            acc == dot(p@.subrange(0, i as int), v@.subrange(0, i as int)),
            -((i as int) * m) <= acc <= (i as int) * m,
        decreases n - i,
    {
        proof {
            lemma_dot_push(p@, v@, i as int);
            assert(-m <= (p@[i as int] as int) * (v@[i as int] as int) <= m) by (nonlinear_arith)
                requires
                    m == (u64::MAX as int) * (COEFF_LIMIT as int),
                    0 <= p@[i as int] as int <= u64::MAX as int,
                    -COEFF_LIMIT as int <= v@[i as int] as int <= COEFF_LIMIT as int,
            ;
            assert(((i as int) + 1) * m == (i as int) * m + m) by (nonlinear_arith);
            lemma_mul_inequality((i as int) + 1, N_LIMIT as int, m);
        }
        acc = acc + (p[i] as i128) * (v[i] as i128);
        i = i + 1;
    }
    proof {
        assert(p@.subrange(0, n as int) =~= p@);
        assert(v@.subrange(0, n as int) =~= v@);
    }
    acc
}

} // verus!
