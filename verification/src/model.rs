//! Fixed-point scalar model and the spec-level vector arithmetic the
//! contracts are stated over.

use vstd::prelude::*;

verus! {

/// One whole unit of weight: a position entry `w` stands for the real
/// weight `w / WEIGHT_SCALE`, and a full position sums to `WEIGHT_SCALE`.
pub const WEIGHT_SCALE: u64 = 1_000_000;

/// One hundred-thousandth of a weight unit.  Entries strictly below it
/// count as "not held" by the strict validity rule; the minimum-entry
/// reduction considers only entries strictly above it.
pub const ASSET_EPSILON: u64 = 10;

/// Bound on the magnitude of an objective or risk coefficient.
pub const COEFF_LIMIT: i64 = 1_000_000_000;

/// Bound on the magnitude of a (scaled) hyperparameter coefficient.
pub const ACCEL_LIMIT: i64 = 100_000_000;

/// Velocities are saturated into `[-VEL_LIMIT, VEL_LIMIT]`.
pub const VEL_LIMIT: i64 = 1_000_000_000;

/// Bound on an unnormalised position entry handed to `renormalize`.
pub const RAW_LIMIT: u64 = 2_100_000_000;

/// Bound on the asset count.
pub const N_LIMIT: usize = 1_000_000;

/// Bound on the magnitude of a fitness numerator or denominator that the
/// ordering functions accept.
pub const FIT_LIMIT: i128 = 1_000_000_000_000_000;

/// Stand-in for "no entry found" in the minimum-entry reduction.
pub const MIN_SENTINEL: i64 = i64::MAX;

pub open spec fn sum_weights(s: Seq<u64>) -> int
    decreases s.len(),
{
    if s.len() == 0 {
        0
    } else {
        sum_weights(s.drop_last()) + s.last()
    }
}

pub open spec fn dot(p: Seq<u64>, v: Seq<i64>) -> int
    decreases p.len(),
{
    if p.len() == 0 || v.len() == 0 {
        0
    } else {
        dot(p.drop_last(), v.drop_last()) + p.last() * v.last()
    }
}

pub open spec fn count_enabled(m: Seq<bool>) -> int
    decreases m.len(),
{
    if m.len() == 0 {
        0
    } else {
        count_enabled(m.drop_last()) + if m.last() {
            1int
        } else {
            0int
        }
    }
}

/// How many entries reach at least the bound `b`.
pub open spec fn count_at_least(s: Seq<u64>, b: u64) -> int
    decreases s.len(),
{
    if s.len() == 0 {
        0
    } else {
        count_at_least(s.drop_last(), b) + if s.last() >= b {
            1int
        } else {
            0int
        }
    }
}

pub proof fn lemma_sum_nonneg(s: Seq<u64>)
    ensures
        sum_weights(s) >= 0,
    decreases s.len(),
{
    if s.len() > 0 {
        lemma_sum_nonneg(s.drop_last());
    }
}

pub proof fn lemma_entry_le_sum(s: Seq<u64>, i: int)
    requires
        0 <= i < s.len(),
    ensures
        s[i] <= sum_weights(s),
    decreases s.len(),
{
    if i == s.len() - 1 {
        lemma_sum_nonneg(s.drop_last());
    } else {
        lemma_entry_le_sum(s.drop_last(), i);
    }
}

pub proof fn lemma_sum_update(s: Seq<u64>, i: int, v: u64)
    requires
        0 <= i < s.len(),
    ensures
        sum_weights(s.update(i, v)) == sum_weights(s) - s[i] + v,
    decreases s.len(),
{
    if i == s.len() - 1 {
        assert(s.update(i, v).drop_last() =~= s.drop_last());
        assert(s.update(i, v).last() == v);
    } else {
        assert(s.update(i, v).drop_last() =~= s.drop_last().update(i, v));
        assert(s.update(i, v).last() == s.last());
        lemma_sum_update(s.drop_last(), i, v);
    }
}

pub proof fn lemma_sum_all_zero(s: Seq<u64>)
    requires
        forall|i: int| 0 <= i < s.len() ==> s[i] == 0,
    ensures
        sum_weights(s) == 0,
    decreases s.len(),
{
    if s.len() > 0 {
        lemma_sum_all_zero(s.drop_last());
    }
}

pub proof fn lemma_sum_prefix_le(s: Seq<u64>, i: int)
    requires
        0 <= i <= s.len(),
    ensures
        sum_weights(s.subrange(0, i)) <= sum_weights(s),
    decreases s.len(),
{
    if i == s.len() {
        assert(s.subrange(0, i) =~= s);
    } else {
        assert(s.subrange(0, i) =~= s.drop_last().subrange(0, i));
        lemma_sum_prefix_le(s.drop_last(), i);
    }
}

pub proof fn lemma_sum_push(s: Seq<u64>, i: int)
    requires
        0 <= i < s.len(),
    ensures
        sum_weights(s.subrange(0, i + 1)) == sum_weights(s.subrange(0, i)) + s[i],
{
    assert(s.subrange(0, i + 1).drop_last() =~= s.subrange(0, i));
    assert(s.subrange(0, i + 1).last() == s[i]);
}

pub proof fn lemma_dot_push(p: Seq<u64>, v: Seq<i64>, i: int)
    requires
        p.len() == v.len(),
        0 <= i < p.len(),
    ensures
        dot(p.subrange(0, i + 1), v.subrange(0, i + 1)) == dot(p.subrange(0, i), v.subrange(0, i))
            + p[i] * v[i],
{
    assert(p.subrange(0, i + 1).drop_last() =~= p.subrange(0, i));
    assert(v.subrange(0, i + 1).drop_last() =~= v.subrange(0, i));
    assert(p.subrange(0, i + 1).last() == p[i]);
    assert(v.subrange(0, i + 1).last() == v[i]);
}

pub proof fn lemma_count_at_least_push(s: Seq<u64>, b: u64, i: int)
    requires
        0 <= i < s.len(),
    ensures
        count_at_least(s.subrange(0, i + 1), b) == count_at_least(s.subrange(0, i), b) + if s[i]
            >= b {
            1int
        } else {
            0int
        },
{
    assert(s.subrange(0, i + 1).drop_last() =~= s.subrange(0, i));
    assert(s.subrange(0, i + 1).last() == s[i]);
}

pub proof fn lemma_count_enabled_update(m: Seq<bool>, i: int)
    requires
        0 <= i < m.len(),
        m[i],
    ensures
        count_enabled(m.update(i, false)) == count_enabled(m) - 1,
    decreases m.len(),
{
    if i == m.len() - 1 {
        assert(m.update(i, false).drop_last() =~= m.drop_last());
        assert(m.update(i, false).last() == false);
    } else {
        assert(m.update(i, false).drop_last() =~= m.drop_last().update(i, false));
        assert(m.update(i, false).last() == m.last());
        lemma_count_enabled_update(m.drop_last(), i);
    }
}

pub proof fn lemma_count_enabled_all_false(m: Seq<bool>)
    requires
        forall|i: int| 0 <= i < m.len() ==> !m[i],
    ensures
        count_enabled(m) == 0,
    decreases m.len(),
{
    if m.len() > 0 {
        lemma_count_enabled_all_false(m.drop_last());
    }
}

pub proof fn lemma_count_enabled_all_true(m: Seq<bool>)
    requires
        forall|i: int| 0 <= i < m.len() ==> m[i],
    ensures
        count_enabled(m) == m.len(),
    decreases m.len(),
{
    if m.len() > 0 {
        lemma_count_enabled_all_true(m.drop_last());
    }
}

/// A dot product against coefficients of magnitude at most `c` is bounded by
/// `c` times the total weight.
pub proof fn lemma_dot_bound(p: Seq<u64>, v: Seq<i64>, c: int)
    requires
        p.len() == v.len(),
        c >= 0,
        forall|i: int| 0 <= i < v.len() ==> -c <= #[trigger] v[i] <= c,
    ensures
        -(sum_weights(p) * c) <= dot(p, v) <= sum_weights(p) * c,
    decreases p.len(),
{
    if p.len() == 0 {
    } else {
        lemma_dot_bound(p.drop_last(), v.drop_last(), c);
        lemma_sum_nonneg(p.drop_last());
        let pl = p.last() as int;
        let vl = v.last() as int;
        let sd = sum_weights(p.drop_last());
        assert(-(pl * c) <= pl * vl <= pl * c) by (nonlinear_arith)
            requires
                0 <= pl,
                -c <= vl <= c,
        ;
        assert((sd + pl) * c == sd * c + pl * c) by (nonlinear_arith);
    }
}

/// The index of the first entry holding the maximum value.
pub open spec fn first_max_index(s: Seq<u64>) -> int
    decreases s.len(),
{
    if s.len() <= 1 {
        0
    } else {
        let j = first_max_index(s.drop_last());
        if s.last() > s[j] {
            s.len() - 1
        } else {
            j
        }
    }
}

pub proof fn lemma_first_max(s: Seq<u64>)
    requires
        s.len() >= 1,
    ensures
        0 <= first_max_index(s) < s.len(),
        forall|i: int| 0 <= i < s.len() ==> #[trigger] s[i] <= s[first_max_index(s)],
        sum_weights(s) > 0 ==> s[first_max_index(s)] > 0,
    decreases s.len(),
{
    if s.len() == 1 {
        assert(s.drop_last().len() == 0);
    } else {
        lemma_first_max(s.drop_last());
        lemma_sum_nonneg(s.drop_last());
        let j = first_max_index(s.drop_last());
        assert(forall|i: int| 0 <= i < s.len() - 1 ==> s[i] == s.drop_last()[i]);
        if sum_weights(s) > 0 {
            if sum_weights(s.drop_last()) > 0 {
                assert(s[j] > 0);
            } else {
                assert(s.last() > 0);
            }
        }
    }
}

/// Floor of `r` scaled into `WEIGHT_SCALE` parts of `total`.
pub open spec fn scaled_floor(r: int, total: int) -> int {
    r * (WEIGHT_SCALE as int) / total
}

pub open spec fn floor_sum(s: Seq<u64>, total: int) -> int
    decreases s.len(),
{
    if s.len() == 0 {
        0
    } else {
        floor_sum(s.drop_last(), total) + scaled_floor(s.last() as int, total)
    }
}

pub proof fn lemma_floor_sum_push(s: Seq<u64>, total: int, i: int)
    requires
        0 <= i < s.len(),
    ensures
        floor_sum(s.subrange(0, i + 1), total) == floor_sum(s.subrange(0, i), total)
            + scaled_floor(s[i] as int, total),
{
    assert(s.subrange(0, i + 1).drop_last() =~= s.subrange(0, i));
    assert(s.subrange(0, i + 1).last() == s[i]);
}

/// What renormalisation yields: each entry is scaled down by the exact
/// rational factor `WEIGHT_SCALE / sum` and floored, and the rounding
/// deficit is handed to the first largest entry, so the result sums to
/// exactly `WEIGHT_SCALE`.
pub open spec fn normalized(raw: Seq<u64>) -> Seq<u64> {
    let s = sum_weights(raw);
    Seq::new(
        raw.len(),
        |i: int|
            (scaled_floor(raw[i] as int, s) + if i == first_max_index(raw) {
                WEIGHT_SCALE - floor_sum(raw, s)
            } else {
                0int
            }) as u64,
    )
}

} // verus!
