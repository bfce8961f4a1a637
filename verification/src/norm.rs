//! Exact renormalisation of a raw weight vector onto the fixed-point
//! budget: the result always sums to `WEIGHT_SCALE`.

use vstd::prelude::*;
use vstd::arithmetic::div_mod::{
    lemma_div_is_ordered, lemma_div_multiples_vanish, lemma_fundamental_div_mod, lemma_mod_bound,
};
use vstd::arithmetic::mul::lemma_mul_inequality;
use crate::model::{
    first_max_index, floor_sum, lemma_entry_le_sum, lemma_first_max, lemma_floor_sum_push,
    lemma_sum_prefix_le, lemma_sum_push, lemma_sum_update, normalized, scaled_floor, sum_weights,
    N_LIMIT, RAW_LIMIT, WEIGHT_SCALE,
};

verus! {

/// Scales each entry by the exact rational `WEIGHT_SCALE / sum`, flooring,
/// and hands the rounding deficit to the first largest entry, so that the
/// result sums to exactly `WEIGHT_SCALE`.  Entries that were zero stay zero.
pub fn renormalize(raw: &Vec<u64>) -> (p: Vec<u64>)
    requires
        1 <= raw@.len() <= N_LIMIT,
        forall|i: int| 0 <= i < raw@.len() ==> #[trigger] raw@[i] <= RAW_LIMIT,
        sum_weights(raw@) > 0,
    ensures
        p@.len() == raw@.len(),
        p@ == normalized(raw@),
        sum_weights(p@) == WEIGHT_SCALE,
        forall|i: int| 0 <= i < raw@.len() && raw@[i] == 0 ==> #[trigger] p@[i] == 0,
        forall|i: int| 0 <= i < p@.len() ==> #[trigger] p@[i] <= WEIGHT_SCALE,
{
    let n = raw.len();

    let mut s: u64 = 0;
    let mut i: usize = 0;
    while i < n
        invariant
            0 <= i <= n,
            n == raw@.len() <= N_LIMIT,
            forall|k: int| 0 <= k < n ==> #[trigger] raw@[k] <= RAW_LIMIT,
            s == sum_weights(raw@.subrange(0, i as int)),
            s <= (i as int) * (RAW_LIMIT as int),
        decreases n - i,
    {
        proof {
            lemma_sum_push(raw@, i as int);
            assert((i as int) * (RAW_LIMIT as int) + (RAW_LIMIT as int) == ((i as int) + 1) * (
            RAW_LIMIT as int)) by (nonlinear_arith);
            lemma_mul_inequality((i as int) + 1, N_LIMIT as int, RAW_LIMIT as int);
        }
        s = s + raw[i];
        i = i + 1;
    }
    proof {
        assert(raw@.subrange(0, n as int) =~= raw@);
        lemma_mul_inequality(n as int, N_LIMIT as int, RAW_LIMIT as int);
    }

    let mut fm: usize = 0;
    let mut i: usize = 1;
    while i < n
        invariant
            1 <= i <= n,
            n == raw@.len(),
            0 <= fm < i,
            fm as int == first_max_index(raw@.subrange(0, i as int)),
        decreases n - i,
    {
        proof {
            assert(raw@.subrange(0, i as int + 1).drop_last() =~= raw@.subrange(0, i as int));
            assert(raw@.subrange(0, i as int + 1).last() == raw@[i as int]);
        }
        if raw[i] > raw[fm] {
            fm = i;
        }
        i = i + 1;
    }
    proof {
        assert(raw@.subrange(0, n as int) =~= raw@);
        if n == 1 {
            assert(first_max_index(raw@) == 0);
        }
        lemma_first_max(raw@);
    }

    let mut p: Vec<u64> = Vec::new();
    let mut ft: u64 = 0;
    let mut i: usize = 0;
    while i < n
        invariant
            0 <= i <= n,
            n == raw@.len() <= N_LIMIT,
            forall|k: int| 0 <= k < n ==> #[trigger] raw@[k] <= RAW_LIMIT,
            0 < s == sum_weights(raw@),
            s <= (N_LIMIT as int) * (RAW_LIMIT as int),
            p@.len() == i,
            forall|k: int| 0 <= k < i ==> #[trigger] p@[k] as int == scaled_floor(
                raw@[k] as int,
                s as int,
            ),
            forall|k: int| 0 <= k < i ==> #[trigger] p@[k] <= WEIGHT_SCALE,
            ft == floor_sum(raw@.subrange(0, i as int), s as int),
            sum_weights(p@) == ft,
            (s as int) * (ft as int) <= (WEIGHT_SCALE as int) * sum_weights(
                raw@.subrange(0, i as int),
            ),
            ft <= WEIGHT_SCALE,
        decreases n - i,
    {
        let q128: u128 = (raw[i] as u128) * (WEIGHT_SCALE as u128) / (s as u128);
        let ghost ri = raw@[i as int] as int;
        let ghost si = s as int;
        let ghost w = WEIGHT_SCALE as int;
        proof {
            lemma_entry_le_sum(raw@, i as int);
            lemma_mul_inequality(ri, si, w);
            lemma_div_is_ordered(ri * w, si * w, si);
            lemma_div_multiples_vanish(w, si);
            assert(si * w == w * si) by (nonlinear_arith);
            assert(q128 as int == scaled_floor(ri, si));
            assert(scaled_floor(ri, si) <= w);
            lemma_fundamental_div_mod(ri * w, si);
            lemma_mod_bound(ri * w, si);
        }
        let q: u64 = q128 as u64;
        let ghost qi = q as int;
        proof {
            let pre = sum_weights(raw@.subrange(0, i as int));
            lemma_sum_push(raw@, i as int);
            lemma_sum_prefix_le(raw@, i as int + 1);
            lemma_floor_sum_push(raw@, s as int, i as int);
            // s * (ft + q) <= w * (pre + raw[i])
            assert(si * (ft as int + qi) <= w * (pre + ri)) by (nonlinear_arith)
                requires
                    si * (ft as int) <= w * pre,
                    si * qi <= ri * w,
            ;
            // the new floor total still fits under the scale
            assert(ft as int + qi <= w) by (nonlinear_arith)
                requires
                    si >= 1,
                    si * (ft as int + qi) <= w * (pre + ri),
                    pre + ri <= si,
                    w > 0,
                    ft as int + qi >= 0,
            ;
        }
        let ghost p_prev = p@;
        p.push(q);
        proof {
            assert(p@.drop_last() =~= p_prev);
        }
        ft = ft + q;
        i = i + 1;
    }
    proof {
        assert(raw@.subrange(0, n as int) =~= raw@);
    }

    let d: u64 = WEIGHT_SCALE - ft;
    proof {
        lemma_entry_le_sum(p@, fm as int);
    }
    let pf = p[fm];
    let topped: u64 = pf + d;
    let ghost p_before = p@;
    p[fm] = topped;
    proof {
        lemma_sum_update(p_before, fm as int, topped);
        assert forall|k: int| 0 <= k < n implies p@[k] == normalized(raw@)[k] by {
            if k == fm as int {
                assert(p@[k] as int == scaled_floor(raw@[k] as int, s as int) + (
                WEIGHT_SCALE as int - floor_sum(raw@, s as int)));
            } else {
                assert(p@[k] as int == scaled_floor(raw@[k] as int, s as int));
            }
        }
        assert(p@ =~= normalized(raw@));
        assert forall|k: int| 0 <= k < n && raw@[k] == 0 implies #[trigger] p@[k] == 0 by {
            assert(raw@[fm as int] > 0);
            assert(scaled_floor(0, s as int) == 0);
        }
        assert forall|k: int| 0 <= k < p@.len() implies #[trigger] p@[k] <= WEIGHT_SCALE by {
            if k == fm as int {
                assert(p@[k] == topped);
            } else {
                assert(p@[k] == p_before[k]);
            }
        }
    }
    p
}

} // verus!
