//! Sums and counts over weight vectors, with and without an eligibility mask.
//!
//! Probability weights live in `Seq<u64>`; a mask (`Seq<bool>`) selects which
//! entries take part in a draw. All sampling contracts are stated over the
//! prefix sums defined here.

use vstd::prelude::*;

verus! {

use vstd::arithmetic::div_mod::{
    lemma_fundamental_div_mod, lemma_mod_division_less_than_divisor,
};

/// Sum of the first `k` weights.
pub open spec fn sum_prefix(w: Seq<u64>, k: int) -> int
    decreases k,
{
    if k <= 0 {
        0
    } else {
        sum_prefix(w, k - 1) + w[k - 1]
    }
}

/// Sum of the first `k` weights whose mask bit is set.
pub open spec fn masked_prefix(w: Seq<u64>, m: Seq<bool>, k: int) -> int
    decreases k,
{
    if k <= 0 {
        0
    } else {
        masked_prefix(w, m, k - 1) + if m[k - 1] {
            w[k - 1] as int
        } else {
            0
        }
    }
}

/// Number of the first `k` entries that are masked in and carry positive weight.
pub open spec fn cnt_prefix(w: Seq<u64>, m: Seq<bool>, k: int) -> int
    decreases k,
{
    if k <= 0 {
        0
    } else {
        cnt_prefix(w, m, k - 1) + if m[k - 1] && w[k - 1] > 0 {
            1int
        } else {
            0
        }
    }
}

pub proof fn lemma_sum_prefix_nonneg(w: Seq<u64>, k: int)
    ensures
        sum_prefix(w, k) >= 0,
    decreases k,
{
    if k > 0 {
        lemma_sum_prefix_nonneg(w, k - 1);
    }
}

pub proof fn lemma_masked_prefix_nonneg(w: Seq<u64>, m: Seq<bool>, k: int)
    ensures
        masked_prefix(w, m, k) >= 0,
    decreases k,
{
    if k > 0 {
        lemma_masked_prefix_nonneg(w, m, k - 1);
    }
}

pub proof fn lemma_masked_le_sum(w: Seq<u64>, m: Seq<bool>, k: int)
    ensures
        masked_prefix(w, m, k) <= sum_prefix(w, k),
    decreases k,
{
    if k > 0 {
        lemma_masked_le_sum(w, m, k - 1);
    }
}

/// A single weight never exceeds the sum of a prefix that contains it.
pub proof fn lemma_elem_le_sum(w: Seq<u64>, k: int, i: int)
    requires
        0 <= i < k,
    ensures
        w[i] <= sum_prefix(w, k),
    decreases k,
{
    if i == k - 1 {
        lemma_sum_prefix_nonneg(w, k - 1);
    } else {
        lemma_elem_le_sum(w, k - 1, i);
    }
}

/// A masked-in positive entry makes the masked sum positive.
pub proof fn lemma_masked_pos_of_member(w: Seq<u64>, m: Seq<bool>, k: int, i: int)
    requires
        0 <= i < k,
        m[i],
        w[i] > 0,
    ensures
        masked_prefix(w, m, k) > 0,
    decreases k,
{
    if i == k - 1 {
        lemma_masked_prefix_nonneg(w, m, k - 1);
    } else {
        lemma_masked_pos_of_member(w, m, k - 1, i);
    }
}

/// A positive eligible count makes the masked sum positive.
pub proof fn lemma_cnt_pos_implies_masked_pos(w: Seq<u64>, m: Seq<bool>, k: int)
    requires
        cnt_prefix(w, m, k) > 0,
    ensures
        masked_prefix(w, m, k) > 0,
    decreases k,
{
    if k > 0 {
        if m[k - 1] && w[k - 1] > 0 {
            lemma_masked_prefix_nonneg(w, m, k - 1);
        } else {
            lemma_cnt_pos_implies_masked_pos(w, m, k - 1);
        }
    }
}

/// Masking one entry out removes exactly its contribution from the sum.
pub proof fn lemma_masked_update_false(w: Seq<u64>, m: Seq<bool>, j: int, k: int)
    requires
        0 <= j < m.len(),
        k <= m.len(),
        m[j],
    ensures
        masked_prefix(w, m.update(j, false), k) == masked_prefix(w, m, k) - if j < k {
            w[j] as int
        } else {
            0
        },
        cnt_prefix(w, m.update(j, false), k) == cnt_prefix(w, m, k) - if j < k && w[j] > 0 {
            1int
        } else {
            0
        },
    decreases k,
{
    if k > 0 {
        lemma_masked_update_false(w, m, j, k - 1);
    }
}

pub proof fn lemma_sum_prefix_monotone(w: Seq<u64>, k1: int, k2: int)
    requires
        k1 <= k2,
    ensures
        sum_prefix(w, k1) <= sum_prefix(w, k2),
    decreases k2 - k1,
{
    if k1 < k2 {
        lemma_sum_prefix_monotone(w, k1, k2 - 1);
    }
}

/// Replacing one entry shifts the sum by the difference.
pub proof fn lemma_sum_update(w: Seq<u64>, j: int, v: u64, k: int)
    requires
        0 <= j < w.len(),
        k <= w.len(),
    ensures
        sum_prefix(w.update(j, v), k) == sum_prefix(w, k) + if j < k {
            v - w[j]
        } else {
            0
        },
    decreases k,
{
    if k > 0 {
        lemma_sum_update(w, j, v, k - 1);
    }
}

/// A positive sum comes from some positive entry.
pub proof fn lemma_sum_pos_has_positive(w: Seq<u64>, k: int)
    requires
        sum_prefix(w, k) > 0,
    ensures
        exists|i: int| 0 <= i < k && w[i] > 0,
    decreases k,
{
    if k > 0 {
        if w[k - 1] > 0 {
            assert(w[k - 1] > 0);
        } else {
            lemma_sum_pos_has_positive(w, k - 1);
            let i = choose|i: int| 0 <= i < k - 1 && w[i] > 0;
            assert(0 <= i < k && w[i] > 0);
        }
    }
}

/// A masked-in positive entry makes the eligible count positive.
pub proof fn lemma_cnt_pos_of_member(w: Seq<u64>, m: Seq<bool>, k: int, i: int)
    requires
        0 <= i < k,
        m[i],
        w[i] > 0,
    ensures
        cnt_prefix(w, m, k) > 0,
    decreases k,
{
    if i == k - 1 {
        lemma_cnt_nonneg(w, m, k - 1);
    } else {
        lemma_cnt_pos_of_member(w, m, k - 1, i);
    }
}

pub proof fn lemma_cnt_nonneg(w: Seq<u64>, m: Seq<bool>, k: int)
    ensures
        cnt_prefix(w, m, k) >= 0,
    decreases k,
{
    if k > 0 {
        lemma_cnt_nonneg(w, m, k - 1);
    }
}

/// Widening the mask can only let the eligible count grow.
pub proof fn lemma_cnt_subset_mask(w: Seq<u64>, m1: Seq<bool>, m2: Seq<bool>, k: int)
    requires
        forall|i: int| 0 <= i < k ==> (m1[i] ==> m2[i]),
    ensures
        cnt_prefix(w, m1, k) <= cnt_prefix(w, m2, k),
    decreases k,
{
    if k > 0 {
        lemma_cnt_subset_mask(w, m1, m2, k - 1);
    }
}

/// A fully present option table sums like the underlying weights and has no
/// absent entries.
pub proof fn lemma_opt_sum_of_some(inp: Seq<Option<u64>>, w: Seq<u64>, k: int)
    requires
        forall|j: int| 0 <= j < k ==> inp[j] == Some(w[j]),
    ensures
        opt_sum(inp, k) == sum_prefix(w, k),
        none_cnt(inp, k) == 0,
    decreases k,
{
    if k > 0 {
        lemma_opt_sum_of_some(inp, w, k - 1);
    }
}

/// Sum of the values of the entries that are present.
pub open spec fn opt_sum(inp: Seq<Option<u64>>, k: int) -> int
    decreases k,
{
    if k <= 0 {
        0
    } else {
        opt_sum(inp, k - 1) + match inp[k - 1] {
            Some(v) => v as int,
            None => 0,
        }
    }
}

/// Number of absent entries.
pub open spec fn none_cnt(inp: Seq<Option<u64>>, k: int) -> int
    decreases k,
{
    if k <= 0 {
        0
    } else {
        none_cnt(inp, k - 1) + if inp[k - 1] is None {
            1int
        } else {
            0
        }
    }
}

pub proof fn lemma_opt_sum_nonneg(inp: Seq<Option<u64>>, k: int)
    ensures
        opt_sum(inp, k) >= 0,
    decreases k,
{
    if k > 0 {
        lemma_opt_sum_nonneg(inp, k - 1);
    }
}

pub proof fn lemma_none_cnt_bounds(inp: Seq<Option<u64>>, k: int)
    requires
        k >= 0,
    ensures
        0 <= none_cnt(inp, k) <= k,
    decreases k,
{
    if k > 0 {
        lemma_none_cnt_bounds(inp, k - 1);
    }
}

/// A present value never exceeds the sum of a prefix that contains it.
pub proof fn lemma_opt_elem_le_sum(inp: Seq<Option<u64>>, k: int, i: int)
    requires
        0 <= i < k,
        inp[i] is Some,
    ensures
        inp[i]->0 <= opt_sum(inp, k),
    decreases k,
{
    if i == k - 1 {
        lemma_opt_sum_nonneg(inp, k - 1);
    } else {
        lemma_opt_elem_le_sum(inp, k - 1, i);
    }
}

/// Floor division distributes over a sum up to a deficit of one.
pub proof fn lemma_div_sum_bounds(a: int, b: int, d: int)
    requires
        0 <= a,
        0 <= b,
        0 < d,
    ensures
        a / d + b / d <= (a + b) / d <= a / d + b / d + 1,
{
    lemma_fundamental_div_mod(a, d);
    lemma_fundamental_div_mod(b, d);
    lemma_fundamental_div_mod(a + b, d);
    lemma_mod_division_less_than_divisor(a, d);
    lemma_mod_division_less_than_divisor(b, d);
    lemma_mod_division_less_than_divisor(a + b, d);
    let qa = a / d;
    let qb = b / d;
    let qs = (a + b) / d;
    assert(qa + qb <= qs <= qa + qb + 1) by (nonlinear_arith)
        requires
            a == d * qa + a % d,
            b == d * qb + b % d,
            a + b == d * qs + (a + b) % d,
            0 <= a % d < d,
            0 <= b % d < d,
            0 <= (a + b) % d < d,
            0 < d,
    {}
}

} // verus!
