//! The probability table: a weight for every catalog condition.
//!
//! A table is built once, by `sanitize`: the configured weights are kept
//! (uniformly rescaled down, with a warning, when they add up to more than
//! the whole probability mass), absent entries receive an equal share of the
//! remaining mass, and the result is normalized so the weights sum to exactly
//! `WEIGHT_SCALE`.

use vstd::prelude::*;

verus! {

use vstd::arithmetic::div_mod::{
    lemma_div_by_self, lemma_div_is_ordered, lemma_div_is_ordered_by_denominator,
    lemma_div_multiples_vanish, lemma_div_of0, lemma_div_pos_is_pos, lemma_fundamental_div_mod,
    lemma_mod_division_less_than_divisor,
};
use vstd::arithmetic::mul::lemma_mul_inequality;

use crate::catalog::{all_options, WeatherOptions, NUM_OPTIONS, WEIGHT_SCALE};
use crate::config::ConfigError;
use crate::sums::{
    cnt_prefix, lemma_div_sum_bounds, lemma_elem_le_sum, lemma_none_cnt_bounds,
    lemma_opt_elem_le_sum, lemma_opt_sum_nonneg, lemma_sum_pos_has_positive,
    lemma_sum_prefix_monotone, lemma_sum_prefix_nonneg, lemma_sum_update, none_cnt, opt_sum,
    sum_prefix,
};

/// Which conditions a draw may select: every one when rain is allowed,
/// only the dry ones otherwise.
pub open spec fn rain_allowed_mask(allow_rain: bool) -> Seq<bool> {
    Seq::new(
        NUM_OPTIONS as nat,
        |i: int| allow_rain || all_options()[i].rain_intensity_spec() == 0,
    )
}

/// How many conditions a draw could select: positive weight, and dry unless
/// rain is allowed.
pub open spec fn usable_count_spec(w: Seq<u64>, allow_rain: bool) -> int {
    cnt_prefix(w, rain_allowed_mask(allow_rain), NUM_OPTIONS as int)
}

/// The share an absent entry receives: the mass left below `WEIGHT_SCALE`,
/// divided evenly among the absent entries.
pub open spec fn spec_fill(inp: Seq<Option<u64>>) -> int {
    let acc = opt_sum(inp, NUM_OPTIONS as int);
    let miss = none_cnt(inp, NUM_OPTIONS as int);
    if acc > WEIGHT_SCALE {
        0
    } else if miss > 0 {
        (WEIGHT_SCALE - acc) / miss
    } else {
        0
    }
}

/// The full table before normalization: provided entries kept (rescaled down
/// when they overflow the whole mass), absent entries at the fill share.
pub open spec fn spec_filled(inp: Seq<Option<u64>>) -> Seq<u64> {
    let acc = opt_sum(inp, NUM_OPTIONS as int);
    Seq::new(
        NUM_OPTIONS as nat,
        |j: int|
            match inp[j] {
                Some(v) => if acc > WEIGHT_SCALE {
                    ((v * WEIGHT_SCALE) / acc) as u64
                } else {
                    v
                },
                None => spec_fill(inp) as u64,
            },
    )
}

/// Every weight scaled by `WEIGHT_SCALE / sum`, rounded down.
pub open spec fn norm_floor(w: Seq<u64>) -> Seq<u64> {
    let s = sum_prefix(w, w.len() as int);
    Seq::new(w.len(), |j: int| ((w[j] * WEIGHT_SCALE) / s) as u64)
}

/// Index of the first positive weight at or after `k`.
pub open spec fn first_positive_from(w: Seq<u64>, k: int) -> int
    decreases w.len() - k,
{
    if k < 0 || k >= w.len() {
        w.len() as int
    } else if w[k] > 0 {
        k
    } else {
        first_positive_from(w, k + 1)
    }
}

/// The normalized table: weights scaled down to the floor, and the rounding
/// deficit added to the first positive entry, so the sum is exact.
pub open spec fn spec_normalize(w: Seq<u64>) -> Seq<u64> {
    let nf = norm_floor(w);
    let d = WEIGHT_SCALE - sum_prefix(nf, w.len() as int);
    let fp = first_positive_from(w, 0);
    nf.update(fp, ((nf[fp] + d) as u64))
}

/// What `sanitize` builds from a partial configuration.
pub open spec fn spec_sanitized(inp: Seq<Option<u64>>) -> Seq<u64> {
    spec_normalize(spec_filled(inp))
}

/// A probability weight for every catalog condition, in catalog order.
#[derive(Debug)]
pub struct ProbabilityTable {
    weights: Vec<u64>,
}

impl View for ProbabilityTable {
    type V = Seq<u64>;

    closed spec fn view(&self) -> Seq<u64> {
        self.weights@
    }
}

impl ProbabilityTable {
    /// One weight per condition, summing to exactly the whole mass.
    pub open spec fn wf(self) -> bool {
        &&& self@.len() == NUM_OPTIONS
        &&& sum_prefix(self@, NUM_OPTIONS as int) == WEIGHT_SCALE
    }

    /// The weight of one condition.
    pub fn weight_of(&self, o: WeatherOptions) -> (w: u64)
        requires
            self@.len() == NUM_OPTIONS,
        ensures
            w == self@[o.index_spec()],
    {
        self.weights[o.index()]
    }

    /// The weight at one catalog position.
    pub fn weight_at(&self, i: usize) -> (w: u64)
        requires
            i < self@.len(),
        ensures
            w == self@[i as int],
    {
        self.weights[i]
    }

    /// Builds the table from a partial configuration, exactly as described by
    /// `spec_sanitized`; the flag reports whether the configured weights had
    /// to be rescaled because they added up to more than the whole mass.
    /// Fails only when every entry is configured and all of them are zero.
    pub fn sanitize(input: &Vec<Option<u64>>) -> (r: Result<(ProbabilityTable, bool), ConfigError>)
        requires
            input@.len() == NUM_OPTIONS,
        ensures
            match r {
                Ok(tw) => {
                    &&& tw.0@ == spec_sanitized(input@)
                    &&& tw.0.wf()
                    &&& tw.1 == (opt_sum(input@, NUM_OPTIONS as int) > WEIGHT_SCALE)
                    &&& !(opt_sum(input@, NUM_OPTIONS as int) == 0 && none_cnt(
                        input@,
                        NUM_OPTIONS as int,
                    ) == 0)
                },
                Err(e) => {
                    &&& e == ConfigError::NoProbabilityMass
                    &&& opt_sum(input@, NUM_OPTIONS as int) == 0
                    &&& none_cnt(input@, NUM_OPTIONS as int) == 0
                },
            },
    {
        let mut acc: u128 = 0;
        let mut i: usize = 0;
        while i < NUM_OPTIONS
            invariant
                input@.len() == NUM_OPTIONS,
                i <= NUM_OPTIONS,
                acc == opt_sum(input@, i as int),
                acc <= (i as int) * (u64::MAX as int),
            decreases NUM_OPTIONS - i,
        {
            if let Some(v) = input[i] {
                acc = acc + v as u128;
            }
            i = i + 1;
        }

        let mut miss: usize = 0;
        let mut i: usize = 0;
        while i < NUM_OPTIONS
            invariant
                input@.len() == NUM_OPTIONS,
                i <= NUM_OPTIONS,
                miss == none_cnt(input@, i as int),
                miss <= i,
            decreases NUM_OPTIONS - i,
        {
            if input[i].is_none() {
                miss = miss + 1;
            }
            i = i + 1;
        }

        if acc == 0 && miss == 0 {
            return Err(ConfigError::NoProbabilityMass);
        }

        let warned = acc > WEIGHT_SCALE as u128;
        let mut filled: Vec<u64> = Vec::new();
        if warned {
            let mut j: usize = 0;
            while j < NUM_OPTIONS
                invariant
                    input@.len() == NUM_OPTIONS,
                    acc == opt_sum(input@, NUM_OPTIONS as int),
                    acc > WEIGHT_SCALE,
                    j <= NUM_OPTIONS,
                    filled@.len() == j,
                    forall|t: int| 0 <= t < j ==> filled@[t] == spec_filled(input@)[t],
                decreases NUM_OPTIONS - j,
            {
                let val: u64 = match input[j] {
                    Some(v) => {
                        proof {
                            lemma_opt_elem_le_sum(input@, NUM_OPTIONS as int, j as int);
                            lemma_mul_inequality(
                                v as int,
                                acc as int,
                                WEIGHT_SCALE as int,
                            );
                            lemma_div_is_ordered(
                                v as int * WEIGHT_SCALE as int,
                                acc as int * WEIGHT_SCALE as int,
                                acc as int,
                            );
                            lemma_div_multiples_vanish(WEIGHT_SCALE as int, acc as int);
                            lemma_div_pos_is_pos(v as int * WEIGHT_SCALE as int, acc as int);
                        }
                        ((v as u128 * WEIGHT_SCALE as u128) / acc) as u64
                    },
                    None => 0,
                };
                filled.push(val);
                j = j + 1;
            }
        } else {
            let acc64: u64 = acc as u64;
            let fill: u64 = if miss > 0 {
                proof {
                    lemma_div_pos_is_pos(WEIGHT_SCALE - acc64 as int, miss as int);
                    lemma_div_is_ordered_by_denominator(
                        WEIGHT_SCALE - acc64 as int,
                        1,
                        miss as int,
                    );
                }
                (WEIGHT_SCALE - acc64) / (miss as u64)
            } else {
                0
            };
            assert(fill == spec_fill(input@));
            let mut j: usize = 0;
            while j < NUM_OPTIONS
                invariant
                    input@.len() == NUM_OPTIONS,
                    acc == opt_sum(input@, NUM_OPTIONS as int),
                    acc <= WEIGHT_SCALE,
                    fill == spec_fill(input@),
                    j <= NUM_OPTIONS,
                    filled@.len() == j,
                    forall|t: int| 0 <= t < j ==> filled@[t] == spec_filled(input@)[t],
                decreases NUM_OPTIONS - j,
            {
                let val: u64 = match input[j] {
                    Some(v) => v,
                    None => fill,
                };
                filled.push(val);
                j = j + 1;
            }
        }
        proof {
            assert(filled@ =~= spec_filled(input@));
            lemma_filled_total(input@);
            lemma_normalize_props(spec_filled(input@));
        }
        normalize_weights(&mut filled);
        Ok((ProbabilityTable { weights: filled }, warned))
    }

    /// How many conditions a draw could select: positive weight, and dry
    /// unless rain is allowed.
    pub fn usable_count(&self, allow_rain: bool) -> (n: usize)
        requires
            self@.len() == NUM_OPTIONS,
        ensures
            n == usable_count_spec(self@, allow_rain),
    {
        let opts = WeatherOptions::all();
        let mut n: usize = 0;
        let mut i: usize = 0;
        while i < NUM_OPTIONS
            invariant
                self@.len() == NUM_OPTIONS,
                opts@ == all_options(),
                i <= NUM_OPTIONS,
                n == cnt_prefix(self@, rain_allowed_mask(allow_rain), i as int),
                n <= i,
            decreases NUM_OPTIONS - i,
        {
            if self.weights[i] > 0 && (allow_rain || opts[i].rain_intensity() == 0) {
                n = n + 1;
            }
            i = i + 1;
        }
        n
    }
}

/// Scales every weight so the total becomes exactly `WEIGHT_SCALE`: each
/// entry is scaled down to the floor, and the rounding deficit is added to
/// the first positive entry.
fn normalize_weights(w: &mut Vec<u64>)
    requires
        old(w)@.len() == NUM_OPTIONS,
        0 < sum_prefix(old(w)@, NUM_OPTIONS as int) <= WEIGHT_SCALE,
    ensures
        final(w)@ == spec_normalize(old(w)@),
{
    let ghost orig = w@;
    let mut s: u64 = 0;
    let mut i: usize = 0;
    while i < NUM_OPTIONS
        invariant
            w@ == orig,
            orig.len() == NUM_OPTIONS,
            sum_prefix(orig, NUM_OPTIONS as int) <= WEIGHT_SCALE,
            i <= NUM_OPTIONS,
            s == sum_prefix(orig, i as int),
            s <= WEIGHT_SCALE,
        decreases NUM_OPTIONS - i,
    {
        proof {
            lemma_sum_prefix_monotone(orig, i as int + 1, NUM_OPTIONS as int);
        }
        s = s + w[i];
        i = i + 1;
    }
    assert(s == sum_prefix(orig, NUM_OPTIONS as int));

    let mut nf: Vec<u64> = Vec::new();
    let mut j: usize = 0;
    while j < NUM_OPTIONS
        invariant
            w@ == orig,
            orig.len() == NUM_OPTIONS,
            s == sum_prefix(orig, NUM_OPTIONS as int),
            0 < s <= WEIGHT_SCALE,
            j <= NUM_OPTIONS,
            nf@.len() == j,
            forall|t: int| 0 <= t < j ==> nf@[t] == norm_floor(orig)[t],
        decreases NUM_OPTIONS - j,
    {
        proof {
            lemma_norm_floor_at(orig, j as int);
            lemma_elem_le_sum(orig, NUM_OPTIONS as int, j as int);
            lemma_mul_inequality(orig[j as int] as int, s as int, WEIGHT_SCALE as int);
        }
        let val: u64 = (w[j] * WEIGHT_SCALE) / s;
        nf.push(val);
        j = j + 1;
    }
    assert(nf@ =~= norm_floor(orig));

    let mut t: u64 = 0;
    let mut i: usize = 0;
    while i < NUM_OPTIONS
        invariant
            orig.len() == NUM_OPTIONS,
            nf@ == norm_floor(orig),
            nf@.len() == NUM_OPTIONS,
            s == sum_prefix(orig, NUM_OPTIONS as int),
            0 < s <= WEIGHT_SCALE,
            i <= NUM_OPTIONS,
            t == sum_prefix(nf@, i as int),
            t <= WEIGHT_SCALE,
        decreases NUM_OPTIONS - i,
    {
        proof {
            lemma_norm_floor_prefix(orig, i as int + 1);
            lemma_sum_prefix_monotone(orig, i as int + 1, NUM_OPTIONS as int);
            lemma_mul_inequality(
                sum_prefix(orig, i as int + 1),
                s as int,
                WEIGHT_SCALE as int,
            );
            lemma_div_is_ordered(
                sum_prefix(orig, i as int + 1) * WEIGHT_SCALE,
                s as int * WEIGHT_SCALE,
                s as int,
            );
            lemma_div_multiples_vanish(WEIGHT_SCALE as int, s as int);
        }
        t = t + nf[i];
        i = i + 1;
    }
    assert(t == sum_prefix(norm_floor(orig), NUM_OPTIONS as int));
    let d: u64 = WEIGHT_SCALE - t;

    proof {
        lemma_sum_pos_has_positive(orig, NUM_OPTIONS as int);
        lemma_first_positive_from(orig, 0);
    }
    let ghost fp_spec = first_positive_from(orig, 0);
    let mut fp: usize = 0;
    while w[fp] == 0
        invariant
            w@ == orig,
            orig.len() == NUM_OPTIONS,
            0 <= fp_spec < NUM_OPTIONS,
            orig[fp_spec] > 0,
            forall|t2: int| 0 <= t2 < fp_spec ==> orig[t2] == 0,
            fp <= fp_spec,
        decreases NUM_OPTIONS - fp,
    {
        fp = fp + 1;
    }
    assert(fp == fp_spec);

    proof {
        lemma_elem_le_sum(nf@, NUM_OPTIONS as int, fp as int);
        lemma_sum_prefix_nonneg(nf@, fp as int);
    }
    let boosted: u64 = nf[fp] + d;
    nf[fp] = boosted;
    proof {
        assert(nf@ =~= spec_normalize(orig));
    }
    *w = nf;
}

/// The value, bounds and zero/positive behaviour of one floor-scaled entry.
proof fn lemma_norm_floor_at(w: Seq<u64>, j: int)
    requires
        w.len() == NUM_OPTIONS,
        0 < sum_prefix(w, NUM_OPTIONS as int),
        0 <= j < NUM_OPTIONS,
    ensures
        norm_floor(w)[j] == (w[j] * WEIGHT_SCALE) / sum_prefix(w, NUM_OPTIONS as int),
        norm_floor(w)[j] <= WEIGHT_SCALE,
        w[j] == 0 ==> norm_floor(w)[j] == 0,
        (w[j] > 0 && sum_prefix(w, NUM_OPTIONS as int) <= WEIGHT_SCALE) ==> norm_floor(w)[j]
            >= w[j],
{
    let s = sum_prefix(w, NUM_OPTIONS as int);
    lemma_elem_le_sum(w, NUM_OPTIONS as int, j);
    lemma_mul_inequality(w[j] as int, s, WEIGHT_SCALE as int);
    lemma_div_is_ordered(w[j] * WEIGHT_SCALE, s * WEIGHT_SCALE, s);
    lemma_div_multiples_vanish(WEIGHT_SCALE as int, s);
    lemma_div_pos_is_pos(w[j] * WEIGHT_SCALE, s);
    if w[j] == 0 {
        lemma_div_of0(s);
    }
    if w[j] > 0 && s <= WEIGHT_SCALE {
        lemma_div_is_ordered_by_denominator(w[j] * WEIGHT_SCALE, s, WEIGHT_SCALE as int);
        lemma_div_multiples_vanish(w[j] as int, WEIGHT_SCALE as int);
    }
}

/// The floor-scaled prefix sums sit within `k` of the exactly scaled value.
proof fn lemma_norm_floor_prefix(w: Seq<u64>, k: int)
    requires
        w.len() == NUM_OPTIONS,
        0 < sum_prefix(w, NUM_OPTIONS as int),
        0 <= k <= NUM_OPTIONS,
    ensures
        sum_prefix(norm_floor(w), k) <= sum_prefix(w, k) * WEIGHT_SCALE / sum_prefix(
            w,
            NUM_OPTIONS as int,
        ),
        sum_prefix(norm_floor(w), k) >= sum_prefix(w, k) * WEIGHT_SCALE / sum_prefix(
            w,
            NUM_OPTIONS as int,
        ) - k,
    decreases k,
{
    let s = sum_prefix(w, NUM_OPTIONS as int);
    if k == 0 {
        lemma_div_of0(s);
    } else {
        lemma_norm_floor_prefix(w, k - 1);
        lemma_norm_floor_at(w, k - 1);
        let p = sum_prefix(w, k - 1);
        let e = w[k - 1] as int;
        lemma_sum_prefix_nonneg(w, k - 1);
        lemma_div_sum_bounds(p * WEIGHT_SCALE, e * WEIGHT_SCALE, s);
        assert(p * WEIGHT_SCALE + e * WEIGHT_SCALE == (p + e) * WEIGHT_SCALE) by (nonlinear_arith);
    }
}

/// Characterizes the first positive index when some entry is positive.
proof fn lemma_first_positive_from(w: Seq<u64>, k: int)
    requires
        0 <= k,
        exists|i: int| k <= i < w.len() && w[i] > 0,
    ensures
        k <= first_positive_from(w, k) < w.len(),
        w[first_positive_from(w, k)] > 0,
        forall|i: int| k <= i < first_positive_from(w, k) ==> w[i] == 0,
    decreases w.len() - k,
{
    if k < w.len() && w[k] > 0 {
    } else {
        let i = choose|i: int| k <= i < w.len() && w[i] > 0;
        assert(k + 1 <= i < w.len() && w[i] > 0);
        lemma_first_positive_from(w, k + 1);
    }
}

/// Exact sum of the filled table when the configured mass fits, and bounds
/// when it had to be rescaled; in both cases the total is positive and at
/// most the whole mass, unless everything was configured to zero.
proof fn lemma_filled_sum_clamp(inp: Seq<Option<u64>>, k: int)
    requires
        inp.len() == NUM_OPTIONS,
        opt_sum(inp, NUM_OPTIONS as int) > WEIGHT_SCALE,
        0 <= k <= NUM_OPTIONS,
    ensures
        sum_prefix(spec_filled(inp), k) <= opt_sum(inp, k) * WEIGHT_SCALE / opt_sum(
            inp,
            NUM_OPTIONS as int,
        ),
        sum_prefix(spec_filled(inp), k) >= opt_sum(inp, k) * WEIGHT_SCALE / opt_sum(
            inp,
            NUM_OPTIONS as int,
        ) - k,
    decreases k,
{
    let acc = opt_sum(inp, NUM_OPTIONS as int);
    if k == 0 {
        lemma_div_of0(acc);
    } else {
        lemma_filled_sum_clamp(inp, k - 1);
        let p = opt_sum(inp, k - 1);
        lemma_opt_sum_nonneg(inp, k - 1);
        match inp[k - 1] {
            Some(v) => {
                lemma_opt_elem_le_sum(inp, NUM_OPTIONS as int, k - 1);
                lemma_mul_inequality(v as int, acc, WEIGHT_SCALE as int);
                lemma_div_is_ordered(v * WEIGHT_SCALE, acc * WEIGHT_SCALE, acc);
                lemma_div_multiples_vanish(WEIGHT_SCALE as int, acc);
                lemma_div_pos_is_pos(v * WEIGHT_SCALE, acc);
                lemma_div_sum_bounds(p * WEIGHT_SCALE, v * WEIGHT_SCALE, acc);
                assert(p * WEIGHT_SCALE + v * WEIGHT_SCALE == (p + v) * WEIGHT_SCALE)
                    by (nonlinear_arith);
            },
            None => {
            },
        }
    }
}

/// Exact sum of the filled table when the configured mass fits below the
/// whole: the provided mass plus the fill share for every absent entry.
proof fn lemma_filled_sum_keep(inp: Seq<Option<u64>>, k: int)
    requires
        inp.len() == NUM_OPTIONS,
        opt_sum(inp, NUM_OPTIONS as int) <= WEIGHT_SCALE,
        0 <= k <= NUM_OPTIONS,
    ensures
        sum_prefix(spec_filled(inp), k) == opt_sum(inp, k) + none_cnt(inp, k) * spec_fill(inp),
    decreases k,
{
    let acc = opt_sum(inp, NUM_OPTIONS as int);
    let miss = none_cnt(inp, NUM_OPTIONS as int);
    lemma_opt_sum_nonneg(inp, NUM_OPTIONS as int);
    if miss > 0 {
        lemma_div_pos_is_pos(WEIGHT_SCALE - acc, miss);
        lemma_div_is_ordered_by_denominator(WEIGHT_SCALE - acc, 1, miss);
        lemma_div_multiples_vanish(WEIGHT_SCALE - acc, 1);
    }
    if k > 0 {
        lemma_filled_sum_keep(inp, k - 1);
        assert((none_cnt(inp, k - 1) + 1) * spec_fill(inp) == none_cnt(inp, k - 1) * spec_fill(
            inp,
        ) + spec_fill(inp)) by (nonlinear_arith);
    }
}

/// The filled table's total is positive and at most the whole mass, as long
/// as not every entry was configured to zero.
proof fn lemma_filled_total(inp: Seq<Option<u64>>)
    requires
        inp.len() == NUM_OPTIONS,
        !(opt_sum(inp, NUM_OPTIONS as int) == 0 && none_cnt(inp, NUM_OPTIONS as int) == 0),
    ensures
        0 < sum_prefix(spec_filled(inp), NUM_OPTIONS as int) <= WEIGHT_SCALE,
{
    let acc = opt_sum(inp, NUM_OPTIONS as int);
    let miss = none_cnt(inp, NUM_OPTIONS as int);
    lemma_opt_sum_nonneg(inp, NUM_OPTIONS as int);
    lemma_none_cnt_bounds(inp, NUM_OPTIONS as int);
    if acc > WEIGHT_SCALE {
        lemma_filled_sum_clamp(inp, NUM_OPTIONS as int);
        lemma_div_multiples_vanish(WEIGHT_SCALE as int, acc);
    } else {
        lemma_filled_sum_keep(inp, NUM_OPTIONS as int);
        let fill = spec_fill(inp);
        if miss > 0 {
            lemma_fundamental_div_mod(WEIGHT_SCALE - acc, miss);
            lemma_mod_division_less_than_divisor(WEIGHT_SCALE - acc, miss);
            if acc == 0 {
                lemma_div_is_ordered_by_denominator(WEIGHT_SCALE as int, miss, WEIGHT_SCALE as int);
                lemma_div_by_self(WEIGHT_SCALE as int);
                lemma_mul_inequality(1, fill, miss);
            } else {
                lemma_div_pos_is_pos(WEIGHT_SCALE - acc, miss);
                assert(miss * fill >= 0) by (nonlinear_arith)
                    requires
                        miss >= 0,
                        fill >= 0,
                {}
            }
        }
    }
}

/// A table whose weights already sum to the whole mass is left unchanged by
/// normalization.
pub proof fn lemma_normalize_identity(w: Seq<u64>)
    requires
        w.len() == NUM_OPTIONS,
        sum_prefix(w, NUM_OPTIONS as int) == WEIGHT_SCALE,
    ensures
        spec_normalize(w) == w,
{
    lemma_normalize_props(w);
}

/// What normalization guarantees: the exact total, preservation of zero and
/// positive entries (no entry shrinks), and that an already normalized table
/// is left unchanged.
proof fn lemma_normalize_props(w: Seq<u64>)
    requires
        w.len() == NUM_OPTIONS,
        0 < sum_prefix(w, NUM_OPTIONS as int) <= WEIGHT_SCALE,
    ensures
        spec_normalize(w).len() == NUM_OPTIONS,
        sum_prefix(spec_normalize(w), NUM_OPTIONS as int) == WEIGHT_SCALE,
        forall|j: int| 0 <= j < NUM_OPTIONS ==> ((w[j] == 0) <==> (spec_normalize(w)[j] == 0)),
        forall|j: int| 0 <= j < NUM_OPTIONS ==> spec_normalize(w)[j] >= w[j],
        sum_prefix(w, NUM_OPTIONS as int) == WEIGHT_SCALE ==> spec_normalize(w) == w,
{
    let s = sum_prefix(w, NUM_OPTIONS as int);
    let nf = norm_floor(w);
    let t = sum_prefix(nf, NUM_OPTIONS as int);
    let d = WEIGHT_SCALE - t;
    lemma_sum_pos_has_positive(w, NUM_OPTIONS as int);
    lemma_first_positive_from(w, 0);
    let fp = first_positive_from(w, 0);
    assert forall|j: int| 0 <= j < NUM_OPTIONS implies nf[j] == (w[j] * WEIGHT_SCALE) / s && (
    w[j] == 0 <==> nf[j] == 0) && nf[j] >= w[j] by {
        lemma_norm_floor_at(w, j);
        if w[j] > 0 {
        } else {
        }
    }
    lemma_norm_floor_prefix(w, NUM_OPTIONS as int);
    lemma_mul_inequality(s, s, WEIGHT_SCALE as int);
    lemma_div_is_ordered(s * WEIGHT_SCALE, s * WEIGHT_SCALE, s);
    lemma_div_multiples_vanish(WEIGHT_SCALE as int, s);
    assert(t <= WEIGHT_SCALE);
    assert(t >= WEIGHT_SCALE - NUM_OPTIONS);
    lemma_sum_update(nf, fp, ((nf[fp] + d) as u64), NUM_OPTIONS as int);
    lemma_elem_le_sum(nf, NUM_OPTIONS as int, fp);
    lemma_sum_prefix_nonneg(nf, NUM_OPTIONS as int);
    if s == WEIGHT_SCALE {
        assert forall|j: int| 0 <= j < NUM_OPTIONS implies nf[j] == w[j] by {
            lemma_norm_floor_at(w, j);
            lemma_div_multiples_vanish(w[j] as int, WEIGHT_SCALE as int);
        }
        assert(nf =~= w);
        assert(spec_normalize(w) =~= w);
    }
}

} // verus!
