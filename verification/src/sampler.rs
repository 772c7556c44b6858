//! Weighted-random draws from a probability table.
//!
//! Every draw walks the catalog in its fixed order, accumulating the weights
//! of the eligible conditions, and selects the first condition whose
//! cumulative weight exceeds a uniformly drawn number below the eligible
//! total. Drawing over the eligible mass only is what the rejection loop
//! over the whole table converges to, with the same distribution, and it
//! needs exactly one random number per slot.

use vstd::prelude::*;

verus! {

use crate::catalog::{
    all_options, lemma_catalog_at, lemma_catalog_index, lemma_own_group, WeatherOptions,
    NUM_OPTIONS, WEIGHT_SCALE,
};
use crate::rng::random_below;
use crate::sums::{
    cnt_prefix, lemma_cnt_pos_implies_masked_pos, lemma_masked_le_sum, lemma_masked_pos_of_member,
    lemma_masked_prefix_nonneg, lemma_masked_update_false, lemma_sum_prefix_monotone,
    masked_prefix,
};
use crate::table::{rain_allowed_mask, usable_count_spec, ProbabilityTable};

/// Every drawn condition carries positive weight in the table.
pub open spec fn all_positive(w: Seq<u64>, s: Seq<WeatherOptions>) -> bool {
    forall|k: int| 0 <= k < s.len() ==> w[(#[trigger] s[k]).index_spec()] > 0
}

/// No drawn condition carries any rain.
pub open spec fn all_dry(s: Seq<WeatherOptions>) -> bool {
    forall|k: int| 0 <= k < s.len() ==> (#[trigger] s[k]).rain_intensity_spec() == 0
}

/// Which catalog positions belong to the group of `member`.
pub open spec fn group_mask(member: WeatherOptions) -> Seq<bool> {
    Seq::new(NUM_OPTIONS as nat, |i: int| member.group_spec().contains(all_options()[i]))
}

/// Whether `v` holds `o`.
fn contains_option(v: &Vec<WeatherOptions>, o: WeatherOptions) -> (b: bool)
    ensures
        b == v@.contains(o),
{
    let mut i: usize = 0;
    while i < v.len()
        invariant
            i <= v@.len(),
            forall|j: int| 0 <= j < i ==> v@[j] != o,
        decreases v@.len() - i,
    {
        if v[i] == o {
            return true;
        }
        i = i + 1;
    }
    false
}

/// The rain eligibility mask, as executable code.
fn build_rain_mask(allow_rain: bool) -> (m: Vec<bool>)
    ensures
        m@ == rain_allowed_mask(allow_rain),
{
    let opts = WeatherOptions::all();
    let mut m: Vec<bool> = Vec::new();
    let mut i: usize = 0;
    while i < NUM_OPTIONS
        invariant
            opts@ == all_options(),
            i <= NUM_OPTIONS,
            m@.len() == i,
            forall|j: int| 0 <= j < i ==> m@[j] == rain_allowed_mask(allow_rain)[j],
        decreases NUM_OPTIONS - i,
    {
        m.push(allow_rain || opts[i].rain_intensity() == 0);
        i = i + 1;
    }
    proof {
        assert(m@ =~= rain_allowed_mask(allow_rain));
    }
    m
}

/// The group membership mask, as executable code.
fn build_group_mask(member: WeatherOptions) -> (m: Vec<bool>)
    ensures
        m@ == group_mask(member),
{
    let group = member.get_group();
    let opts = WeatherOptions::all();
    let mut m: Vec<bool> = Vec::new();
    let mut i: usize = 0;
    while i < NUM_OPTIONS
        invariant
            group@ == member.group_spec(),
            opts@ == all_options(),
            i <= NUM_OPTIONS,
            m@.len() == i,
            forall|j: int| 0 <= j < i ==> m@[j] == group_mask(member)[j],
        decreases NUM_OPTIONS - i,
    {
        m.push(contains_option(&group, opts[i]));
        i = i + 1;
    }
    proof {
        assert(m@ =~= group_mask(member));
    }
    m
}

/// The total weight of the masked-in conditions.
fn masked_total(table: &ProbabilityTable, mask: &Vec<bool>) -> (s: u64)
    requires
        table.wf(),
        mask@.len() == NUM_OPTIONS,
    ensures
        s == masked_prefix(table@, mask@, NUM_OPTIONS as int),
{
    let mut s: u64 = 0;
    let mut i: usize = 0;
    while i < NUM_OPTIONS
        invariant
            table.wf(),
            mask@.len() == NUM_OPTIONS,
            i <= NUM_OPTIONS,
            s == masked_prefix(table@, mask@, i as int),
            s <= WEIGHT_SCALE,
        decreases NUM_OPTIONS - i,
    {
        proof {
            lemma_masked_le_sum(table@, mask@, i as int + 1);
            lemma_sum_prefix_monotone(table@, i as int + 1, NUM_OPTIONS as int);
            lemma_masked_prefix_nonneg(table@, mask@, i as int);
        }
        if mask[i] {
            s = s + table.weight_at(i);
        }
        i = i + 1;
    }
    s
}

/// Selects the first condition whose cumulative eligible weight exceeds `r`:
/// the condition at position `i` is selected exactly when `r` falls in the
/// half-open band of width `weight[i]` that the masked prefix sums give it.
fn pick_masked(table: &ProbabilityTable, mask: &Vec<bool>, r: u64) -> (o: WeatherOptions)
    requires
        table.wf(),
        mask@.len() == NUM_OPTIONS,
        r < masked_prefix(table@, mask@, NUM_OPTIONS as int),
    ensures
        mask@[o.index_spec()],
        table@[o.index_spec()] > 0,
        masked_prefix(table@, mask@, o.index_spec()) <= r < masked_prefix(
            table@,
            mask@,
            o.index_spec() + 1,
        ),
{
    let opts = WeatherOptions::all();
    let mut acc: u64 = 0;
    let mut i: usize = 0;
    while i < NUM_OPTIONS
        invariant
            table.wf(),
            mask@.len() == NUM_OPTIONS,
            opts@ == all_options(),
            i <= NUM_OPTIONS,
            acc == masked_prefix(table@, mask@, i as int),
            acc <= r,
            r < masked_prefix(table@, mask@, NUM_OPTIONS as int),
        decreases NUM_OPTIONS - i,
    {
        proof {
            lemma_masked_le_sum(table@, mask@, i as int + 1);
            lemma_sum_prefix_monotone(table@, i as int + 1, NUM_OPTIONS as int);
        }
        let c = if mask[i] {
            table.weight_at(i)
        } else {
            0
        };
        if acc + c > r {
            proof {
                lemma_catalog_at(i as int);
            }
            return opts[i];
        }
        acc = acc + c;
        i = i + 1;
    }
    proof {
        assert(false);
    }
    vstd::pervasive::unreached()
}

/// Draws one condition, weighted by the table, excluding rain conditions
/// unless rain is allowed. The selected condition always carries positive
/// weight, and is dry when rain is not allowed.
pub fn sample_one(table: &ProbabilityTable, allow_rain: bool) -> (o: WeatherOptions)
    requires
        table.wf(),
        usable_count_spec(table@, allow_rain) > 0,
    ensures
        table@[o.index_spec()] > 0,
        !allow_rain ==> o.rain_intensity_spec() == 0,
{
    let mask = build_rain_mask(allow_rain);
    proof {
        lemma_cnt_pos_implies_masked_pos(table@, mask@, NUM_OPTIONS as int);
    }
    let total = masked_total(table, &mask);
    let r = random_below(total);
    let o = pick_masked(table, &mask, r);
    proof {
        lemma_catalog_index(o);
    }
    o
}

/// Draws one condition from the group of `member`, weighted by the table.
/// The member itself must carry positive weight, so the group's mass is
/// positive and the draw can land.
pub fn sample_in_group(table: &ProbabilityTable, member: WeatherOptions) -> (o: WeatherOptions)
    requires
        table.wf(),
        table@[member.index_spec()] > 0,
    ensures
        member.group_spec().contains(o),
        table@[o.index_spec()] > 0,
{
    let mask = build_group_mask(member);
    proof {
        lemma_own_group(member);
        lemma_catalog_index(member);
        lemma_masked_pos_of_member(
            table@,
            mask@,
            NUM_OPTIONS as int,
            member.index_spec(),
        );
    }
    let total = masked_total(table, &mask);
    let r = random_below(total);
    let o = pick_masked(table, &mask, r);
    proof {
        lemma_catalog_index(o);
    }
    o
}

/// Draws the conditions of one session: `slot_count` draws, all with
/// positive weight, dry unless rain is allowed, and mutually distinct
/// whenever the table has enough usable conditions to fill the slots
/// without repetition; otherwise the slots are drawn with replacement.
pub fn sample_session(table: &ProbabilityTable, slot_count: usize, allow_rain: bool) -> (v: Vec<
    WeatherOptions,
>)
    requires
        table.wf(),
        usable_count_spec(table@, allow_rain) > 0,
    ensures
        v@.len() == slot_count,
        all_positive(table@, v@),
        !allow_rain ==> all_dry(v@),
        usable_count_spec(table@, allow_rain) >= slot_count ==> v@.no_duplicates(),
{
    let usable = table.usable_count(allow_rain);
    if usable >= slot_count {
        let mut mask = build_rain_mask(allow_rain);
        let mut total = masked_total(table, &mask);
        let mut out: Vec<WeatherOptions> = Vec::new();
        while out.len() < slot_count
            invariant
                table.wf(),
                mask@.len() == NUM_OPTIONS,
                out@.len() <= slot_count,
                slot_count <= usable_count_spec(table@, allow_rain),
                total == masked_prefix(table@, mask@, NUM_OPTIONS as int),
                cnt_prefix(table@, mask@, NUM_OPTIONS as int) == usable_count_spec(
                    table@,
                    allow_rain,
                ) - out@.len(),
                forall|i: int|
                    0 <= i < NUM_OPTIONS ==> (mask@[i] ==> rain_allowed_mask(allow_rain)[i]),
                forall|k: int|
                    0 <= k < out@.len() ==> !mask@[(#[trigger] out@[k]).index_spec()],
                all_positive(table@, out@),
                !allow_rain ==> all_dry(out@),
                out@.no_duplicates(),
            decreases slot_count - out@.len(),
        {
            proof {
                lemma_cnt_pos_implies_masked_pos(table@, mask@, NUM_OPTIONS as int);
            }
            let r = random_below(total);
            let o = pick_masked(table, &mask, r);
            let i = o.index();
            proof {
                lemma_catalog_index(o);
                lemma_catalog_at(i as int);
                lemma_masked_update_false(table@, mask@, i as int, NUM_OPTIONS as int);
                lemma_masked_prefix_nonneg(
                    table@,
                    mask@.update(i as int, false),
                    NUM_OPTIONS as int,
                );
                assert(forall|k: int|
                    0 <= k < out@.len() ==> out@[k] != o);
            }
            total = total - table.weight_at(i);
            mask[i] = false;
            let ghost old_out = out@;
            out.push(o);
            proof {
                assert(out@.no_duplicates()) by {
                    assert(forall|k: int| 0 <= k < old_out.len() ==> out@[k] == old_out[k]);
                    assert(out@[old_out.len() as int] == o);
                }
            }
        }
        out
    } else {
        let mut out: Vec<WeatherOptions> = Vec::new();
        let mut k: usize = 0;
        while k < slot_count
            invariant
                table.wf(),
                usable_count_spec(table@, allow_rain) > 0,
                k <= slot_count,
                out@.len() == k,
                all_positive(table@, out@),
                !allow_rain ==> all_dry(out@),
            decreases slot_count - k,
        {
            let o = sample_one(table, allow_rain);
            out.push(o);
            k = k + 1;
        }
        out
    }
}

} // verus!
