//! What holds of the buckets of every histogram, whatever its two powers:
//! the buckets tile the values from zero to the largest, each value has one
//! bucket, and no bucket is wider than one part in `2^grouping_power` of its
//! smallest value.

use crate::recorder::{
    bucket_holds, bucket_lower, bucket_total, bucket_upper, bumped, counted, geometry_ok,
    max_value,
};
use vstd::arithmetic::div_mod::{lemma_fundamental_div_mod, lemma_fundamental_div_mod_converse};
use vstd::arithmetic::power2::{lemma_pow2_adds, lemma_pow2_pos, lemma_pow2_unfold, pow2};
use vstd::prelude::*;

verus! {

/// The shape of a bucket: where its index stands in its group decides its
/// bounds. In the first group a bucket holds the one value that is its
/// index. In a later group `g` it starts at `2^(g-1)` times its place among
/// `2^grouping_power` to twice that, and is `2^(g-1)` values wide.
pub proof fn lemma_bucket_shape(grouping_power: u8, max_value_power: u8, index: nat)
    requires
        geometry_ok(grouping_power, max_value_power),
        index < bucket_total(grouping_power, max_value_power),
    ensures
        ({
            let per_group = pow2(grouping_power as nat);
            let group = index / per_group;
            let step = index % per_group;
            &&& per_group > 0
            &&& step < per_group
            &&& group <= max_value_power - grouping_power
            &&& index == group * per_group + step
            &&& group == 0 ==> bucket_lower(grouping_power, index) == step && bucket_upper(
                grouping_power,
                max_value_power,
                index,
            ) == step
            &&& group > 0 ==> bucket_lower(grouping_power, index) == pow2((group - 1) as nat) * (
            per_group + step) && bucket_upper(grouping_power, max_value_power, index)
                == bucket_lower(grouping_power, index) + pow2((group - 1) as nat) - 1
        }),
{
    let per_group = pow2(grouping_power as nat);
    let groups = (max_value_power - grouping_power + 1) as nat;
    let group = index / per_group;
    let step = index % per_group;
    lemma_pow2_pos(grouping_power as nat);
    lemma_fundamental_div_mod(index as int, per_group as int);
    assert(0 <= step < per_group) by (nonlinear_arith)
        requires
            per_group > 0,
            step == index % per_group,
    ;
    assert(index == group * per_group + step) by (nonlinear_arith)
        requires
            index == per_group * group + step,
    ;
    assert(group < groups) by (nonlinear_arith)
        requires
            index == group * per_group + step,
            index < per_group * groups,
            step >= 0,
            per_group > 0,
    ;
    if group > 0 {
        let width = pow2((group - 1) as nat);
        lemma_pow2_pos((group - 1) as nat);
        lemma_pow2_adds((group - 1) as nat, grouping_power as nat);
        assert(pow2((grouping_power + group - 1) as nat) == width * per_group);
        assert(width * per_group >= 1) by (nonlinear_arith)
            requires
                width >= 1,
                per_group >= 1,
        ;
        assert(width * (step + 1) >= 0) by (nonlinear_arith)
            requires
                width >= 1,
                step >= 0,
        ;
        assert(width * per_group + width * step == width * (per_group + step))
            by (nonlinear_arith);
        assert(width * per_group + width * (step + 1) - 1 == width * (per_group + step) + width
            - 1) by (nonlinear_arith);
        if index + 1 == bucket_total(grouping_power, max_value_power) {
            assert(group == groups - 1 && step == per_group - 1) by (nonlinear_arith)
                requires
                    index == group * per_group + step,
                    index + 1 == per_group * groups,
                    0 <= step < per_group,
                    group < groups,
            ;
            lemma_pow2_adds((group - 1) as nat, (grouping_power + 1) as nat);
            lemma_pow2_unfold((grouping_power + 1) as nat);
            assert(pow2(max_value_power as nat) == width * (2 * per_group));
            assert(width * (2 * per_group) - 1 == width * (per_group + (per_group - 1)) + width
                - 1) by (nonlinear_arith);
        }
    } else {
        if index + 1 == bucket_total(grouping_power, max_value_power) {
            assert(false) by (nonlinear_arith)
                requires
                    index == group * per_group + step,
                    group == 0,
                    index + 1 == per_group * groups,
                    0 <= step < per_group,
                    groups >= 2,
            ;
        }
    }
}

/// A bucket reaches from its smallest value to its largest, and it is at
/// most one part in `2^grouping_power` of its smallest value wide.
pub proof fn lemma_bucket_precision(grouping_power: u8, max_value_power: u8, index: nat)
    requires
        geometry_ok(grouping_power, max_value_power),
        index < bucket_total(grouping_power, max_value_power),
    ensures
        bucket_lower(grouping_power, index) <= bucket_upper(
            grouping_power,
            max_value_power,
            index,
        ),
        pow2(grouping_power as nat) * (bucket_upper(grouping_power, max_value_power, index)
            - bucket_lower(grouping_power, index)) <= bucket_lower(grouping_power, index),
{
    lemma_bucket_shape(grouping_power, max_value_power, index);
    let per_group = pow2(grouping_power as nat);
    let group = index / per_group;
    let step = index % per_group;
    if group > 0 {
        let width = pow2((group - 1) as nat);
        lemma_pow2_pos((group - 1) as nat);
        assert(per_group * (width - 1) <= width * (per_group + step)) by (nonlinear_arith)
            requires
                width > 0,
                per_group > 0,
                step >= 0,
        ;
    } else {
        assert(per_group * 0 == 0);
    }
}

/// The buckets follow one another without a gap: where one ends, the next
/// starts.
pub proof fn lemma_next_bucket(grouping_power: u8, max_value_power: u8, index: nat)
    requires
        geometry_ok(grouping_power, max_value_power),
        index + 1 < bucket_total(grouping_power, max_value_power),
    ensures
        bucket_upper(grouping_power, max_value_power, index) + 1 == bucket_lower(
            grouping_power,
            index + 1,
        ),
{
    lemma_bucket_shape(grouping_power, max_value_power, index);
    lemma_bucket_shape(grouping_power, max_value_power, index + 1);
    let per_group = pow2(grouping_power as nat);
    let group = index / per_group;
    let step = index % per_group;
    if step + 1 < per_group {
        assert(index + 1 == group * per_group + (step + 1));
        lemma_fundamental_div_mod_converse(
            (index + 1) as int,
            per_group as int,
            group as int,
            (step + 1) as int,
        );
        if group > 0 {
            let width = pow2((group - 1) as nat);
            assert(width * (per_group + step) + width == width * (per_group + (step + 1)))
                by (nonlinear_arith);
        }
    } else {
        assert(index + 1 == (group + 1) * per_group + 0) by (nonlinear_arith)
            requires
                index == group * per_group + step,
                step + 1 == per_group,
        ;
        lemma_fundamental_div_mod_converse(
            (index + 1) as int,
            per_group as int,
            (group + 1) as int,
            0,
        );
        let next_width = pow2(group);
        if group > 0 {
            let width = pow2((group - 1) as nat);
            lemma_pow2_unfold(group);
            assert(width * (per_group + step) + width == (2 * width) * (per_group + 0))
                by (nonlinear_arith)
                requires
                    step + 1 == per_group,
            ;
        } else {
            assert(pow2(0) == 1) by {
                vstd::arithmetic::power2::lemma2_to64();
            }
            assert(next_width * (per_group + 0) == per_group) by (nonlinear_arith)
                requires
                    next_width == 1,
            ;
        }
    }
}

/// The buckets ascend: a later bucket starts above the end of an earlier
/// one, so no value has two buckets.
pub proof fn lemma_buckets_ascend(
    grouping_power: u8,
    max_value_power: u8,
    earlier: nat,
    later: nat,
)
    requires
        geometry_ok(grouping_power, max_value_power),
        earlier < later < bucket_total(grouping_power, max_value_power),
    ensures
        bucket_upper(grouping_power, max_value_power, earlier) < bucket_lower(
            grouping_power,
            later,
        ),
    decreases later - earlier,
{
    lemma_next_bucket(grouping_power, max_value_power, earlier);
    if earlier + 1 < later {
        lemma_bucket_precision(grouping_power, max_value_power, earlier + 1);
        lemma_buckets_ascend(grouping_power, max_value_power, earlier + 1, later);
    }
}

/// The buckets up to `index` cover every value up to the end of the bucket
/// at `index`.
proof fn lemma_covered(grouping_power: u8, max_value_power: u8, index: nat, value: u64)
    requires
        geometry_ok(grouping_power, max_value_power),
        index < bucket_total(grouping_power, max_value_power),
        value <= bucket_upper(grouping_power, max_value_power, index),
    ensures
        exists|at: nat|
            at <= index && #[trigger] bucket_holds(grouping_power, max_value_power, at, value),
    decreases index,
{
    if bucket_lower(grouping_power, index) <= value {
        assert(bucket_holds(grouping_power, max_value_power, index, value));
    } else {
        lemma_bucket_shape(grouping_power, max_value_power, index);
        if index == 0 {
            lemma_pow2_pos(grouping_power as nat);
            assert(0nat / pow2(grouping_power as nat) == 0) by (nonlinear_arith)
                requires
                    pow2(grouping_power as nat) > 0,
            ;
            assert(false);
        } else {
            lemma_next_bucket(grouping_power, max_value_power, (index - 1) as nat);
            lemma_covered(grouping_power, max_value_power, (index - 1) as nat, value);
        }
    }
}

/// The buckets tile the range: every value up to the largest has a bucket,
/// and only one.
pub proof fn lemma_one_bucket(grouping_power: u8, max_value_power: u8, value: u64)
    requires
        geometry_ok(grouping_power, max_value_power),
        value <= max_value(max_value_power),
    ensures
        exists|at: nat|
            at < bucket_total(grouping_power, max_value_power) && #[trigger] bucket_holds(
                grouping_power,
                max_value_power,
                at,
                value,
            ),
        forall|first: nat, second: nat|
            first < bucket_total(grouping_power, max_value_power) && second < bucket_total(
                grouping_power,
                max_value_power,
            ) && #[trigger] bucket_holds(grouping_power, max_value_power, first, value)
                && #[trigger] bucket_holds(grouping_power, max_value_power, second, value)
                ==> first == second,
{
    let count = bucket_total(grouping_power, max_value_power);
    lemma_pow2_pos(grouping_power as nat);
    assert(count > 0) by (nonlinear_arith)
        requires
            count == pow2(grouping_power as nat) * (max_value_power - grouping_power + 1),
            pow2(grouping_power as nat) > 0,
            max_value_power - grouping_power + 1 > 0,
    ;
    lemma_covered(grouping_power, max_value_power, (count - 1) as nat, value);
    assert forall|first: nat, second: nat|
        first < count && second < count && #[trigger] bucket_holds(
            grouping_power,
            max_value_power,
            first,
            value,
        ) && #[trigger] bucket_holds(
            grouping_power,
            max_value_power,
            second,
            value,
        ) implies first == second by {
        if first < second {
            lemma_buckets_ascend(grouping_power, max_value_power, first, second);
        }
        if second < first {
            lemma_buckets_ascend(grouping_power, max_value_power, second, first);
        }
    }
}

/// No bucket reaches beyond the largest value of the histogram.
pub proof fn lemma_bucket_below_max(grouping_power: u8, max_value_power: u8, index: nat)
    requires
        geometry_ok(grouping_power, max_value_power),
        index < bucket_total(grouping_power, max_value_power),
    ensures
        bucket_upper(grouping_power, max_value_power, index) <= max_value(max_value_power),
{
    let last = (bucket_total(grouping_power, max_value_power) - 1) as nat;
    if index < last {
        lemma_buckets_ascend(grouping_power, max_value_power, index, last);
        lemma_bucket_precision(grouping_power, max_value_power, last);
    }
}

/// Counting a sample changes one counter: that of the bucket which holds
/// the sample.
pub proof fn lemma_counted_changes_one(
    buckets: Seq<u64>,
    grouping_power: u8,
    max_value_power: u8,
    value: u64,
    at: nat,
)
    requires
        geometry_ok(grouping_power, max_value_power),
        buckets.len() == bucket_total(grouping_power, max_value_power),
        at < buckets.len(),
        bucket_holds(grouping_power, max_value_power, at, value),
    ensures
        counted(buckets, (grouping_power, max_value_power), value) == buckets.update(
            at as int,
            bumped(buckets[at as int]),
        ),
{
    lemma_bucket_below_max(grouping_power, max_value_power, at);
    lemma_one_bucket(grouping_power, max_value_power, value);
    let after = counted(buckets, (grouping_power, max_value_power), value);
    let expected = buckets.update(at as int, bumped(buckets[at as int]));
    assert forall|i: int| 0 <= i < buckets.len() implies after[i] == expected[i] by {
        if bucket_holds(grouping_power, max_value_power, i as nat, value) {
            assert(i as nat == at);
        }
    }
    assert(after =~= expected);
}

} // verus!
