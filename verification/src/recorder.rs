//! The latency recorder: a log-scale histogram of millisecond samples.
//!
//! The counters live in a [`histogram::Histogram`]. This module states what
//! that histogram holds and how its calls change it, over the geometry of its
//! buckets, and proves what the rest of the library needs of that geometry.

use vstd::arithmetic::power2::{lemma2_to64, pow2};
use vstd::prelude::*;

verus! {

/// `histogram::Histogram`, carried as a value that only its own calls look
/// into.
#[verifier::external_type_specification]
#[verifier::external_body]
pub struct ExHistogram(histogram::Histogram);

/// `histogram::Error`, carried as a value that nothing here looks into.
#[verifier::external_type_specification]
#[verifier::external_body]
pub struct ExHistogramError(histogram::Error);

/// The counters of a histogram, one for each bucket, in the order of the
/// bucket indices.
pub uninterp spec fn hist_buckets(h: histogram::Histogram) -> Seq<u64>;

/// The grouping power and the maximum value power that a histogram was made
/// with, in this order.
pub uninterp spec fn hist_powers(h: histogram::Histogram) -> (u8, u8);

/// Whether a histogram can be made with these two powers.
pub open spec fn geometry_ok(grouping_power: u8, max_value_power: u8) -> bool {
    &&& max_value_power <= 64
    &&& grouping_power < max_value_power
    &&& grouping_power < 32
    &&& pow2(grouping_power as nat) * (max_value_power - grouping_power + 1) <= u32::MAX
}

/// The number of buckets of a histogram with these two powers.
pub open spec fn bucket_total(grouping_power: u8, max_value_power: u8) -> nat {
    (pow2(grouping_power as nat) * (max_value_power - grouping_power + 1)) as nat
}

/// The largest value that a histogram with this maximum value power holds.
pub open spec fn max_value(max_value_power: u8) -> nat {
    (pow2(max_value_power as nat) - 1) as nat
}

/// The smallest value of the bucket at `index`.
///
/// The buckets come in groups of `2^grouping_power`. Those of the first two
/// groups hold one value each. Every later group spans the values from one
/// power of two up to the next, in steps of equal width.
pub open spec fn bucket_lower(grouping_power: u8, index: nat) -> nat {
    let group = index / pow2(grouping_power as nat);
    let step = index % pow2(grouping_power as nat);
    if group == 0 {
        step
    } else {
        pow2((grouping_power + group - 1) as nat) + pow2((group - 1) as nat) * step
    }
}

/// The largest value of the bucket at `index`.
pub open spec fn bucket_upper(grouping_power: u8, max_value_power: u8, index: nat) -> nat {
    let group = index / pow2(grouping_power as nat);
    let step = index % pow2(grouping_power as nat) + 1;
    if index + 1 == bucket_total(grouping_power, max_value_power) {
        max_value(max_value_power)
    } else if group == 0 {
        (step - 1) as nat
    } else {
        (pow2((grouping_power + group - 1) as nat) + pow2((group - 1) as nat) * step - 1) as nat
    }
}

/// Whether the bucket at `index` is the one that counts `value`.
pub open spec fn bucket_holds(
    grouping_power: u8,
    max_value_power: u8,
    index: nat,
    value: u64,
) -> bool {
    bucket_lower(grouping_power, index) <= value <= bucket_upper(
        grouping_power,
        max_value_power,
        index,
    )
}

/// A counter after one more sample: it starts again at zero once it is full.
pub open spec fn bumped(count: u64) -> u64 {
    if count == u64::MAX {
        0
    } else {
        (count + 1) as u64
    }
}

/// The counters `buckets` after one sample of `value` was counted.
pub open spec fn counted(buckets: Seq<u64>, powers: (u8, u8), value: u64) -> Seq<u64> {
    Seq::new(
        buckets.len(),
        |i: int|
            if bucket_holds(powers.0, powers.1, i as nat, value) {
                bumped(buckets[i])
            } else {
                buckets[i]
            },
    )
}

/// Makes an empty histogram by `histogram::Histogram::new`.
///
/// Trusted: the call succeeds exactly for the powers that `geometry_ok`
/// admits, and the histogram it gives was made with these powers and has
/// `bucket_total` counters, all at zero.
#[verifier::external_body]
pub(crate) fn histogram_new(grouping_power: u8, max_value_power: u8) -> (r: Result<
    histogram::Histogram,
    histogram::Error,
>)
    ensures
        r is Ok <==> geometry_ok(grouping_power, max_value_power),
        r matches Ok(h) ==> hist_powers(h) == (grouping_power, max_value_power) && hist_buckets(h)
            == Seq::new(bucket_total(grouping_power, max_value_power), |i: int| 0u64),
{
    histogram::Histogram::new(grouping_power, max_value_power)
}

/// Counts one sample by `histogram::Histogram::increment`.
///
/// Trusted: the call fails exactly when `value` is above the largest value
/// of the histogram, and then changes nothing. Otherwise it adds one,
/// wrapping, to the counter of the bucket whose range holds `value` and
/// leaves the others as they were. The powers never change.
#[verifier::external_body]
pub(crate) fn histogram_increment(h: &mut histogram::Histogram, value: u64) -> (r: Result<
    (),
    histogram::Error,
>)
    ensures
        hist_powers(*final(h)) == hist_powers(*old(h)),
        r is Ok <==> value <= max_value(hist_powers(*old(h)).1),
        r is Err ==> hist_buckets(*final(h)) == hist_buckets(*old(h)),
        r is Ok ==> hist_buckets(*final(h)) == counted(
            hist_buckets(*old(h)),
            hist_powers(*old(h)),
            value,
        ),
{
    h.increment(value)
}

/// One bucket of a histogram: its index, the number of samples that it
/// counts, and the smallest and the largest value that it counts.
#[derive(Debug, Clone, Copy, PartialEq, Eq, Structural)]
pub struct BucketCount {
    pub index: usize,
    pub count: u64,
    pub start: u64,
    pub end: u64,
}

/// The bucket at `index` of a histogram with the counters `buckets` and the
/// powers `powers`.
pub open spec fn bucket_at(buckets: Seq<u64>, powers: (u8, u8), index: int) -> BucketCount {
    BucketCount {
        index: index as usize,
        count: buckets[index],
        start: bucket_lower(powers.0, index as nat) as u64,
        end: bucket_upper(powers.0, powers.1, index as nat) as u64,
    }
}

/// Lists the buckets by `histogram::Histogram::iter`, in index order.
///
/// Trusted: the iterator gives one bucket for each counter, in index order,
/// with that counter as its count and with the range of values that the
/// bucket at this index has by the histogram's powers.
#[verifier::external_body]
pub(crate) fn histogram_buckets(h: &histogram::Histogram) -> (r: Vec<BucketCount>)
    ensures
        r@ == Seq::new(
            hist_buckets(*h).len(),
            |i: int| bucket_at(hist_buckets(*h), hist_powers(*h), i),
        ),
{
    h.iter().enumerate().map(
        |(index, b)| BucketCount { index, count: b.count(), start: b.start(), end: b.end() },
    ).collect()
}

/// The grouping power of the latency histogram: a bucket is at most one part
/// in `2^8` wide, measured by its smallest value.
pub const GROUPING_POWER: u8 = 8;

/// The maximum value power of the latency histogram: it holds the samples
/// below `2^13` milliseconds.
pub const MAX_VALUE_POWER: u8 = 13;

/// The number of buckets of the latency histogram.
pub const BUCKETS: usize = 1536;

/// The largest sample, in milliseconds, that the latency histogram holds.
pub const MAX_MILLIS: u64 = 8191;

/// The powers of the latency histogram.
pub open spec fn latency_powers() -> (u8, u8) {
    (GROUPING_POWER, MAX_VALUE_POWER)
}

/// The index of the bucket of the latency histogram that counts `value`, for
/// a value of at most `MAX_MILLIS`.
pub open spec fn latency_bucket(value: u64) -> nat {
    if value < 512 {
        value as nat
    } else if value < 1024 {
        (512 + (value - 512) / 2) as nat
    } else if value < 2048 {
        (768 + (value - 1024) / 4) as nat
    } else if value < 4096 {
        (1024 + (value - 2048) / 8) as nat
    } else {
        (1280 + (value - 4096) / 16) as nat
    }
}

/// The sum of all counters.
pub open spec fn total(buckets: Seq<u64>) -> nat
    decreases buckets.len(),
{
    if buckets.len() == 0 {
        0
    } else {
        total(buckets.drop_last()) + buckets.last() as nat
    }
}

/// The counters `buckets` of the latency histogram after `sample` was
/// offered: counted if it is at most `MAX_MILLIS`; else refused, with the
/// counters left as they were.
pub open spec fn offered(buckets: Seq<u64>, sample: u64) -> Seq<u64> {
    if sample <= MAX_MILLIS {
        counted(buckets, latency_powers(), sample)
    } else {
        buckets
    }
}

/// The counters `buckets` of the latency histogram after the samples
/// `samples` were offered one by one.
pub open spec fn tally(buckets: Seq<u64>, samples: Seq<u64>) -> Seq<u64>
    decreases samples.len(),
{
    if samples.len() == 0 {
        buckets
    } else {
        offered(tally(buckets, samples.drop_last()), samples.last())
    }
}

/// What `sample` adds to the bucket at `index` of the latency histogram:
/// one where this is its bucket. A sample above `MAX_MILLIS` adds to none.
pub open spec fn hit(sample: u64, index: int) -> nat {
    if sample <= MAX_MILLIS && latency_bucket(sample) == index {
        1
    } else {
        0
    }
}

/// The number of samples among `samples` that the latency histogram counts
/// in the bucket at `index`.
pub open spec fn hits(samples: Seq<u64>, index: int) -> nat
    decreases samples.len(),
{
    if samples.len() == 0 {
        0
    } else {
        hits(samples.drop_last(), index) + hit(samples.last(), index)
    }
}

/// The number of samples among `samples` that the latency histogram takes:
/// those of at most `MAX_MILLIS`.
pub open spec fn accepted(samples: Seq<u64>) -> nat
    decreases samples.len(),
{
    if samples.len() == 0 {
        0
    } else if samples.last() <= MAX_MILLIS {
        accepted(samples.drop_last()) + 1
    } else {
        accepted(samples.drop_last())
    }
}

/// Whether the counters `buckets` have room for the samples `samples`: no
/// counter gets more samples than it can still count before it starts again
/// at zero.
pub open spec fn room_for(buckets: Seq<u64>, samples: Seq<u64>) -> bool {
    forall|i: int| 0 <= i < buckets.len() ==> buckets[i] + #[trigger] hits(samples, i) <= u64::MAX
}

/// The rank, counted from the smallest sample, of the sample that stands for
/// the percentile `percent` among `count` samples: the `percent` hundredths
/// of `count`, rounded up, and at least the first.
pub open spec fn rank(percent: u8, count: nat) -> nat {
    if percent * count == 0 {
        1
    } else {
        ((percent * count + 99) / 100) as nat
    }
}

/// Whether the bucket at `index` counts the sample of rank `rank`: the
/// buckets before it count fewer samples than `rank`, and with it there are
/// enough.
pub open spec fn holds_rank(buckets: Seq<u64>, index: int, rank: nat) -> bool {
    &&& 0 <= index < buckets.len()
    &&& total(buckets.take(index)) < rank <= total(buckets.take(index + 1))
}

/// Whether `bucket` is the bucket of the latency histogram with the counters
/// `buckets` that the percentile `percent` falls into.
pub open spec fn is_percentile(buckets: Seq<u64>, percent: u8, bucket: BucketCount) -> bool {
    &&& holds_rank(buckets, bucket.index as int, rank(percent, total(buckets)))
    &&& bucket == bucket_at(buckets, latency_powers(), bucket.index as int)
}

/// The latency histogram can be made, has `BUCKETS` buckets and holds the
/// samples up to `MAX_MILLIS`.
pub proof fn lemma_latency_geometry()
    ensures
        geometry_ok(GROUPING_POWER, MAX_VALUE_POWER),
        bucket_total(GROUPING_POWER, MAX_VALUE_POWER) == BUCKETS,
        max_value(MAX_VALUE_POWER) == MAX_MILLIS,
{
    lemma2_to64();
}

/// The ranges of the buckets of the latency histogram, written out: up to
/// 512 a bucket holds one value, and from there on 2, 4, 8 and 16 values as
/// the values double.
pub proof fn lemma_latency_ranges(index: nat)
    requires
        index < BUCKETS,
    ensures
        index < 512 ==> bucket_lower(GROUPING_POWER, index) == index && bucket_upper(
            GROUPING_POWER,
            MAX_VALUE_POWER,
            index,
        ) == index,
        512 <= index < 768 ==> bucket_lower(GROUPING_POWER, index) == 512 + 2 * (index - 512)
            && bucket_upper(GROUPING_POWER, MAX_VALUE_POWER, index) == 513 + 2 * (index - 512),
        768 <= index < 1024 ==> bucket_lower(GROUPING_POWER, index) == 1024 + 4 * (index - 768)
            && bucket_upper(GROUPING_POWER, MAX_VALUE_POWER, index) == 1027 + 4 * (index - 768),
        1024 <= index < 1280 ==> bucket_lower(GROUPING_POWER, index) == 2048 + 8 * (index - 1024)
            && bucket_upper(GROUPING_POWER, MAX_VALUE_POWER, index) == 2055 + 8 * (index - 1024),
        1280 <= index ==> bucket_lower(GROUPING_POWER, index) == 4096 + 16 * (index - 1280)
            && bucket_upper(GROUPING_POWER, MAX_VALUE_POWER, index) == 4111 + 16 * (index - 1280),
{
    lemma2_to64();
    let group = index / 256;
    let step = index % 256;
    assert(pow2(8) == 256);
    assert(group == index / pow2(GROUPING_POWER as nat));
    assert(step == index % pow2(GROUPING_POWER as nat));
    assert(bucket_total(GROUPING_POWER, MAX_VALUE_POWER) == 1536);
    assert(max_value(MAX_VALUE_POWER) == 8191);
    if index < 256 {
        assert(group == 0);
    } else if index < 512 {
        assert(group == 1);
        assert(pow2((GROUPING_POWER + group - 1) as nat) == 256);
        assert(pow2((group - 1) as nat) == 1);
    } else if index < 768 {
        assert(group == 2);
        assert(pow2((GROUPING_POWER + group - 1) as nat) == 512);
        assert(pow2((group - 1) as nat) == 2);
    } else if index < 1024 {
        assert(group == 3);
        assert(pow2((GROUPING_POWER + group - 1) as nat) == 1024);
        assert(pow2((group - 1) as nat) == 4);
    } else if index < 1280 {
        assert(group == 4);
        assert(pow2((GROUPING_POWER + group - 1) as nat) == 2048);
        assert(pow2((group - 1) as nat) == 8);
    } else {
        assert(group == 5);
        assert(pow2((GROUPING_POWER + group - 1) as nat) == 4096);
        assert(pow2((group - 1) as nat) == 16);
    }
}

/// Every sample up to `MAX_MILLIS` has its bucket in the latency histogram,
/// and only one: the one at `latency_bucket`.
pub proof fn lemma_latency_bucket(value: u64)
    requires
        value <= MAX_MILLIS,
    ensures
        latency_bucket(value) < BUCKETS,
        bucket_holds(GROUPING_POWER, MAX_VALUE_POWER, latency_bucket(value), value),
        forall|index: nat|
            index < BUCKETS && #[trigger] bucket_holds(
                GROUPING_POWER,
                MAX_VALUE_POWER,
                index,
                value,
            ) ==> index == latency_bucket(value),
{
    lemma_latency_ranges(latency_bucket(value));
    assert forall|index: nat|
        index < BUCKETS && #[trigger] bucket_holds(
            GROUPING_POWER,
            MAX_VALUE_POWER,
            index,
            value,
        ) implies index == latency_bucket(value) by {
        lemma_latency_ranges(index);
    }
}

/// The width of a bucket of the latency histogram is at most one part in 256
/// of its smallest value: two samples that share a bucket differ by no more
/// than that.
pub proof fn lemma_latency_precision(index: nat)
    requires
        index < BUCKETS,
    ensures
        bucket_lower(GROUPING_POWER, index) <= bucket_upper(
            GROUPING_POWER,
            MAX_VALUE_POWER,
            index,
        ) <= MAX_MILLIS,
        256 * (bucket_upper(GROUPING_POWER, MAX_VALUE_POWER, index) - bucket_lower(
            GROUPING_POWER,
            index,
        )) <= bucket_lower(GROUPING_POWER, index),
{
    lemma_latency_ranges(index);
}

/// Counting a sample in the latency histogram changes one counter: that of
/// the sample's bucket.
pub proof fn lemma_counted_one(buckets: Seq<u64>, value: u64)
    requires
        buckets.len() == BUCKETS,
        value <= MAX_MILLIS,
    ensures
        counted(buckets, latency_powers(), value) == buckets.update(
            latency_bucket(value) as int,
            bumped(buckets[latency_bucket(value) as int]),
        ),
{
    lemma_latency_bucket(value);
    let after = counted(buckets, latency_powers(), value);
    let at = latency_bucket(value) as int;
    assert forall|i: int| 0 <= i < buckets.len() implies after[i] == buckets.update(
        at,
        bumped(buckets[at]),
    )[i] by {
        if bucket_holds(GROUPING_POWER, MAX_VALUE_POWER, i as nat, value) {
            assert(i as nat == latency_bucket(value));
        }
    }
    assert(after =~= buckets.update(at, bumped(buckets[at])));
}

/// Changing one counter changes the sum by as much.
pub proof fn lemma_total_update(buckets: Seq<u64>, at: int, count: u64)
    requires
        0 <= at < buckets.len(),
    ensures
        total(buckets.update(at, count)) + buckets[at] == total(buckets) + count,
    decreases buckets.len(),
{
    let changed = buckets.update(at, count);
    if at == buckets.len() - 1 {
        assert(changed.drop_last() =~= buckets.drop_last());
    } else {
        assert(changed.drop_last() =~= buckets.drop_last().update(at, count));
        lemma_total_update(buckets.drop_last(), at, count);
    }
}

/// No counter is above the sum of all.
pub proof fn lemma_total_bounds(buckets: Seq<u64>, at: int)
    requires
        0 <= at < buckets.len(),
    ensures
        buckets[at] <= total(buckets),
    decreases buckets.len(),
{
    if at < buckets.len() - 1 {
        lemma_total_bounds(buckets.drop_last(), at);
    }
}

/// Counters that are all at zero sum to zero.
pub proof fn lemma_total_zero(buckets: Seq<u64>)
    requires
        forall|i: int| 0 <= i < buckets.len() ==> buckets[i] == 0,
    ensures
        total(buckets) == 0,
    decreases buckets.len(),
{
    if buckets.len() > 0 {
        lemma_total_zero(buckets.drop_last());
    }
}

/// The tally keeps the number of counters.
pub proof fn lemma_tally_len(buckets: Seq<u64>, samples: Seq<u64>)
    ensures
        tally(buckets, samples).len() == buckets.len(),
    decreases samples.len(),
{
    if samples.len() > 0 {
        lemma_tally_len(buckets, samples.drop_last());
    }
}

/// The count of the distribution: after samples that are all within the
/// range were offered to the latency histogram, the counters sum to what
/// they summed to before and one more for each sample, as long as that sum
/// fits a counter.
pub proof fn lemma_tally_total(buckets: Seq<u64>, samples: Seq<u64>)
    requires
        buckets.len() == BUCKETS,
        forall|i: int| 0 <= i < samples.len() ==> samples[i] <= MAX_MILLIS,
        total(buckets) + samples.len() <= u64::MAX,
    ensures
        total(tally(buckets, samples)) == total(buckets) + samples.len(),
    decreases samples.len(),
{
    if samples.len() > 0 {
        let before = tally(buckets, samples.drop_last());
        let value = samples.last();
        let at = latency_bucket(value) as int;
        lemma_tally_total(buckets, samples.drop_last());
        lemma_tally_len(buckets, samples.drop_last());
        lemma_latency_bucket(value);
        lemma_counted_one(before, value);
        lemma_total_bounds(before, at);
        lemma_total_update(before, at, bumped(before[at]));
    }
}

/// The count of a fresh distribution: a latency histogram that starts empty
/// and is offered `k` samples within the range holds `k` in all.
pub proof fn lemma_fresh_tally_total(samples: Seq<u64>)
    requires
        forall|i: int| 0 <= i < samples.len() ==> samples[i] <= MAX_MILLIS,
        samples.len() <= u64::MAX,
    ensures
        total(tally(Seq::new(BUCKETS as nat, |i: int| 0u64), samples)) == samples.len(),
{
    let empty = Seq::new(BUCKETS as nat, |i: int| 0u64);
    lemma_total_zero(empty);
    lemma_tally_total(empty, samples);
}

/// Every sample that the latency histogram counts lies in a bucket whose
/// bounds are no further apart than one part in 256 of the sample.
pub proof fn lemma_sample_precision(value: u64)
    requires
        value <= MAX_MILLIS,
    ensures
        bucket_lower(GROUPING_POWER, latency_bucket(value)) <= value <= bucket_upper(
            GROUPING_POWER,
            MAX_VALUE_POWER,
            latency_bucket(value),
        ),
        256 * (bucket_upper(GROUPING_POWER, MAX_VALUE_POWER, latency_bucket(value)) - bucket_lower(
            GROUPING_POWER,
            latency_bucket(value),
        )) <= value,
{
    lemma_latency_bucket(value);
    lemma_latency_precision(latency_bucket(value));
}

/// The counters up to an index sum to no more than those up to a later one.
pub proof fn lemma_total_grows(buckets: Seq<u64>, first: int, second: int)
    requires
        0 <= first <= second <= buckets.len(),
    ensures
        total(buckets.take(first)) <= total(buckets.take(second)),
    decreases second - first,
{
    if first < second {
        lemma_total_grows(buckets, first, second - 1);
        assert(buckets.take(second).drop_last() =~= buckets.take(second - 1));
    }
}

/// A rank has one bucket at most.
pub proof fn lemma_one_bucket_for_a_rank(buckets: Seq<u64>, first: int, second: int, rank: nat)
    requires
        holds_rank(buckets, first, rank),
        holds_rank(buckets, second, rank),
    ensures
        first == second,
{
    if first < second {
        lemma_total_grows(buckets, first + 1, second);
    }
    if second < first {
        lemma_total_grows(buckets, second + 1, first);
    }
}

/// A higher percentile does not fall into an earlier bucket.
pub proof fn lemma_percentiles_in_order(
    buckets: Seq<u64>,
    low: u8,
    high: u8,
    first: BucketCount,
    second: BucketCount,
)
    requires
        low <= high,
        is_percentile(buckets, low, first),
        is_percentile(buckets, high, second),
    ensures
        first.index <= second.index,
{
    let count = total(buckets);
    assert(low * count <= high * count) by (nonlinear_arith)
        requires
            low <= high,
    ;
    assert(rank(low, count) <= rank(high, count));
    if second.index < first.index {
        lemma_total_grows(buckets, second.index as int + 1, first.index as int);
    }
}

/// The bucket that a percentile of the latency histogram falls into is not
/// empty, and its bounds are no further apart than one part in 256 of its
/// smallest value.
pub proof fn lemma_percentile_precision(buckets: Seq<u64>, percent: u8, bucket: BucketCount)
    requires
        buckets.len() == BUCKETS,
        is_percentile(buckets, percent, bucket),
    ensures
        bucket.count > 0,
        bucket.start <= bucket.end <= MAX_MILLIS,
        256 * (bucket.end - bucket.start) <= bucket.start,
{
    let index = bucket.index as int;
    lemma_latency_precision(index as nat);
    assert(buckets.take(index + 1).drop_last() =~= buckets.take(index));
    assert(buckets.take(index + 1).last() == buckets[index]);
}

/// The distribution after a tally, whatever was counted before: each
/// counter holds what it held and one more for each sample of its bucket,
/// counted round the size of a counter. A sample above `MAX_MILLIS` moves no
/// counter.
pub proof fn lemma_tally_counters(buckets: Seq<u64>, samples: Seq<u64>)
    requires
        buckets.len() == BUCKETS,
    ensures
        tally(buckets, samples).len() == BUCKETS,
        forall|i: int|
            0 <= i < BUCKETS ==> (#[trigger] tally(buckets, samples)[i]) == (buckets[i] + hits(
                samples,
                i,
            )) % 0x1_0000_0000_0000_0000,
    decreases samples.len(),
{
    if samples.len() > 0 {
        let before = tally(buckets, samples.drop_last());
        let value = samples.last();
        lemma_tally_counters(buckets, samples.drop_last());
        if value <= MAX_MILLIS {
            lemma_latency_bucket(value);
            lemma_counted_one(before, value);
        }
        assert forall|i: int| 0 <= i < BUCKETS implies (#[trigger] tally(buckets, samples)[i]) == (
        buckets[i] + hits(samples, i)) % 0x1_0000_0000_0000_0000 by {
            assert(before[i] == (buckets[i] + hits(samples.drop_last(), i))
                % 0x1_0000_0000_0000_0000);
        }
    }
}

/// The count of the distribution, whatever was counted before: as long as
/// the counters have room for the samples, they sum after the tally to what
/// they summed to before and one more for each sample within the range, and
/// each counter has grown by the samples of its bucket. (Without room a
/// counter starts again at zero, and the sum falls short.)
pub proof fn lemma_tally_count(buckets: Seq<u64>, samples: Seq<u64>)
    requires
        buckets.len() == BUCKETS,
        room_for(buckets, samples),
    ensures
        total(tally(buckets, samples)) == total(buckets) + accepted(samples),
        forall|i: int|
            0 <= i < BUCKETS ==> (#[trigger] tally(buckets, samples)[i]) == buckets[i] + hits(
                samples,
                i,
            ),
    decreases samples.len(),
{
    if samples.len() > 0 {
        let earlier = samples.drop_last();
        let before = tally(buckets, earlier);
        let value = samples.last();
        assert forall|i: int| 0 <= i < buckets.len() implies buckets[i] + #[trigger] hits(
            earlier,
            i,
        ) <= u64::MAX by {
            assert(hits(earlier, i) <= hits(samples, i));
        }
        lemma_tally_count(buckets, earlier);
        lemma_tally_len(buckets, earlier);
        if value <= MAX_MILLIS {
            let at = latency_bucket(value) as int;
            lemma_latency_bucket(value);
            lemma_counted_one(before, value);
            assert(before[at] == buckets[at] + hits(earlier, at));
            assert(hits(samples, at) == hits(earlier, at) + 1);
            lemma_total_update(before, at, bumped(before[at]));
        }
        assert forall|i: int| 0 <= i < BUCKETS implies (#[trigger] tally(buckets, samples)[i])
            == buckets[i] + hits(samples, i) by {
            assert(before[i] == buckets[i] + hits(earlier, i));
        }
    }
}

/// Counters whose sum leaves room for all the samples have room for them
/// one by one.
pub proof fn lemma_room_under_the_sum(buckets: Seq<u64>, samples: Seq<u64>)
    requires
        total(buckets) + samples.len() <= u64::MAX,
    ensures
        room_for(buckets, samples),
{
    assert forall|i: int| 0 <= i < buckets.len() implies buckets[i] + #[trigger] hits(samples, i)
        <= u64::MAX by {
        lemma_total_bounds(buckets, i);
        lemma_hits_bounds(samples, i);
    }
}

/// No bucket gets more samples than are taken, and no more are taken than
/// there are.
pub proof fn lemma_hits_bounds(samples: Seq<u64>, index: int)
    ensures
        hits(samples, index) <= accepted(samples) <= samples.len(),
    decreases samples.len(),
{
    if samples.len() > 0 {
        lemma_hits_bounds(samples.drop_last(), index);
    }
}

/// Where every sample lies within the range, every sample is taken.
pub proof fn lemma_all_accepted(samples: Seq<u64>)
    requires
        forall|i: int| 0 <= i < samples.len() ==> samples[i] <= MAX_MILLIS,
    ensures
        accepted(samples) == samples.len(),
    decreases samples.len(),
{
    if samples.len() > 0 {
        lemma_all_accepted(samples.drop_last());
    }
}

/// Taking one sample out takes its hit out.
pub proof fn lemma_hits_remove(samples: Seq<u64>, at: int, index: int)
    requires
        0 <= at < samples.len(),
    ensures
        hits(samples, index) == hits(samples.remove(at), index) + hit(samples[at], index),
    decreases samples.len(),
{
    if at == samples.len() - 1 {
        assert(samples.remove(at) =~= samples.drop_last());
    } else {
        assert(samples.remove(at).drop_last() =~= samples.drop_last().remove(at));
        assert(samples.remove(at).last() == samples.last());
        lemma_hits_remove(samples.drop_last(), at, index);
    }
}

/// The hits of a bucket do not depend on the order of the samples.
pub proof fn lemma_hits_any_order(first: Seq<u64>, second: Seq<u64>, index: int)
    requires
        first.to_multiset() == second.to_multiset(),
    ensures
        hits(first, index) == hits(second, index),
    decreases first.len(),
{
    first.to_multiset_ensures();
    second.to_multiset_ensures();
    if first.len() > 0 {
        let sample = first.last();
        assert(first[first.len() - 1] == sample);
        assert(first.contains(sample));
        assert(first.to_multiset().count(sample) > 0);
        assert(second.to_multiset().count(sample) > 0);
        assert(second.contains(sample));
        let at = choose|at: int| 0 <= at < second.len() && second[at] == sample;
        assert(first.remove(first.len() - 1) =~= first.drop_last());
        assert(first.drop_last().to_multiset() =~= second.remove(at).to_multiset());
        lemma_hits_any_order(first.drop_last(), second.remove(at), index);
        lemma_hits_remove(second, at, index);
    } else {
        assert(second.len() == 0);
    }
}

/// The distribution does not depend on the order in which the samples
/// come: the same samples in another order leave the same counters.
pub proof fn lemma_tally_any_order(buckets: Seq<u64>, first: Seq<u64>, second: Seq<u64>)
    requires
        buckets.len() == BUCKETS,
        first.to_multiset() == second.to_multiset(),
    ensures
        tally(buckets, first) == tally(buckets, second),
{
    lemma_tally_counters(buckets, first);
    lemma_tally_counters(buckets, second);
    assert forall|i: int| 0 <= i < BUCKETS implies tally(buckets, first)[i] == tally(
        buckets,
        second,
    )[i] by {
        lemma_hits_any_order(first, second, i);
    }
    assert(tally(buckets, first) =~= tally(buckets, second));
}

} // verus!
