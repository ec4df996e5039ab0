//! The session: what is to be measured, and the distribution of what was.

use crate::fanout::{Fanout, FanoutState};
use crate::outcome::HandshakeResult;
use crate::outcome::lemma_sample_keeps_order;
use crate::recorder::{
    accepted, bucket_at, hist_buckets, hist_powers, histogram_buckets, histogram_increment,
    histogram_new, hit, hits, is_percentile, latency_powers, lemma_all_accepted,
    lemma_latency_geometry, lemma_tally_any_order, lemma_tally_count, lemma_total_grows, offered,
    rank, room_for, tally, total, BucketCount, BUCKETS, GROUPING_POWER, MAX_MILLIS,
    MAX_VALUE_POWER,
};
use crate::transport::Transport;
use vstd::prelude::*;

verus! {

/// The error for a sample that the latency histogram has no bucket for.
#[derive(Debug, Clone, Copy, PartialEq, Eq, Structural)]
pub struct SampleOutOfRange;

/// The samples that a run's outcomes add to the distribution, in the order
/// of the outcomes: the time of each attempt that came back with one, in
/// milliseconds. An attempt that gave no result, or a result without a time,
/// adds nothing.
pub open spec fn samples_of(outcomes: Seq<Option<HandshakeResult>>) -> Seq<u64>
    decreases outcomes.len(),
{
    if outcomes.len() == 0 {
        Seq::empty()
    } else {
        let before = samples_of(outcomes.drop_last());
        match outcomes.last() {
            Some(result) => match result.sample() {
                Some(millis) => before.push(millis),
                None => before,
            },
            None => before,
        }
    }
}

/// The number of outcomes that came back with a time.
pub open spec fn timed(outcomes: Seq<Option<HandshakeResult>>) -> nat
    decreases outcomes.len(),
{
    if outcomes.len() == 0 {
        0
    } else if outcomes.last() matches Some(result) && result.duration is Some {
        timed(outcomes.drop_last()) + 1
    } else {
        timed(outcomes.drop_last())
    }
}

/// One measuring session: the target, the transport, the number of
/// handshakes to attempt, and the distribution of the times measured so far.
pub struct Session {
    host: String,
    port: u16,
    sni: String,
    transport: Transport,
    num_handshakes: u64,
    /// The latency histogram, in milliseconds.
    pub hist: histogram::Histogram,
}

impl Session {
    /// Whether the histogram of the session is a latency histogram.
    pub closed spec fn wf(&self) -> bool {
        &&& hist_powers(self.hist) == latency_powers()
        &&& hist_buckets(self.hist).len() == BUCKETS
    }

    /// The counters of the session's histogram.
    pub closed spec fn buckets(&self) -> Seq<u64> {
        hist_buckets(self.hist)
    }

    /// The name of the target.
    pub closed spec fn spec_host(&self) -> Seq<char> {
        self.host@
    }

    /// The port of the target.
    pub closed spec fn spec_port(&self) -> u16 {
        self.port
    }

    /// The server name that each handshake puts forward.
    pub closed spec fn spec_sni(&self) -> Seq<char> {
        self.sni@
    }

    /// The transport of the handshakes.
    pub closed spec fn spec_transport(&self) -> Transport {
        self.transport
    }

    /// The number of handshakes that a run attempts.
    pub closed spec fn spec_num_handshakes(&self) -> u64 {
        self.num_handshakes
    }

    /// Whether the distribution holds no sample.
    pub open spec fn is_empty(&self) -> bool {
        self.buckets() == Seq::new(BUCKETS as nat, |i: int| 0u64)
    }

    /// Whether two sessions are set up alike: all but the histogram.
    pub open spec fn same_setup(&self, other: &Session) -> bool {
        &&& self.spec_host() == other.spec_host()
        &&& self.spec_port() == other.spec_port()
        &&& self.spec_sni() == other.spec_sni()
        &&& self.spec_transport() == other.spec_transport()
        &&& self.spec_num_handshakes() == other.spec_num_handshakes()
    }

    /// The histogram of a session has `BUCKETS` counters.
    pub proof fn lemma_counters(&self)
        requires
            self.wf(),
        ensures
            self.buckets().len() == BUCKETS,
    {
    }

    /// A session with an empty distribution.
    pub fn new(host: String, port: u16, sni: String, transport: Transport, num_handshakes: u64) -> (r:
        Session)
        ensures
            r.wf(),
            r.spec_host() == host@,
            r.spec_port() == port,
            r.spec_sni() == sni@,
            r.spec_transport() == transport,
            r.spec_num_handshakes() == num_handshakes,
            r.is_empty(),
            r.buckets().len() == BUCKETS,
    {
        proof {
            lemma_latency_geometry();
        }
        // We want to hold durations of up to 5 s (5000 milliseconds): 2^13
        // is the closest power above that.
        let made = histogram_new(GROUPING_POWER, MAX_VALUE_POWER);
        let hist = match made {
            Ok(hist) => hist,
            Err(_) => vstd::pervasive::unreached(),
        };
        Session { host, port, sni, transport, num_handshakes, hist }
    }

    /// The name of the target.
    pub fn host(&self) -> (r: &String)
        ensures
            r@ == self.spec_host(),
    {
        &self.host
    }

    /// The port of the target.
    pub fn port(&self) -> (r: u16)
        ensures
            r == self.spec_port(),
    {
        self.port
    }

    /// The server name that each handshake puts forward.
    pub fn sni(&self) -> (r: &String)
        ensures
            r@ == self.spec_sni(),
    {
        &self.sni
    }

    /// The transport of the handshakes.
    pub fn transport(&self) -> (r: Transport)
        ensures
            r == self.spec_transport(),
    {
        self.transport
    }

    /// The number of handshakes that a run attempts.
    pub fn num_handshakes(&self) -> (r: u64)
        ensures
            r == self.spec_num_handshakes(),
    {
        self.num_handshakes
    }

    /// The start of a run: as many attempts as the session asks for, none
    /// of them launched yet.
    pub fn fanout(&self) -> (r: Fanout)
        ensures
            r@ == FanoutState::initial(self.spec_num_handshakes()),
    {
        Fanout::new(self.num_handshakes)
    }

    /// Adds one sample, in milliseconds, to the distribution. A sample above
    /// `MAX_MILLIS` is refused, and the distribution stays as it was.
    pub fn record(&mut self, millis: u64) -> (r: Result<(), SampleOutOfRange>)
        requires
            old(self).wf(),
        ensures
            final(self).wf(),
            final(self).same_setup(old(self)),
            r is Ok <==> millis <= MAX_MILLIS,
            final(self).buckets() == offered(old(self).buckets(), millis),
            final(self).buckets().len() == BUCKETS,
    {
        proof {
            lemma_latency_geometry();
        }
        match histogram_increment(&mut self.hist, millis) {
            Ok(()) => Ok(()),
            Err(_) => Err(SampleOutOfRange),
        }
    }

    /// Folds the outcomes of a run into the distribution: one sample for
    /// each attempt that came back with a time, whether or not its handshake
    /// succeeded. An attempt that gave no result (`None`) adds nothing, and
    /// neither does a time of more than `MAX_MILLIS` milliseconds: it is
    /// refused, and moves no counter.
    ///
    /// As long as the counters have room, the number of samples grows by the
    /// number of times that lie within the range.
    pub fn run(&mut self, outcomes: &Vec<Option<HandshakeResult>>)
        requires
            old(self).wf(),
        ensures
            final(self).wf(),
            final(self).same_setup(old(self)),
            final(self).buckets() == tally(old(self).buckets(), samples_of(outcomes@)),
            final(self).buckets().len() == BUCKETS,
            room_for(old(self).buckets(), samples_of(outcomes@)) ==> total(final(self).buckets())
                == total(old(self).buckets()) + accepted(samples_of(outcomes@)),
    {
        proof {
            if room_for(self.buckets(), samples_of(outcomes@)) {
                lemma_tally_count(self.buckets(), samples_of(outcomes@));
            }
        }
        let mut i: usize = 0;
        assert(outcomes@.take(0) =~= Seq::empty());
        while i < outcomes.len()
            invariant
                i <= outcomes.len(),
                self.wf(),
                self.same_setup(old(self)),
                self.buckets() == tally(old(self).buckets(), samples_of(outcomes@.take(i as int))),
            decreases outcomes.len() - i,
        {
            let ghost before = samples_of(outcomes@.take(i as int));
            proof {
                assert(outcomes@.take(i + 1).drop_last() =~= outcomes@.take(i as int));
                assert(outcomes@.take(i + 1).last() == outcomes@[i as int]);
            }
            if let Some(result) = outcomes[i] {
                if let Some(millis) = result.as_sample() {
                    let _ = self.record(millis);
                    proof {
                        assert(before.push(millis).drop_last() =~= before);
                        assert(before.push(millis).last() == millis);
                    }
                }
            }
            i += 1;
        }
        assert(outcomes@.take(outcomes.len() as int) =~= outcomes@);
    }

    /// The number of samples in the distribution: the sum of all counters.
    pub fn sample_count(&self) -> (r: u128)
        requires
            self.wf(),
        ensures
            r == total(self.buckets()),
    {
        let list = histogram_buckets(&self.hist);
        count_of(&list, Ghost(self.buckets()))
    }

    /// The bucket that the percentile `percent` of the distribution falls
    /// into, by the nearest rank: the first bucket with which `percent`
    /// hundredths of all samples, rounded up, are counted. The percentile 0
    /// falls into the first bucket that is not empty and the percentile 100
    /// into the last. There is none for an empty distribution, nor for a
    /// `percent` above 100.
    pub fn percentile(&self, percent: u8) -> (r: Option<BucketCount>)
        requires
            self.wf(),
        ensures
            r is Some <==> percent <= 100 && total(self.buckets()) > 0,
            r matches Some(bucket) ==> is_percentile(self.buckets(), percent, bucket),
    {
        let list = histogram_buckets(&self.hist);
        let ghost buckets = self.buckets();
        let count = count_of(&list, Ghost(buckets));
        if percent > 100 || count == 0 {
            return None;
        }
        assert(percent * count <= 100 * count) by (nonlinear_arith)
            requires
                percent <= 100,
                count >= 0,
        ;
        assert(0 <= percent * count) by (nonlinear_arith)
            requires
                percent >= 0,
                count >= 0,
        ;
        let scaled: u128 = percent as u128 * count;
        let wanted: u128 = if scaled == 0 {
            1
        } else {
            (scaled + 99) / 100
        };
        assert(wanted == rank(percent, total(buckets)));
        let mut seen: u128 = 0;
        let mut i: usize = 0;
        assert(buckets.take(0) =~= Seq::empty());
        assert(buckets.take(buckets.len() as int) =~= buckets);
        while i < list.len()
            invariant
                i <= list.len(),
                list@.len() == buckets.len() == BUCKETS,
                list@ == Seq::new(buckets.len(), |k: int| bucket_at(buckets, latency_powers(), k)),
                buckets == self.buckets(),
                percent <= 100,
                wanted == rank(percent, total(buckets)),
                seen == total(buckets.take(i as int)),
                seen < wanted <= total(buckets) <= BUCKETS * u64::MAX,
                total(buckets.take(buckets.len() as int)) == total(buckets),
            decreases list.len() - i,
        {
            proof {
                assert(buckets.take(i + 1).drop_last() =~= buckets.take(i as int));
                assert(buckets.take(i + 1).last() == buckets[i as int]);
                lemma_total_grows(buckets, i + 1, buckets.len() as int);
            }
            let bucket = list[i];
            seen = seen + bucket.count as u128;
            if seen >= wanted {
                return Some(bucket);
            }
            i += 1;
        }
        None
    }

    /// The read-out of the distribution for presentation: the number of
    /// samples, and the buckets that the smallest sample, the median, the
    /// percentiles 90 and 99 and the largest sample fall into. There is none
    /// for an empty distribution.
    pub fn summary(&self) -> (r: Option<Summary>)
        requires
            self.wf(),
        ensures
            r is Some <==> total(self.buckets()) > 0,
            r matches Some(summary) ==> {
                &&& summary.count == total(self.buckets())
                &&& is_percentile(self.buckets(), 0, summary.min)
                &&& is_percentile(self.buckets(), 50, summary.p50)
                &&& is_percentile(self.buckets(), 90, summary.p90)
                &&& is_percentile(self.buckets(), 99, summary.p99)
                &&& is_percentile(self.buckets(), 100, summary.max)
            },
    {
        let count = self.sample_count();
        match (
            self.percentile(0),
            self.percentile(50),
            self.percentile(90),
            self.percentile(99),
            self.percentile(100),
        ) {
            (Some(min), Some(p50), Some(p90), Some(p99), Some(max)) => Some(
                Summary { count, min, p50, p90, p99, max },
            ),
            _ => None,
        }
    }
}

/// The read-out of a distribution.
#[derive(Debug, Clone, Copy, PartialEq, Eq, Structural)]
pub struct Summary {
    /// The number of samples.
    pub count: u128,
    /// The bucket of the smallest sample.
    pub min: BucketCount,
    /// The bucket of the median.
    pub p50: BucketCount,
    /// The bucket of the percentile 90.
    pub p90: BucketCount,
    /// The bucket of the percentile 99.
    pub p99: BucketCount,
    /// The bucket of the largest sample.
    pub max: BucketCount,
}

/// The sum of the counts of `list`, which lists the buckets of a latency
/// histogram with the counters `buckets`.
fn count_of(list: &Vec<BucketCount>, Ghost(buckets): Ghost<Seq<u64>>) -> (r: u128)
    requires
        buckets.len() == BUCKETS,
        list@ == Seq::new(buckets.len(), |k: int| bucket_at(buckets, latency_powers(), k)),
    ensures
        r == total(buckets),
        r <= BUCKETS * u64::MAX,
{
    let mut sum: u128 = 0;
    let mut i: usize = 0;
    assert(buckets.take(0) =~= Seq::empty());
    while i < list.len()
        invariant
            i <= list.len(),
            list@.len() == buckets.len() == BUCKETS,
            list@ == Seq::new(buckets.len(), |k: int| bucket_at(buckets, latency_powers(), k)),
            sum == total(buckets.take(i as int)),
            sum <= i * u64::MAX,
        decreases list.len() - i,
    {
        proof {
            assert(buckets.take(i + 1).drop_last() =~= buckets.take(i as int));
            assert(buckets.take(i + 1).last() == buckets[i as int]);
        }
        sum = sum + list[i].count as u128;
        i += 1;
    }
    assert(buckets.take(buckets.len() as int) =~= buckets);
    sum
}

/// A run without attempts adds nothing: with no outcomes to fold, the
/// distribution stays as it was, and one that was empty stays empty.
pub proof fn lemma_no_outcomes_no_samples(buckets: Seq<u64>)
    ensures
        samples_of(Seq::empty()) == Seq::<u64>::empty(),
        tally(buckets, samples_of(Seq::empty())) == buckets,
{
}

/// Only the outcomes that carry a time count, each once and in their order:
/// one more outcome adds its sample behind the others, or nothing.
pub proof fn lemma_samples_of_push(
    outcomes: Seq<Option<HandshakeResult>>,
    outcome: Option<HandshakeResult>,
)
    ensures
        samples_of(outcomes.push(outcome)) == match outcome {
            Some(HandshakeResult { duration: Some(elapsed), .. }) => samples_of(outcomes).push(
                elapsed.sample(),
            ),
            _ => samples_of(outcomes),
        },
        samples_of(outcomes).len() <= outcomes.len(),
    decreases outcomes.len(),
{
    assert(outcomes.push(outcome).drop_last() =~= outcomes);
    if outcomes.len() > 0 {
        lemma_samples_of_push(outcomes.drop_last(), outcomes.last());
        assert(outcomes.drop_last().push(outcomes.last()) =~= outcomes);
    }
}

/// The count after a run on an empty distribution: where every attempt came
/// back with a time that the histogram has a bucket for, there are as many
/// samples as there were attempts.
pub proof fn lemma_run_counts_every_attempt(outcomes: Seq<Option<HandshakeResult>>)
    requires
        outcomes.len() <= u64::MAX,
        forall|i: int|
            0 <= i < outcomes.len() ==> (#[trigger] outcomes[i] matches Some(result)
                && result.duration matches Some(elapsed) && elapsed.sample() <= MAX_MILLIS),
    ensures
        total(tally(Seq::new(BUCKETS as nat, |i: int| 0u64), samples_of(outcomes)))
            == outcomes.len(),
{
    lemma_all_samples(outcomes);
    crate::recorder::lemma_fresh_tally_total(samples_of(outcomes));
}

/// Where every outcome carries a time within the range, each outcome gives
/// one sample, and each sample is within the range.
proof fn lemma_all_samples(outcomes: Seq<Option<HandshakeResult>>)
    requires
        forall|i: int|
            0 <= i < outcomes.len() ==> (#[trigger] outcomes[i] matches Some(result)
                && result.duration matches Some(elapsed) && elapsed.sample() <= MAX_MILLIS),
    ensures
        samples_of(outcomes).len() == outcomes.len(),
        forall|i: int|
            0 <= i < outcomes.len() ==> (#[trigger] samples_of(outcomes)[i]) <= MAX_MILLIS,
    decreases outcomes.len(),
{
    if outcomes.len() > 0 {
        let last = outcomes[outcomes.len() - 1];
        assert(last is Some);
        lemma_all_samples(outcomes.drop_last());
    }
}

/// Each outcome with a time gives one sample, and no other outcome gives
/// one.
pub proof fn lemma_one_sample_for_each_time(outcomes: Seq<Option<HandshakeResult>>)
    ensures
        samples_of(outcomes).len() == timed(outcomes),
    decreases outcomes.len(),
{
    if outcomes.len() > 0 {
        lemma_one_sample_for_each_time(outcomes.drop_last());
    }
}

/// A time of more than `MAX_MILLIS` milliseconds, however long, is refused:
/// it moves no counter, and the samples before and after it are counted as
/// they would be without it.
pub proof fn lemma_long_time_is_refused(
    buckets: Seq<u64>,
    outcomes: Seq<Option<HandshakeResult>>,
    result: HandshakeResult,
)
    requires
        result.duration matches Some(elapsed) && elapsed.millis() > MAX_MILLIS,
    ensures
        result.sample() matches Some(sample) && sample > MAX_MILLIS && offered(buckets, sample)
            == buckets,
        tally(buckets, samples_of(outcomes.push(Some(result)))) == tally(
            buckets,
            samples_of(outcomes),
        ),
        forall|index: int| hits(samples_of(outcomes.push(Some(result))), index) == hits(
            samples_of(outcomes),
            index,
        ),
{
    let elapsed = result.duration->Some_0;
    lemma_sample_keeps_order(elapsed, MAX_MILLIS);
    lemma_samples_of_push(outcomes, Some(result));
    let samples = samples_of(outcomes).push(elapsed.sample());
    assert(samples.drop_last() =~= samples_of(outcomes));
    assert(samples.last() == elapsed.sample());
    assert forall|index: int| hits(samples, index) == hits(samples_of(outcomes), index) by {
        assert(hit(elapsed.sample(), index) == 0);
    }
}

/// The count after a run, whatever the session held before: where every
/// time that came back lies within the range and the counters have room,
/// the number of samples has grown by the number of outcomes with a time.
/// Outcomes without a time and attempts without a result add nothing, none
/// is lost and none is counted twice.
pub proof fn lemma_run_adds_the_timed(buckets: Seq<u64>, outcomes: Seq<Option<HandshakeResult>>)
    requires
        buckets.len() == BUCKETS,
        room_for(buckets, samples_of(outcomes)),
        forall|i: int|
            0 <= i < outcomes.len() ==> (#[trigger] outcomes[i] matches Some(result)
                && result.duration matches Some(elapsed) ==> elapsed.millis() <= MAX_MILLIS),
    ensures
        total(tally(buckets, samples_of(outcomes))) == total(buckets) + timed(outcomes),
{
    lemma_samples_within(outcomes);
    lemma_all_accepted(samples_of(outcomes));
    lemma_one_sample_for_each_time(outcomes);
    lemma_tally_count(buckets, samples_of(outcomes));
}

/// Where every time lies within the range, so does every sample.
proof fn lemma_samples_within(outcomes: Seq<Option<HandshakeResult>>)
    requires
        forall|i: int|
            0 <= i < outcomes.len() ==> (#[trigger] outcomes[i] matches Some(result)
                && result.duration matches Some(elapsed) ==> elapsed.millis() <= MAX_MILLIS),
    ensures
        forall|i: int|
            0 <= i < samples_of(outcomes).len() ==> (#[trigger] samples_of(outcomes)[i])
                <= MAX_MILLIS,
    decreases outcomes.len(),
{
    if outcomes.len() > 0 {
        let last = outcomes[outcomes.len() - 1];
        lemma_samples_within(outcomes.drop_last());
        let before = samples_of(outcomes.drop_last());
        match last {
            Some(HandshakeResult { duration: Some(elapsed), .. }) => {
                lemma_sample_keeps_order(elapsed, MAX_MILLIS);
                assert(elapsed.millis() <= MAX_MILLIS);
                assert(samples_of(outcomes) == before.push(elapsed.sample()));
            },
            _ => {
                assert(samples_of(outcomes) == before);
            },
        }
        assert forall|i: int| 0 <= i < samples_of(outcomes).len() implies (#[trigger] samples_of(
            outcomes,
        )[i]) <= MAX_MILLIS by {
            if i < before.len() {
                assert(before[i] <= MAX_MILLIS);
            }
        }
    }
}

/// Taking one outcome out takes its sample out of the samples, and leaves
/// the others.
proof fn lemma_samples_of_remove(outcomes: Seq<Option<HandshakeResult>>, at: int)
    requires
        0 <= at < outcomes.len(),
    ensures
        samples_of(outcomes).to_multiset() == match outcomes[at] {
            Some(HandshakeResult { duration: Some(elapsed), .. }) => samples_of(
                outcomes.remove(at),
            ).to_multiset().insert(elapsed.sample()),
            _ => samples_of(outcomes.remove(at)).to_multiset(),
        },
    decreases outcomes.len(),
{
    let rest = outcomes.remove(at);
    if at == outcomes.len() - 1 {
        assert(rest =~= outcomes.drop_last());
        samples_of(rest).to_multiset_ensures();
    } else {
        assert(rest.drop_last() =~= outcomes.drop_last().remove(at));
        assert(rest.last() == outcomes.last());
        lemma_samples_of_remove(outcomes.drop_last(), at);
        samples_of(outcomes.drop_last()).to_multiset_ensures();
        samples_of(rest.drop_last()).to_multiset_ensures();
        let held = samples_of(rest.drop_last()).to_multiset();
        match (outcomes.last(), outcomes[at]) {
            (
                Some(HandshakeResult { duration: Some(last), .. }),
                Some(HandshakeResult { duration: Some(elapsed), .. }),
            ) => {
                assert(held.insert(elapsed.sample()).insert(last.sample()) =~= held.insert(
                    last.sample(),
                ).insert(elapsed.sample()));
            },
            _ => {},
        }
    }
}

/// The samples of a run are the same in whatever order its attempts ended.
pub proof fn lemma_samples_any_order(
    first: Seq<Option<HandshakeResult>>,
    second: Seq<Option<HandshakeResult>>,
)
    requires
        first.to_multiset() == second.to_multiset(),
    ensures
        samples_of(first).to_multiset() == samples_of(second).to_multiset(),
    decreases first.len(),
{
    first.to_multiset_ensures();
    second.to_multiset_ensures();
    if first.len() > 0 {
        let outcome = first.last();
        assert(first[first.len() - 1] == outcome);
        assert(first.contains(outcome));
        assert(first.to_multiset().count(outcome) > 0);
        assert(second.to_multiset().count(outcome) > 0);
        assert(second.contains(outcome));
        let at = choose|at: int| 0 <= at < second.len() && second[at] == outcome;
        assert(first.remove(first.len() - 1) =~= first.drop_last());
        assert(first.drop_last().to_multiset() =~= second.remove(at).to_multiset());
        lemma_samples_any_order(first.drop_last(), second.remove(at));
        lemma_samples_of_remove(first, first.len() - 1);
        lemma_samples_of_remove(second, at);
    } else {
        assert(second.len() == 0);
    }
}

/// The distribution after a run does not depend on the order in which the
/// attempts ended: the same outcomes in another order leave the same
/// counters.
pub proof fn lemma_run_any_order(
    buckets: Seq<u64>,
    first: Seq<Option<HandshakeResult>>,
    second: Seq<Option<HandshakeResult>>,
)
    requires
        buckets.len() == BUCKETS,
        first.to_multiset() == second.to_multiset(),
    ensures
        tally(buckets, samples_of(first)) == tally(buckets, samples_of(second)),
        timed(first) == timed(second),
{
    lemma_samples_any_order(first, second);
    lemma_tally_any_order(buckets, samples_of(first), samples_of(second));
    lemma_one_sample_for_each_time(first);
    lemma_one_sample_for_each_time(second);
    samples_of(first).to_multiset_ensures();
    samples_of(second).to_multiset_ensures();
}

} // verus!
