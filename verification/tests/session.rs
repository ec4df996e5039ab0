use tlsi::outcome::{Elapsed, HandshakeResult};
use tlsi::recorder::{BucketCount, BUCKETS, GROUPING_POWER, MAX_MILLIS, MAX_VALUE_POWER};
use tlsi::session::{SampleOutOfRange, Session};
use tlsi::transport::Transport;
use tlsi::Args;

fn session(attempts: u64) -> Session {
    Session::new("example.com".to_string(), 443, "example.com".to_string(), Transport::Tcp, attempts)
}

fn timed(success: bool, millis: u64) -> Option<HandshakeResult> {
    Some(HandshakeResult { success, duration: Some(Elapsed::from_millis(millis)) })
}

fn counters(session: &Session) -> Vec<u64> {
    session.hist.as_slice().to_vec()
}

#[test]
fn a_new_session_keeps_what_it_was_given() {
    let s = Session::new("host.test".to_string(), 8443, "sni.test".to_string(), Transport::Quic, 7);
    assert_eq!(s.host(), "host.test");
    assert_eq!(s.port(), 8443);
    assert_eq!(s.sni(), "sni.test");
    assert_eq!(s.transport(), Transport::Quic);
    assert_eq!(s.num_handshakes(), 7);
}

#[test]
fn a_new_session_has_an_empty_latency_histogram() {
    let s = session(3);
    assert_eq!(s.hist.config().grouping_power(), GROUPING_POWER);
    assert_eq!(s.hist.config().max_value_power(), MAX_VALUE_POWER);
    assert_eq!(s.hist.as_slice().len(), BUCKETS);
    assert!(s.hist.as_slice().iter().all(|c| *c == 0));
    assert_eq!(s.sample_count(), 0);
    assert_eq!(s.summary(), None);
    assert_eq!(s.percentile(50), None);
}

#[test]
fn the_constants_are_those_of_the_histogram() {
    assert_eq!(GROUPING_POWER, 8);
    assert_eq!(MAX_VALUE_POWER, 13);
    assert_eq!(BUCKETS, 1536);
    assert_eq!(MAX_MILLIS, 8191);
    let h = histogram::Histogram::new(GROUPING_POWER, MAX_VALUE_POWER).unwrap();
    assert_eq!(h.config().total_buckets(), BUCKETS);
    assert_eq!(h.iter().last().unwrap().end(), MAX_MILLIS);
}

#[test]
fn args_make_the_session_they_describe() {
    let args = Args {
        host: "h".to_string(),
        port: 1,
        sni: "s".to_string(),
        transport: Transport::Tcp,
        number_of_handshakes: 9,
    };
    let s = args.into_session();
    assert_eq!(s.host(), "h");
    assert_eq!(s.port(), 1);
    assert_eq!(s.sni(), "s");
    assert_eq!(s.transport(), Transport::Tcp);
    assert_eq!(s.num_handshakes(), 9);
    assert_eq!(s.sample_count(), 0);
}

#[test]
fn record_counts_a_sample_in_its_bucket() {
    let mut s = session(1);
    assert_eq!(s.record(30), Ok(()));
    let after = counters(&s);
    assert_eq!(after[30], 1);
    assert_eq!(after.iter().sum::<u64>(), 1);
    assert_eq!(s.sample_count(), 1);
}

#[test]
fn record_takes_the_largest_sample_and_refuses_the_next() {
    let mut s = session(1);
    assert_eq!(s.record(MAX_MILLIS), Ok(()));
    assert_eq!(counters(&s)[BUCKETS - 1], 1);
    let before = counters(&s);
    assert_eq!(s.record(MAX_MILLIS + 1), Err(SampleOutOfRange));
    assert_eq!(s.record(u64::MAX), Err(SampleOutOfRange));
    assert_eq!(counters(&s), before);
    assert_eq!(s.sample_count(), 1);
}

#[test]
fn samples_share_a_bucket_as_the_values_grow() {
    let mut s = session(1);
    // Up to 511 a bucket holds one value; from 512 on two, from 1024 on four.
    for value in [0u64, 1, 511, 512, 513, 514, 1023, 1024, 1027, 1028, 4096, 4111, 4112] {
        assert_eq!(s.record(value), Ok(()));
    }
    let after = counters(&s);
    assert_eq!(after[0], 1);
    assert_eq!(after[1], 1);
    assert_eq!(after[511], 1);
    assert_eq!(after[512], 2);
    assert_eq!(after[513], 1);
    assert_eq!(after[767], 1);
    assert_eq!(after[768], 2);
    assert_eq!(after[769], 1);
    assert_eq!(after[1280], 2);
    assert_eq!(after[1281], 1);
    assert_eq!(s.sample_count(), 13);
}

#[test]
fn the_count_is_the_number_of_samples_within_range() {
    let mut s = session(1);
    let mut k: u128 = 0;
    let mut value: u64 = 0;
    while value <= MAX_MILLIS {
        assert_eq!(s.record(value), Ok(()));
        k += 1;
        value += 7;
    }
    assert_eq!(s.sample_count(), k);
    assert_eq!(s.summary().unwrap().count, k);
}

#[test]
fn every_bucket_is_within_one_part_in_256() {
    let mut s = session(1);
    for value in 0..=MAX_MILLIS {
        assert_eq!(s.record(value), Ok(()));
    }
    assert_eq!(s.sample_count(), MAX_MILLIS as u128 + 1);
    let mut next: u64 = 0;
    for bucket in s.hist.iter() {
        assert_eq!(bucket.start(), next);
        assert_eq!(bucket.count(), bucket.end() - bucket.start() + 1);
        assert!(256 * (bucket.end() - bucket.start()) <= bucket.start());
        next = bucket.end() + 1;
    }
    assert_eq!(next, MAX_MILLIS + 1);
}

#[test]
fn run_counts_each_outcome_with_a_time() {
    let mut s = session(5);
    let outcomes = vec![timed(true, 10), timed(true, 10), timed(false, 700), None, timed(true, 3)];
    s.run(&outcomes);
    let after = counters(&s);
    assert_eq!(after[10], 2);
    assert_eq!(after[3], 1);
    assert_eq!(after[512 + (700 - 512) / 2], 1);
    assert_eq!(s.sample_count(), 4);
}

#[test]
fn run_skips_outcomes_without_a_time() {
    let mut s = session(3);
    let outcomes = vec![
        None,
        Some(HandshakeResult { success: false, duration: None }),
        Some(HandshakeResult { success: true, duration: None }),
    ];
    s.run(&outcomes);
    assert_eq!(s.sample_count(), 0);
    assert!(counters(&s).iter().all(|c| *c == 0));
}

#[test]
fn run_skips_times_that_are_out_of_range() {
    let mut s = session(3);
    let outcomes = vec![timed(true, 8191), timed(true, 8192), timed(true, 60_000)];
    s.run(&outcomes);
    assert_eq!(s.sample_count(), 1);
    assert_eq!(counters(&s)[BUCKETS - 1], 1);
}

#[test]
fn run_refuses_a_time_of_more_millis_than_a_u64_holds() {
    let mut s = session(3);
    let long = Some(HandshakeResult {
        success: true,
        duration: Some(Elapsed::new(18_446_744_073_709_552, 0)),
    });
    let longest = Some(HandshakeResult {
        success: false,
        duration: Some(Elapsed::new(u64::MAX, 999_999_999)),
    });
    s.run(&vec![timed(true, 20), long, longest, timed(true, 384)]);
    let after = counters(&s);
    assert_eq!(after[20], 1);
    assert_eq!(after[384], 1);
    assert_eq!(after[BUCKETS - 1], 0);
    assert_eq!(after.iter().sum::<u64>(), 2);
    assert_eq!(s.sample_count(), 2);
}

#[test]
fn run_keeps_every_sample_in_range_beside_one_that_is_refused() {
    let mut s = session(4);
    s.run(&vec![timed(true, 1), timed(true, 8192), timed(false, 8191), timed(true, 1)]);
    let after = counters(&s);
    assert_eq!(after[1], 2);
    assert_eq!(after[BUCKETS - 1], 1);
    assert_eq!(after.iter().sum::<u64>(), 3);
    assert_eq!(s.record(u64::MAX), Err(SampleOutOfRange));
    assert_eq!(counters(&s), after);
}

#[test]
fn run_counts_one_for_each_timed_outcome_on_top_of_what_was_there() {
    let mut s = session(6);
    for value in [3u64, 3, 900] {
        assert_eq!(s.record(value), Ok(()));
    }
    let before = s.sample_count();
    let outcomes = vec![
        timed(true, 3),
        None,
        Some(HandshakeResult { success: false, duration: None }),
        timed(false, 4000),
        timed(true, 900),
        None,
    ];
    s.run(&outcomes);
    assert_eq!(s.sample_count(), before + 3);
    assert_eq!(counters(&s)[3], 3);
    assert_eq!(s.host(), "example.com");
    assert_eq!(s.port(), 443);
    assert_eq!(s.sni(), "example.com");
    assert_eq!(s.transport(), Transport::Tcp);
    assert_eq!(s.num_handshakes(), 6);
}

#[test]
fn run_gives_the_same_counters_in_whatever_order_the_attempts_ended() {
    let outcomes = vec![timed(true, 5), None, timed(false, 700), timed(true, 9000), timed(true, 5)];
    let mut forwards = session(5);
    forwards.run(&outcomes);
    let mut backwards = session(5);
    backwards.run(&outcomes.iter().rev().cloned().collect());
    let mut shuffled = session(5);
    shuffled.run(&vec![outcomes[3], outcomes[0], outcomes[4], outcomes[2], outcomes[1]]);
    assert_eq!(counters(&forwards), counters(&backwards));
    assert_eq!(counters(&forwards), counters(&shuffled));
    assert_eq!(forwards.sample_count(), 3);
}

#[test]
fn run_with_no_attempts_leaves_the_distribution_empty() {
    let mut s = session(0);
    let fanout = s.fanout();
    let outcomes = fanout.into_outcomes().unwrap();
    assert!(outcomes.is_empty());
    s.run(&outcomes);
    assert_eq!(s.sample_count(), 0);
    assert_eq!(s.summary(), None);
    assert!(counters(&s).iter().all(|c| *c == 0));
}

#[test]
fn run_adds_to_what_was_counted_before() {
    let mut s = session(2);
    s.run(&vec![timed(true, 5), timed(true, 6)]);
    s.run(&vec![timed(true, 5)]);
    assert_eq!(counters(&s)[5], 2);
    assert_eq!(counters(&s)[6], 1);
    assert_eq!(s.sample_count(), 3);
}

#[test]
fn run_is_the_same_as_recording_each_sample() {
    let millis = [0u64, 49, 512, 513, 8191, 9000, 1024, 49];
    let mut by_run = session(8);
    by_run.run(&millis.iter().map(|m| timed(true, *m)).collect());
    let mut by_record = session(8);
    for m in millis {
        let _ = by_record.record(m);
    }
    assert_eq!(counters(&by_run), counters(&by_record));
}

#[test]
fn five_fast_stream_handshakes_give_five_samples_under_50_ms() {
    let mut s = Session::new("example.com".to_string(), 443, "example.com".to_string(), Transport::Tcp, 5);
    let outcomes = vec![timed(true, 12), timed(true, 49), timed(true, 7), timed(true, 31), timed(true, 12)];
    s.run(&outcomes);
    let summary = s.summary().unwrap();
    assert_eq!(summary.count, 5);
    for bucket in [summary.min, summary.p50, summary.p90, summary.p99, summary.max] {
        assert!(bucket.end < 50);
    }
    assert_eq!(summary.min, BucketCount { index: 7, count: 1, start: 7, end: 7 });
    assert_eq!(summary.p50, BucketCount { index: 12, count: 2, start: 12, end: 12 });
    assert_eq!(summary.p90, BucketCount { index: 49, count: 1, start: 49, end: 49 });
    assert_eq!(summary.p99, BucketCount { index: 49, count: 1, start: 49, end: 49 });
    assert_eq!(summary.max, BucketCount { index: 49, count: 1, start: 49, end: 49 });
}

#[test]
fn percentiles_go_by_the_nearest_rank() {
    let mut s = session(1);
    for value in 1..=100u64 {
        assert_eq!(s.record(value), Ok(()));
    }
    assert_eq!(s.percentile(0).unwrap().start, 1);
    assert_eq!(s.percentile(1).unwrap().start, 1);
    assert_eq!(s.percentile(2).unwrap().start, 2);
    assert_eq!(s.percentile(50).unwrap().start, 50);
    assert_eq!(s.percentile(99).unwrap().start, 99);
    assert_eq!(s.percentile(100).unwrap().start, 100);
    assert_eq!(s.percentile(101), None);
    assert_eq!(s.percentile(255), None);
}

#[test]
fn a_percentile_names_the_bucket_with_its_range() {
    let mut s = session(1);
    for value in [600u64, 601, 5000] {
        assert_eq!(s.record(value), Ok(()));
    }
    assert_eq!(s.percentile(50), Some(BucketCount { index: 556, count: 2, start: 600, end: 601 }));
    assert_eq!(
        s.percentile(100),
        Some(BucketCount { index: 1280 + (5000 - 4096) / 16, count: 1, start: 4992, end: 5007 })
    );
}

#[test]
fn percentiles_agree_with_the_histogram_crate() {
    let mut s = session(1);
    let mut value: u64 = 3;
    for _ in 0..500 {
        assert_eq!(s.record(value % (MAX_MILLIS + 1)), Ok(()));
        value = value * 31 + 17;
    }
    for percent in [1u8, 10, 25, 50, 75, 90, 99, 100] {
        let ours = s.percentile(percent).unwrap();
        let theirs = s.hist.quantile_bucket(percent as f64 / 100.0).unwrap().unwrap();
        assert_eq!((ours.count, ours.start, ours.end), (theirs.count(), theirs.start(), theirs.end()));
    }
}

#[test]
fn percentiles_do_not_go_down() {
    let mut s = session(1);
    for value in [8000u64, 1, 1, 700, 33, 33, 33, 4095, 4096] {
        assert_eq!(s.record(value), Ok(()));
    }
    let mut last = 0;
    for percent in 0..=100u8 {
        let bucket = s.percentile(percent).unwrap();
        assert!(bucket.index >= last);
        assert!(bucket.count > 0);
        assert!(256 * (bucket.end - bucket.start) <= bucket.start);
        last = bucket.index;
    }
}
