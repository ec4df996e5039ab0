use tlsi::outcome::{Elapsed, HandshakeResult, StreamAttempt};

#[test]
fn millis_are_whole_milliseconds() {
    assert_eq!(Elapsed::new(0, 0).as_millis(), 0);
    assert_eq!(Elapsed::new(0, 999_999).as_millis(), 0);
    assert_eq!(Elapsed::new(0, 1_000_000).as_millis(), 1);
    assert_eq!(Elapsed::new(2, 345_678_901).as_millis(), 2345);
    assert_eq!(Elapsed::new(8, 191_999_999).as_millis(), 8191);
}

#[test]
fn millis_agree_with_std_duration() {
    for (secs, nanos) in [(0u64, 0u32), (0, 49_999_999), (1, 1), (5, 999_999_999), (u64::MAX, 999_999_999)] {
        let std = std::time::Duration::new(secs, nanos);
        assert_eq!(Elapsed::new(secs, nanos).as_millis(), std.as_millis());
        let expected = u64::try_from(std.as_millis()).unwrap_or(u64::MAX);
        assert_eq!(Elapsed::new(secs, nanos).as_sample(), expected);
    }
}

#[test]
fn from_millis_gives_back_the_millis() {
    for millis in [0u64, 1, 30, 999, 1000, 1001, 8191, 8192, u64::MAX] {
        let elapsed = Elapsed::from_millis(millis);
        assert_eq!(elapsed.as_millis(), millis as u128);
        assert_eq!(elapsed.as_sample(), millis);
        assert_eq!(elapsed, Elapsed { secs: millis / 1000, nanos: (millis % 1000) as u32 * 1_000_000 });
    }
}

#[test]
fn a_sample_is_the_millis_up_to_the_largest_u64() {
    // The longest span that still has its millis as its sample.
    let last = Elapsed::new(18_446_744_073_709_551, 615_999_999);
    assert_eq!(last.as_millis(), u64::MAX as u128);
    assert_eq!(last.as_sample(), u64::MAX);
    let below = Elapsed::new(18_446_744_073_709_551, 614_999_999);
    assert_eq!(below.as_sample(), u64::MAX - 1);
}

#[test]
fn a_span_of_more_millis_than_a_u64_holds_is_the_largest_sample() {
    let first = Elapsed::new(18_446_744_073_709_551, 616_000_000);
    assert_eq!(first.as_millis(), 1u128 << 64);
    assert_eq!(first.as_sample(), u64::MAX);
    let wrapped = Elapsed::new(18_446_744_073_709_552, 0);
    assert_eq!(wrapped.as_millis(), (1u128 << 64) + 384);
    assert_eq!(wrapped.as_sample(), u64::MAX);
    let longest = Elapsed::new(u64::MAX, u32::MAX);
    assert_eq!(longest.as_millis(), u64::MAX as u128 * 1000 + 4294);
    assert_eq!(longest.as_sample(), u64::MAX);
}

#[test]
fn a_completed_stream_handshake_keeps_its_time() {
    let elapsed = Elapsed::from_millis(12);
    assert_eq!(
        HandshakeResult::from_stream(StreamAttempt::Completed(elapsed)),
        HandshakeResult { success: true, duration: Some(elapsed) }
    );
}

#[test]
fn a_failed_stream_handshake_has_no_time() {
    let elapsed = Elapsed::from_millis(12);
    assert_eq!(
        HandshakeResult::from_stream(StreamAttempt::HandshakeFailed(elapsed)),
        HandshakeResult { success: false, duration: None }
    );
    assert_eq!(
        HandshakeResult::from_stream(StreamAttempt::ConnectFailed),
        HandshakeResult { success: false, duration: None }
    );
}

#[test]
fn stream_failure_implies_no_duration() {
    let attempts = [
        StreamAttempt::ConnectFailed,
        StreamAttempt::HandshakeFailed(Elapsed::new(0, 0)),
        StreamAttempt::HandshakeFailed(Elapsed::new(3, 7)),
        StreamAttempt::Completed(Elapsed::new(0, 0)),
        StreamAttempt::Completed(Elapsed::new(3, 7)),
    ];
    for attempt in attempts {
        let result = HandshakeResult::from_stream(attempt);
        if !result.success {
            assert_eq!(result.duration, None);
        } else {
            assert!(result.duration.is_some());
        }
    }
}

#[test]
fn a_datagram_attempt_keeps_its_time_either_way() {
    let elapsed = Elapsed::new(1, 500_000_000);
    assert_eq!(
        HandshakeResult::from_datagram(true, elapsed),
        HandshakeResult { success: true, duration: Some(elapsed) }
    );
    assert_eq!(
        HandshakeResult::from_datagram(false, elapsed),
        HandshakeResult { success: false, duration: Some(elapsed) }
    );
}

#[test]
fn the_sample_of_a_result_is_its_time_in_millis() {
    assert_eq!(HandshakeResult { success: true, duration: Some(Elapsed::new(1, 500_000_000)) }.as_sample(), Some(1500));
    assert_eq!(HandshakeResult { success: false, duration: Some(Elapsed::new(0, 2_999_999)) }.as_sample(), Some(2));
    assert_eq!(HandshakeResult { success: false, duration: None }.as_sample(), None);
    assert_eq!(HandshakeResult { success: true, duration: None }.as_sample(), None);
}

#[test]
fn the_default_result_is_a_failure_without_time() {
    assert_eq!(HandshakeResult::default(), HandshakeResult { success: false, duration: None });
}
