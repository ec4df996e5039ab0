use tlsi::fanout::{Fanout, FanoutAction, FanoutEvent};
use tlsi::outcome::{Elapsed, HandshakeResult};

fn timed(millis: u64) -> Option<HandshakeResult> {
    Some(HandshakeResult { success: true, duration: Some(Elapsed::from_millis(millis)) })
}

#[test]
fn a_run_of_three_launches_three_and_waits_for_three() {
    let mut fanout = Fanout::new(3);
    let mut launched = 0;
    let mut ended = 0;
    let mut action = fanout.pending();
    while action != FanoutAction::Done {
        action = match action {
            FanoutAction::Spawn => {
                assert_eq!(ended, 0);
                launched += 1;
                fanout.step(FanoutEvent::Spawned)
            }
            FanoutAction::Join => {
                assert_eq!(launched, 3);
                ended += 1;
                fanout.step(FanoutEvent::Joined(timed(ended)))
            }
            FanoutAction::Done => FanoutAction::Done,
        };
    }
    assert_eq!(launched, 3);
    assert_eq!(ended, 3);
    assert_eq!(fanout.into_outcomes(), Some(vec![timed(1), timed(2), timed(3)]));
}

#[test]
fn a_run_of_none_is_done_at_once() {
    let mut fanout = Fanout::new(0);
    assert_eq!(fanout.pending(), FanoutAction::Done);
    assert_eq!(fanout.step(FanoutEvent::Spawned), FanoutAction::Done);
    assert_eq!(fanout.step(FanoutEvent::Joined(None)), FanoutAction::Done);
    assert_eq!(fanout.into_outcomes(), Some(vec![]));
}

#[test]
fn a_run_is_not_done_before_all_have_ended() {
    let mut fanout = Fanout::new(2);
    assert_eq!(fanout.step(FanoutEvent::Spawned), FanoutAction::Spawn);
    assert_eq!(fanout.step(FanoutEvent::Spawned), FanoutAction::Join);
    assert_eq!(fanout.step(FanoutEvent::Joined(None)), FanoutAction::Join);
    assert_eq!(fanout.into_outcomes(), None);
}

#[test]
fn a_run_keeps_attempts_that_broke_off_among_its_outcomes() {
    let mut fanout = Fanout::new(2);
    fanout.step(FanoutEvent::Spawned);
    fanout.step(FanoutEvent::Spawned);
    fanout.step(FanoutEvent::Joined(None));
    assert_eq!(fanout.step(FanoutEvent::Joined(timed(4))), FanoutAction::Done);
    assert_eq!(fanout.into_outcomes(), Some(vec![None, timed(4)]));
}

#[test]
fn reports_out_of_turn_change_nothing() {
    let mut fanout = Fanout::new(1);
    assert_eq!(fanout.step(FanoutEvent::Joined(timed(1))), FanoutAction::Spawn);
    assert_eq!(fanout.step(FanoutEvent::Spawned), FanoutAction::Join);
    assert_eq!(fanout.step(FanoutEvent::Spawned), FanoutAction::Join);
    assert_eq!(fanout.step(FanoutEvent::Joined(timed(2))), FanoutAction::Done);
    assert_eq!(fanout.step(FanoutEvent::Joined(timed(3))), FanoutAction::Done);
    assert_eq!(fanout.step(FanoutEvent::Spawned), FanoutAction::Done);
    assert_eq!(fanout.into_outcomes(), Some(vec![timed(2)]));
}
