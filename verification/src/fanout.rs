//! The fan-out of a run and the barrier behind it.
//!
//! A run launches all its attempts and then waits for every one of them,
//! in whatever order they end, before anything is done with their outcomes.
//! The attempts themselves run elsewhere. Here it is decided what is to be
//! done next, launch one more attempt or wait for one more to end, and
//! when the run is complete.

use crate::outcome::HandshakeResult;
use vstd::prelude::*;

verus! {

/// What the caller is to do next.
#[derive(Debug, Clone, Copy, PartialEq, Eq, Structural)]
pub enum FanoutAction {
    /// Launch one more attempt.
    Spawn,
    /// Wait until one more attempt has ended.
    Join,
    /// Every attempt was launched and has ended.
    Done,
}

/// What the caller reports back.
#[derive(Debug, Clone, Copy, PartialEq, Eq, Structural)]
pub enum FanoutEvent {
    /// An attempt was launched.
    Spawned,
    /// An attempt has ended: with this result, or with none where it broke
    /// off.
    Joined(Option<HandshakeResult>),
}

/// How far a run has come.
pub struct FanoutState {
    /// The number of attempts of the run.
    pub target: u64,
    /// The number of attempts launched so far.
    pub spawned: u64,
    /// The outcomes of the attempts that have ended, as they came in.
    pub outcomes: Seq<Option<HandshakeResult>>,
}

impl FanoutState {
    /// A run of `target` attempts before anything was done.
    pub open spec fn initial(target: u64) -> FanoutState {
        FanoutState { target, spawned: 0, outcomes: Seq::empty() }
    }

    /// What is to be done next: launch until all attempts are launched, then
    /// wait until all have ended.
    pub open spec fn pending(self) -> FanoutAction {
        if self.spawned < self.target {
            FanoutAction::Spawn
        } else if self.outcomes.len() < self.target {
            FanoutAction::Join
        } else {
            FanoutAction::Done
        }
    }

    /// The state after `event`. A report that does not answer what was asked
    /// changes nothing.
    pub open spec fn next(self, event: FanoutEvent) -> FanoutState {
        match (self.pending(), event) {
            (FanoutAction::Spawn, FanoutEvent::Spawned) => FanoutState {
                spawned: (self.spawned + 1) as u64,
                ..self
            },
            (FanoutAction::Join, FanoutEvent::Joined(outcome)) => FanoutState {
                outcomes: self.outcomes.push(outcome),
                ..self
            },
            _ => self,
        }
    }

    /// The state after the events of `events`, one after the other.
    pub open spec fn after(self, events: Seq<FanoutEvent>) -> FanoutState
        decreases events.len(),
    {
        if events.len() == 0 {
            self
        } else {
            self.after(events.drop_last()).next(events.last())
        }
    }

    /// What holds of a run at every moment: no more attempts are launched
    /// than the run has, none has ended that was not launched, and none is
    /// waited for before all are launched.
    pub open spec fn orderly(self) -> bool {
        &&& self.spawned <= self.target
        &&& self.outcomes.len() <= self.spawned
        &&& self.outcomes.len() > 0 ==> self.spawned == self.target
    }
}

/// The progress of one run.
pub struct Fanout {
    target: u64,
    spawned: u64,
    outcomes: Vec<Option<HandshakeResult>>,
}

impl View for Fanout {
    type V = FanoutState;

    closed spec fn view(&self) -> FanoutState {
        FanoutState { target: self.target, spawned: self.spawned, outcomes: self.outcomes@ }
    }
}

impl Fanout {
    /// The start of a run of `target` attempts.
    pub fn new(target: u64) -> (r: Fanout)
        ensures
            r@ == FanoutState::initial(target),
    {
        Fanout { target, spawned: 0, outcomes: Vec::new() }
    }

    /// What the caller is to do next.
    pub fn pending(&self) -> (r: FanoutAction)
        ensures
            r == self@.pending(),
    {
        if self.spawned < self.target {
            FanoutAction::Spawn
        } else if (self.outcomes.len() as u64) < self.target {
            FanoutAction::Join
        } else {
            FanoutAction::Done
        }
    }

    /// Takes in what happened and says what is to be done next.
    pub fn step(&mut self, event: FanoutEvent) -> (r: FanoutAction)
        ensures
            final(self)@ == old(self)@.next(event),
            r == final(self)@.pending(),
    {
        match (self.pending(), event) {
            (FanoutAction::Spawn, FanoutEvent::Spawned) => {
                self.spawned = self.spawned + 1;
            },
            (FanoutAction::Join, FanoutEvent::Joined(outcome)) => {
                self.outcomes.push(outcome);
            },
            _ => {},
        }
        self.pending()
    }

    /// The outcomes of a complete run, in the order in which the attempts
    /// ended; `None` as long as an attempt is yet to be launched or to end.
    pub fn into_outcomes(self) -> (r: Option<Vec<Option<HandshakeResult>>>)
        ensures
            self@.pending() is Done <==> r is Some,
            r matches Some(outcomes) ==> outcomes@ == self@.outcomes,
    {
        match self.pending() {
            FanoutAction::Done => Some(self.outcomes),
            _ => None,
        }
    }
}

/// A run stays orderly.
pub proof fn lemma_orderly(target: u64, events: Seq<FanoutEvent>)
    ensures
        FanoutState::initial(target).after(events).orderly(),
        FanoutState::initial(target).after(events).target == target,
    decreases events.len(),
{
    if events.len() > 0 {
        lemma_orderly(target, events.drop_last());
    }
}

/// The barrier: a run of `target` attempts is complete exactly when
/// `target` attempts were launched and `target` attempts have ended. It is
/// not complete before, and there is never one attempt more.
pub proof fn lemma_done_is_all(target: u64, events: Seq<FanoutEvent>)
    ensures
        FanoutState::initial(target).after(events).pending() is Done <==> {
            &&& FanoutState::initial(target).after(events).spawned == target
            &&& FanoutState::initial(target).after(events).outcomes.len() == target
        },
        FanoutState::initial(target).after(events).spawned <= target,
        FanoutState::initial(target).after(events).outcomes.len() <= target,
{
    lemma_orderly(target, events);
}

/// A run of no attempts is complete at once: nothing is launched, nothing is
/// waited for, and there are no outcomes.
pub proof fn lemma_nothing_to_do(events: Seq<FanoutEvent>)
    ensures
        FanoutState::initial(0).pending() is Done,
        FanoutState::initial(0).after(events) == FanoutState::initial(0),
    decreases events.len(),
{
    if events.len() > 0 {
        lemma_nothing_to_do(events.drop_last());
    }
}

/// A caller that does as it is told gets through: after `target` launches
/// and `target` ends, reported in this order, the run is complete and holds
/// the outcomes as they came in.
pub proof fn lemma_run_completes(target: u64, outcomes: Seq<Option<HandshakeResult>>)
    requires
        outcomes.len() == target,
    ensures
        FanoutState::initial(target).after(script(target, outcomes)).pending() is Done,
        FanoutState::initial(target).after(script(target, outcomes)).outcomes == outcomes,
{
    lemma_script(target, outcomes, target as nat + outcomes.len());
    assert(script(target, outcomes).take(target + outcomes.len()) =~= script(
        target,
        outcomes,
    ));
    assert(outcomes.take(outcomes.len() as int) =~= outcomes);
}

/// The reports of a run in which `target` attempts are launched and then end
/// with `outcomes`.
pub open spec fn script(target: u64, outcomes: Seq<Option<HandshakeResult>>) -> Seq<FanoutEvent> {
    Seq::new(
        target as nat + outcomes.len(),
        |i: int|
            if i < target {
                FanoutEvent::Spawned
            } else {
                FanoutEvent::Joined(outcomes[i - target])
            },
    )
}

/// Where a run stands after the first `upto` reports of its script.
proof fn lemma_script(target: u64, outcomes: Seq<Option<HandshakeResult>>, upto: nat)
    requires
        outcomes.len() == target,
        upto <= target as nat + outcomes.len(),
    ensures
        upto <= target ==> FanoutState::initial(target).after(
            script(target, outcomes).take(upto as int),
        ) == (FanoutState { target, spawned: upto as u64, outcomes: Seq::empty() }),
        upto > target ==> FanoutState::initial(target).after(
            script(target, outcomes).take(upto as int),
        ) == (FanoutState { target, spawned: target, outcomes: outcomes.take(upto - target) }),
    decreases upto,
{
    let events = script(target, outcomes).take(upto as int);
    if upto > 0 {
        lemma_script(target, outcomes, (upto - 1) as nat);
        assert(events.drop_last() =~= script(target, outcomes).take(upto - 1));
        if upto > target {
            assert(events.last() == FanoutEvent::Joined(outcomes[upto - 1 - target]));
            assert(outcomes.take(upto - target) =~= outcomes.take(upto - 1 - target).push(
                outcomes[upto - 1 - target],
            ));
            if upto - 1 == target {
                assert(outcomes.take(0) =~= Seq::empty());
            }
        } else {
            assert(events.last() == FanoutEvent::Spawned);
        }
    }
}

} // verus!
