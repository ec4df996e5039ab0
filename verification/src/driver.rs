//! The driver of the datagram handshake.
//!
//! A QUIC handshake is not one call: the connection object has to be asked
//! for datagrams, these have to be sent, the socket has to be waited on, and
//! what arrives has to be fed back, round after round, until the connection
//! reports that it is established. The driver decides what is done next. It
//! touches neither the connection nor the socket: it names an [`Action`],
//! the caller performs it and reports what happened as an [`Event`].
//!
//! One round is: produce datagrams into the buffer, one behind the other,
//! until the connection has no more; transmit what was produced to the last
//! destination that the connection named; wait until the socket is readable;
//! receive; feed what was received to the connection; check whether it is
//! established. A read that would block starts the next round and is no
//! failure. Any other failed read ends the attempt without success.
//!
//! The driver sets no limit on the rounds or on the time of an attempt. As
//! long as nothing arrives from the target, the caller waits for the socket
//! and the attempt does not end.
//!
//! The address type `A` is whatever the caller's socket uses.

use crate::outcome::{Elapsed, HandshakeResult};
use vstd::prelude::*;

verus! {

/// The size of the buffer that datagrams are produced into and received
/// into, in bytes.
pub const BUFFER_LEN: usize = 65536;

/// Why an attempt ended without a result.
#[derive(Debug, Clone, Copy, PartialEq, Eq, Structural)]
pub enum Fault {
    /// The connection had nothing to send before it ever named a
    /// destination.
    NoBytesWritten,
    /// A length was reported that the buffer cannot hold.
    Overrun,
    /// The datagram could not be sent.
    TransmitFailed,
    /// Waiting for the socket to become readable failed.
    ReadinessFailed,
}

/// What the caller is to do next.
#[derive(Debug, Clone, Copy, PartialEq, Eq)]
pub enum Action<A> {
    /// Ask the connection for its next datagram, to be written into the
    /// buffer from `offset` on.
    Produce { offset: usize },
    /// Send the first `len` bytes of the buffer to `to` as one datagram.
    Transmit { len: usize, to: A },
    /// Wait until the socket is readable.
    AwaitReadable,
    /// Read one datagram into the buffer, without blocking.
    Receive,
    /// Hand the first `len` bytes of the buffer to the connection.
    Feed { len: usize },
    /// Ask the connection whether it is established.
    CheckEstablished,
    /// The attempt is over, and has a result.
    Finish { success: bool },
    /// The attempt is over, and has no result.
    Abandon(Fault),
}

/// What the caller reports back.
#[derive(Debug, Clone, Copy, PartialEq, Eq)]
pub enum Event<A> {
    /// The connection wrote a datagram of `written` bytes, to go to `to`.
    Produced { written: usize, to: A },
    /// The connection wrote nothing: it has no more to send in this round,
    /// or it failed to write.
    ProduceEnded,
    /// The datagram was sent.
    Transmitted,
    /// The datagram could not be sent.
    TransmitFailed,
    /// The socket is readable.
    Readable,
    /// Waiting for the socket failed.
    ReadinessFailed,
    /// A datagram of `len` bytes was read.
    Received { len: usize },
    /// No datagram was there to read.
    WouldBlock,
    /// Reading failed otherwise.
    ReceiveFailed,
    /// The connection was handed the datagram; `accepted` says whether it
    /// could process it.
    Fed { accepted: bool },
    /// The connection said whether it is established.
    Established(bool),
}

/// The state of one attempt.
pub struct DriverState<A> {
    /// The size of the buffer.
    pub capacity: usize,
    /// The last destination that the connection named.
    pub destination: Option<A>,
    /// What the caller is to do next.
    pub pending: Action<A>,
}

impl<A> Action<A> {
    /// Whether the attempt is over.
    pub open spec fn is_final(self) -> bool {
        self is Finish || self is Abandon
    }

    /// Whether `event` reports on this action.
    pub open spec fn answered_by(self, event: Event<A>) -> bool {
        match self {
            Action::Produce { .. } => event is Produced || event is ProduceEnded,
            Action::Transmit { .. } => event is Transmitted || event is TransmitFailed,
            Action::AwaitReadable => event is Readable || event is ReadinessFailed,
            Action::Receive => event is Received || event is WouldBlock || event is ReceiveFailed,
            Action::Feed { .. } => event is Fed,
            Action::CheckEstablished => event is Established,
            Action::Finish { .. } => false,
            Action::Abandon(_) => false,
        }
    }

    /// Whether the buffer holds the bytes that this action speaks of.
    pub open spec fn fits(self, capacity: usize) -> bool {
        match self {
            Action::Produce { offset } => offset <= capacity,
            Action::Transmit { len, .. } => len <= capacity,
            Action::Feed { len } => len <= capacity,
            _ => true,
        }
    }
}

impl<A> DriverState<A> {
    /// The state at the start of an attempt.
    pub open spec fn initial(capacity: usize) -> DriverState<A> {
        DriverState { capacity, destination: None, pending: Action::Produce { offset: 0 } }
    }

    /// The state with another action pending.
    pub open spec fn with(self, pending: Action<A>) -> DriverState<A> {
        DriverState { pending, ..self }
    }

    /// The state after `event`. An event that does not report on the pending
    /// action changes nothing.
    pub open spec fn next(self, event: Event<A>) -> DriverState<A> {
        match (self.pending, event) {
            (Action::Produce { offset }, Event::Produced { written, to }) => {
                if offset + written <= self.capacity {
                    DriverState {
                        capacity: self.capacity,
                        destination: Some(to),
                        pending: Action::Produce { offset: (offset + written) as usize },
                    }
                } else {
                    self.with(Action::Abandon(Fault::Overrun))
                }
            },
            (Action::Produce { offset }, Event::ProduceEnded) => match self.destination {
                Some(to) => self.with(Action::Transmit { len: offset, to }),
                None => self.with(Action::Abandon(Fault::NoBytesWritten)),
            },
            (Action::Transmit { .. }, Event::Transmitted) => self.with(Action::AwaitReadable),
            (Action::Transmit { .. }, Event::TransmitFailed) => self.with(
                Action::Abandon(Fault::TransmitFailed),
            ),
            (Action::AwaitReadable, Event::Readable) => self.with(Action::Receive),
            (Action::AwaitReadable, Event::ReadinessFailed) => self.with(
                Action::Abandon(Fault::ReadinessFailed),
            ),
            (Action::Receive, Event::Received { len }) => {
                if len <= self.capacity {
                    self.with(Action::Feed { len })
                } else {
                    self.with(Action::Abandon(Fault::Overrun))
                }
            },
            (Action::Receive, Event::WouldBlock) => self.with(Action::Produce { offset: 0 }),
            (Action::Receive, Event::ReceiveFailed) => self.with(Action::Finish { success: false }),
            (Action::Feed { .. }, Event::Fed { .. }) => self.with(Action::CheckEstablished),
            (Action::CheckEstablished, Event::Established(established)) => {
                if established {
                    self.with(Action::Finish { success: true })
                } else {
                    self.with(Action::Produce { offset: 0 })
                }
            },
            _ => self,
        }
    }

    /// The state after the events of `events`, one after the other.
    pub open spec fn after(self, events: Seq<Event<A>>) -> DriverState<A>
        decreases events.len(),
    {
        if events.len() == 0 {
            self
        } else {
            self.after(events.drop_last()).next(events.last())
        }
    }

    /// Whether each event of `events`, when it came, reported on the action
    /// that was pending.
    pub open spec fn follows(self, events: Seq<Event<A>>) -> bool
        decreases events.len(),
    {
        events.len() > 0 ==> {
            &&& self.follows(events.drop_last())
            &&& self.after(events.drop_last()).pending.answered_by(events.last())
        }
    }
}

/// The destination that the last `Produced` event of `events` named.
pub open spec fn last_destination<A>(events: Seq<Event<A>>) -> Option<A>
    decreases events.len(),
{
    if events.len() == 0 {
        None
    } else {
        match events.last() {
            Event::Produced { to, .. } => Some(to),
            _ => last_destination(events.drop_last()),
        }
    }
}

/// The driver of one attempt.
pub struct Driver<A> {
    state: DriverState<A>,
}

impl<A> View for Driver<A> {
    type V = DriverState<A>;

    closed spec fn view(&self) -> DriverState<A> {
        self.state
    }
}

impl<A: Copy> Driver<A> {
    /// A driver at the start of an attempt, for a buffer of `capacity`
    /// bytes. The first thing to do is to produce, at the start of the
    /// buffer.
    pub fn new(capacity: usize) -> (r: Driver<A>)
        ensures
            r@ == DriverState::<A>::initial(capacity),
    {
        Driver {
            state: DriverState {
                capacity,
                destination: None,
                pending: Action::Produce { offset: 0 },
            },
        }
    }

    /// What the caller is to do next.
    pub fn pending(&self) -> (r: Action<A>)
        ensures
            r == self@.pending,
    {
        self.state.pending
    }

    /// Takes in what happened and says what is to be done next.
    pub fn step(&mut self, event: Event<A>) -> (r: Action<A>)
        ensures
            final(self)@ == old(self)@.next(event),
            r == final(self)@.pending,
    {
        let capacity = self.state.capacity;
        let next: Option<Action<A>> = match (self.state.pending, event) {
            (Action::Produce { offset }, Event::Produced { written, to }) => {
                if offset <= capacity && written <= capacity - offset {
                    self.state.destination = Some(to);
                    Some(Action::Produce { offset: offset + written })
                } else {
                    Some(Action::Abandon(Fault::Overrun))
                }
            },
            (Action::Produce { offset }, Event::ProduceEnded) => match self.state.destination {
                Some(to) => Some(Action::Transmit { len: offset, to }),
                None => Some(Action::Abandon(Fault::NoBytesWritten)),
            },
            (Action::Transmit { .. }, Event::Transmitted) => Some(Action::AwaitReadable),
            (Action::Transmit { .. }, Event::TransmitFailed) => Some(
                Action::Abandon(Fault::TransmitFailed),
            ),
            (Action::AwaitReadable, Event::Readable) => Some(Action::Receive),
            (Action::AwaitReadable, Event::ReadinessFailed) => Some(
                Action::Abandon(Fault::ReadinessFailed),
            ),
            (Action::Receive, Event::Received { len }) => {
                if len <= capacity {
                    Some(Action::Feed { len })
                } else {
                    Some(Action::Abandon(Fault::Overrun))
                }
            },
            (Action::Receive, Event::WouldBlock) => Some(Action::Produce { offset: 0 }),
            (Action::Receive, Event::ReceiveFailed) => Some(Action::Finish { success: false }),
            (Action::Feed { .. }, Event::Fed { .. }) => Some(Action::CheckEstablished),
            (Action::CheckEstablished, Event::Established(established)) => {
                if established {
                    Some(Action::Finish { success: true })
                } else {
                    Some(Action::Produce { offset: 0 })
                }
            },
            _ => None,
        };
        if let Some(action) = next {
            self.state.pending = action;
        }
        self.state.pending
    }

    /// The result of the attempt, once it is over and has one: whether the
    /// handshake was completed, with the time that the exchange took. The
    /// time is kept for a failed handshake too.
    pub fn outcome(&self, elapsed: Elapsed) -> (r: Option<HandshakeResult>)
        ensures
            match self@.pending {
                Action::Finish { success } => r == Some(
                    HandshakeResult { success, duration: Some(elapsed) },
                ),
                _ => r is None,
            },
    {
        match self.state.pending {
            Action::Finish { success } => Some(HandshakeResult::from_datagram(success, elapsed)),
            _ => None,
        }
    }
}

/// An attempt that is over stays as it is, whatever is reported.
pub proof fn lemma_over_is_over<A>(state: DriverState<A>, events: Seq<Event<A>>)
    requires
        state.pending.is_final(),
    ensures
        state.after(events) == state,
    decreases events.len(),
{
    if events.len() > 0 {
        lemma_over_is_over(state, events.drop_last());
    }
}

/// The driver never asks for more than the buffer holds: from the start of
/// an attempt on, every offset and length that it names lies within the
/// buffer, and the size of the buffer stays what it was.
pub proof fn lemma_within_buffer<A>(capacity: usize, events: Seq<Event<A>>)
    ensures
        DriverState::<A>::initial(capacity).after(events).pending.fits(capacity),
        DriverState::<A>::initial(capacity).after(events).capacity == capacity,
    decreases events.len(),
{
    if events.len() > 0 {
        lemma_within_buffer(capacity, events.drop_last());
    }
}

/// An attempt succeeds only on the connection's word: where it ends in
/// success, the caller has reported the connection established.
pub proof fn lemma_success_is_established<A>(capacity: usize, events: Seq<Event<A>>)
    requires
        DriverState::<A>::initial(capacity).after(events).pending == (Action::<A>::Finish {
            success: true,
        }),
    ensures
        exists|i: int| 0 <= i < events.len() && events[i] == Event::<A>::Established(true),
    decreases events.len(),
{
    let start = DriverState::<A>::initial(capacity);
    if events.len() > 0 {
        let before = start.after(events.drop_last());
        if before.pending == (Action::<A>::Finish { success: true }) {
            lemma_success_is_established(capacity, events.drop_last());
            let i = choose|i: int|
                0 <= i < events.drop_last().len() && events.drop_last()[i] == Event::<
                    A,
                >::Established(true);
            assert(events[i] == events.drop_last()[i]);
        } else {
            assert(events.last() == Event::<A>::Established(true));
            assert(events[events.len() - 1] == Event::<A>::Established(true));
        }
    }
}

/// A read that finds nothing is no failure: the driver starts the next
/// round, at the start of the buffer, and keeps the destination.
pub proof fn lemma_would_block_starts_a_round<A>(state: DriverState<A>)
    requires
        state.pending == Action::<A>::Receive,
    ensures
        state.next(Event::WouldBlock).pending == (Action::<A>::Produce { offset: 0 }),
        state.next(Event::WouldBlock).destination == state.destination,
{
}

/// What is transmitted goes to the last destination that the connection
/// named: as long as every report answers what was asked, the driver holds
/// the destination of the latest datagram produced, and a transmission is
/// addressed to it.
pub proof fn lemma_sent_to_last_destination<A>(capacity: usize, events: Seq<Event<A>>)
    requires
        DriverState::<A>::initial(capacity).follows(events),
    ensures
        DriverState::<A>::initial(capacity).after(events).destination == last_destination(events)
            || DriverState::<A>::initial(capacity).after(events).pending == Action::<A>::Abandon(
            Fault::Overrun,
        ),
        DriverState::<A>::initial(capacity).after(events).pending matches Action::Transmit {
            to,
            ..
        } ==> last_destination(events) == Some(to),
    decreases events.len(),
{
    if events.len() > 0 {
        lemma_sent_to_last_destination(capacity, events.drop_last());
    }
}

/// A round transmits what it produced: after a run of datagrams was
/// produced from the start of the buffer and the connection had no more,
/// the length to transmit is the sum of their lengths.
pub proof fn lemma_round_length<A>(state: DriverState<A>, lengths: Seq<usize>, to: A)
    requires
        state.pending == (Action::<A>::Produce { offset: 0 }),
        lengths.len() > 0,
        sum(lengths) <= state.capacity,
    ensures
        state.after(produced(lengths, to)).pending == (Action::<A>::Produce {
            offset: sum(lengths) as usize,
        }),
        state.after(produced(lengths, to)).destination == Some(to),
        state.after(produced(lengths, to)).capacity == state.capacity,
        state.after(produced(lengths, to)).next(Event::ProduceEnded).pending == (Action::<
            A,
        >::Transmit { len: sum(lengths) as usize, to }),
    decreases lengths.len(),
{
    let events = produced(lengths, to);
    let before = state.after(events.drop_last());
    assert(events.drop_last() =~= produced(lengths.drop_last(), to));
    assert(events.last() == Event::Produced { written: lengths.last(), to });
    if lengths.len() > 1 {
        lemma_round_length(state, lengths.drop_last(), to);
    } else {
        assert(sum(lengths.drop_last()) == 0);
        assert(before == state);
    }
    assert(before.pending == (Action::<A>::Produce { offset: sum(lengths.drop_last()) as usize }));
    assert(state.after(events) == before.next(events.last()));
}

/// The sum of `lengths`.
pub open spec fn sum(lengths: Seq<usize>) -> nat
    decreases lengths.len(),
{
    if lengths.len() == 0 {
        0
    } else {
        sum(lengths.drop_last()) + lengths.last() as nat
    }
}

/// The reports of datagrams of `lengths` bytes, all for `to`.
pub open spec fn produced<A>(lengths: Seq<usize>, to: A) -> Seq<Event<A>> {
    Seq::new(lengths.len(), |i: int| Event::Produced { written: lengths[i], to })
}

} // verus!
