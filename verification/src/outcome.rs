//! What one handshake attempt leaves behind: whether it succeeded, and the
//! time that was measured for it.

use vstd::prelude::*;

verus! {

/// A span of time, as whole seconds and the nanoseconds beyond them.
#[derive(Debug, Clone, Copy, PartialEq, Eq, Structural)]
pub struct Elapsed {
    pub secs: u64,
    pub nanos: u32,
}

impl Elapsed {
    /// The whole span in nanoseconds.
    pub open spec fn total_nanos(self) -> nat {
        (self.secs * 1_000_000_000 + self.nanos) as nat
    }

    /// The whole milliseconds in the span.
    pub open spec fn millis(self) -> nat {
        self.total_nanos() / 1_000_000
    }

    /// The sample that the recorder gets for this span: its whole
    /// milliseconds, or the largest `u64` where there are more than that.
    /// So a span that is too long for the recorder stays too long as a
    /// sample.
    pub open spec fn sample(self) -> u64 {
        if self.millis() > u64::MAX {
            u64::MAX
        } else {
            self.millis() as u64
        }
    }

    /// A span of `secs` seconds and `nanos` nanoseconds.
    pub fn new(secs: u64, nanos: u32) -> (r: Elapsed)
        ensures
            r == (Elapsed { secs, nanos }),
    {
        Elapsed { secs, nanos }
    }

    /// A span of `millis` milliseconds.
    pub fn from_millis(millis: u64) -> (r: Elapsed)
        ensures
            r == (Elapsed { secs: millis / 1000, nanos: ((millis % 1000) * 1_000_000) as u32 }),
            r.millis() == millis,
            r.sample() == millis,
    {
        let secs: u64 = millis / 1000;
        let nanos: u32 = ((millis % 1000) * 1_000_000) as u32;
        Elapsed { secs, nanos }
    }

    /// The whole milliseconds in the span; what is left of a millisecond is
    /// dropped.
    pub fn as_millis(&self) -> (r: u128)
        ensures
            r == self.millis(),
    {
        let whole: u128 = self.secs as u128 * 1000;
        let rest: u128 = (self.nanos / 1_000_000) as u128;
        whole + rest
    }

    /// The span as a sample for the recorder: its whole milliseconds, or
    /// the largest `u64` where there are more than that.
    pub fn as_sample(&self) -> (r: u64)
        ensures
            r == self.sample(),
    {
        let millis: u128 = self.as_millis();
        if millis > u64::MAX as u128 {
            u64::MAX
        } else {
            millis as u64
        }
    }
}

/// A span and its sample lie on the same side of every bound below the
/// largest `u64`: the sample is within the bound exactly when the whole
/// milliseconds of the span are. And a span of no more milliseconds than a
/// `u64` holds has just these as its sample.
pub proof fn lemma_sample_keeps_order(elapsed: Elapsed, bound: u64)
    requires
        bound < u64::MAX,
    ensures
        elapsed.sample() <= bound <==> elapsed.millis() <= bound,
        elapsed.millis() <= u64::MAX ==> elapsed.sample() == elapsed.millis(),
{
}

/// The result of one handshake attempt.
#[derive(Debug, Clone, Copy, PartialEq, Eq, Structural)]
pub struct HandshakeResult {
    /// Whether the handshake was completed.
    pub success: bool,
    /// The time that was measured for the attempt, where one was taken.
    pub duration: Option<Elapsed>,
}

/// How an attempt over the stream transport went.
#[derive(Debug, Clone, Copy, PartialEq, Eq, Structural)]
pub enum StreamAttempt {
    /// No connection to the target could be opened.
    ConnectFailed,
    /// The connection stood, and the handshake on it failed after this time.
    HandshakeFailed(Elapsed),
    /// The handshake was completed in this time.
    Completed(Elapsed),
}

impl Default for HandshakeResult {
    /// A failure without a time.
    fn default() -> (r: HandshakeResult)
        ensures
            r == (HandshakeResult { success: false, duration: None }),
    {
        HandshakeResult { success: false, duration: None }
    }
}

impl HandshakeResult {
    /// The sample that this result adds to the distribution, if it adds one:
    /// the measured time in milliseconds.
    pub open spec fn sample(self) -> Option<u64> {
        match self.duration {
            Some(elapsed) => Some(elapsed.sample()),
            None => None,
        }
    }

    /// The result of an attempt over the stream transport. Only a completed
    /// handshake is a success, and only a success keeps its time: a failure
    /// is reported without one.
    pub fn from_stream(attempt: StreamAttempt) -> (r: HandshakeResult)
        ensures
            r.success <==> attempt is Completed,
            attempt matches StreamAttempt::Completed(elapsed) ==> r.duration == Some(elapsed),
            !(attempt is Completed) ==> r.duration is None,
            !r.success ==> r.duration is None,
    {
        match attempt {
            StreamAttempt::Completed(elapsed) => HandshakeResult {
                success: true,
                duration: Some(elapsed),
            },
            _ => HandshakeResult { success: false, duration: None },
        }
    }

    /// The result of an attempt over the datagram transport, which keeps the
    /// time of the exchange whether or not the handshake was completed.
    pub fn from_datagram(success: bool, elapsed: Elapsed) -> (r: HandshakeResult)
        ensures
            r == (HandshakeResult { success, duration: Some(elapsed) }),
    {
        HandshakeResult { success, duration: Some(elapsed) }
    }

    /// The sample that this result adds to the distribution, if it adds one.
    pub fn as_sample(&self) -> (r: Option<u64>)
        ensures
            r == self.sample(),
    {
        match self.duration {
            Some(elapsed) => Some(elapsed.as_sample()),
            None => None,
        }
    }
}

} // verus!
