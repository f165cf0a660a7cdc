//! The receive half of one plugin call. A request is written and flushed;
//! the response is then read by repeatedly draining the child's output
//! into a buffer until a read comes back shorter than the read buffer
//! (the end-of-message signal), at which point a parse of the accumulated
//! bytes is attempted. A bounded number of read-and-parse rounds, with a
//! short backoff between them, is allowed before the call fails with the
//! transport error. One call at a time may use a plugin's channel; the
//! driver holds the channel for the whole exchange.

use vstd::prelude::*;

verus! {

/// How many read-and-parse rounds one call may use before it fails.
pub const MAX_CALL_ATTEMPTS: u32 = 8;

/// What the driver should do next with a call in flight.
#[derive(Clone, Copy, Debug, PartialEq, Eq, Structural)]
pub enum ReceiveAction {
    /// Keep draining the child's output.
    ReadMore,
    /// The message looks complete: try to parse the buffer.
    TryParse,
    /// The retry budget is spent: fail the call with the transport error.
    GiveUp,
}

/// The accumulated state of one response being received.
pub struct ReceiveState {
    buf: Vec<u8>,
    attempts: u32,
}

impl ReceiveState {
    /// The bytes drained so far.
    pub closed spec fn bytes(&self) -> Seq<u8> {
        self.buf@
    }

    /// The read-and-parse rounds spent so far.
    pub closed spec fn rounds(&self) -> u32 {
        self.attempts
    }

    /// A fresh call: nothing read, nothing spent.
    pub fn new() -> (r: ReceiveState)
        ensures
            r.bytes() == Seq::<u8>::empty(),
            r.rounds() == 0,
    {
        ReceiveState { buf: Vec::new(), attempts: 0 }
    }

    /// Takes one drained chunk. A short read signals the end of the
    /// message, so the buffer should be parsed; otherwise there is more
    /// to read.
    pub fn on_chunk(&mut self, data: &[u8], short_read: bool) -> (r: ReceiveAction)
        ensures
            final(self).bytes() == old(self).bytes() + data@,
            final(self).rounds() == old(self).rounds(),
            r == if short_read {
                ReceiveAction::TryParse
            } else {
                ReceiveAction::ReadMore
            },
    {
        self.buf.extend_from_slice(data);
        if short_read {
            ReceiveAction::TryParse
        } else {
            ReceiveAction::ReadMore
        }
    }

    /// The buffer, for the parse attempt.
    pub fn buffer(&self) -> (r: &Vec<u8>)
        ensures
            r@ == self.bytes(),
    {
        &self.buf
    }

    /// Notes that a parse of the buffer failed: one round is spent, and
    /// the call gives up exactly when the budget is exhausted; otherwise
    /// the driver backs off briefly and reads on.
    pub fn on_parse_failure(&mut self) -> (r: ReceiveAction)
        requires
            old(self).rounds() < MAX_CALL_ATTEMPTS,
        ensures
            final(self).bytes() == old(self).bytes(),
            final(self).rounds() == old(self).rounds() + 1,
            r == if old(self).rounds() + 1 == MAX_CALL_ATTEMPTS {
                ReceiveAction::GiveUp
            } else {
                ReceiveAction::ReadMore
            },
    {
        self.attempts = self.attempts + 1;
        if self.attempts == MAX_CALL_ATTEMPTS {
            ReceiveAction::GiveUp
        } else {
            ReceiveAction::ReadMore
        }
    }
}

} // verus!
