//! The duplex frame channel the state machines are driven over.
//!
//! The sink, the source and the delay service are capability sets supplied
//! by the environment (a CAN driver, a loopback, a test double); the core
//! never learns which. Each poll-style method either reports progress, asks
//! to be called again later, or surfaces the environment's error. The traits
//! carry no contracts: the state machines are verified to behave correctly
//! whatever an implementation answers.

use vstd::prelude::*;

use crate::frame::Frame;

verus! {

/// Answer of a sink, flush or delay poll.
pub enum SinkPoll<E> {
    /// The operation completed; the caller may proceed.
    Ready,
    /// Not yet; the caller must arrange to be polled again.
    Pending,
    /// The environment reported an error.
    Failed(E),
}

/// Answer of a source poll.
pub enum SourcePoll<E> {
    /// The next inbound frame.
    Frame(Frame),
    /// The stream is over; no further frame will arrive.
    Ended,
    /// No frame yet; the caller must arrange to be polled again.
    Pending,
    /// The environment reported an error.
    Failed(E),
}

/// An outbound frame sink with two-phase submission: a frame may be
/// submitted only after `poll_ready` answered `Ready`, and `poll_flush`
/// drives submitted frames out.
pub trait FrameSink {
    type Error;

    /// Poll until the sink can accept one frame.
    fn poll_ready(&mut self) -> SinkPoll<Self::Error>;

    /// Hand one frame to the sink. Must follow a `Ready` from `poll_ready`.
    fn submit(&mut self, frame: Frame) -> Result<(), Self::Error>;

    /// Poll until every submitted frame has been driven out.
    fn poll_flush(&mut self) -> SinkPoll<Self::Error>;
}

/// A fallible source of inbound frames, delivered strictly in arrival order.
pub trait FrameSource {
    type Error;

    /// Poll for the next inbound frame.
    fn poll_next(&mut self) -> SourcePoll<Self::Error>;
}

/// A one-shot millisecond delay service.
pub trait Delay {
    type Error;

    /// Arm the delay for `ms` milliseconds. Separation times in the
    /// extended microsecond encoding (0xF1 to 0xF9) reach the service
    /// unchanged; one with millisecond granularity may round them up.
    fn start(&mut self, ms: u8) -> Result<(), Self::Error>;

    /// Poll until the armed duration has elapsed.
    fn poll_elapsed(&mut self) -> SinkPoll<Self::Error>;
}

} // verus!
