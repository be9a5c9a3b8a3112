//! A duplex handle pairing an outbound frame sink with an inbound frame
//! source. A reader or writer takes the socket over for the lifetime of one
//! message; the two cannot share a channel concurrently.

use vstd::prelude::*;

use crate::channel::Delay;
use crate::channel::FrameSink;
use crate::channel::FrameSource;
use crate::reader::Reader;
use crate::writer::Writer;

verus! {

/// Everything that can go wrong during a transfer, across both state
/// machines.
#[derive(Clone, Copy, Debug, PartialEq, Eq)]
pub enum Error<T, R, D> {
    /// The sink reported an error.
    Transmit(T),
    /// The source reported an error.
    Receive(R),
    /// The delay service reported an error.
    Delay(D),
    /// A decoded frame violates protocol expectations in the current state.
    InvalidFrame,
    /// The PCI nibble is none of the four known frame types.
    UnknownFrameKind,
    /// The peer sent FlowControl(Abort).
    Aborted,
    /// The source ended mid-message.
    UnexpectedEof,
}

/// The duplex frame channel: `tx` carries outbound frames, `rx` yields
/// inbound ones.
pub struct Socket<T, R> {
    pub tx: T,
    pub rx: R,
}

impl<T, R> Socket<T, R> {
    /// Pair a sink and a source into one channel handle.
    pub fn new(tx: T, rx: R) -> (r: Self)
        ensures
            r.tx == tx,
            r.rx == rx,
    {
        Socket { tx, rx }
    }
}

impl<T: FrameSink, R: FrameSource> Socket<T, R> {
    /// Take the channel over to read one message, announcing `block_len`
    /// and `st` to the remote sender in every Flow Control frame.
    pub fn reader(self, block_len: u8, st: u8) -> (r: Reader<T, R>)
        ensures
            r.wf(),
            !r.failed(),
            !r.started(),
            r.delivered() == Seq::<u8>::empty(),
            r.frames_in() == Seq::<Seq<u8>>::empty(),
            r.fc_frames() == Seq::<Seq<u8>>::empty(),
            r.block_size() == block_len,
            r.sep_time() == st,
    {
        Reader::with_flow_control(self, block_len, st)
    }

    /// Take the channel over to write one message, pacing Consecutive
    /// frames through `delay`.
    pub fn writer<D: Delay>(self, delay: D) -> (r: Writer<T, R, D>)
        ensures
            r.wf(),
            !r.failed(),
            r.idle(),
            r.taken() == Seq::<u8>::empty(),
            r.frames_out() == Seq::<Seq<u8>>::empty(),
            r.frames_in() == Seq::<Seq<u8>>::empty(),
            r.delays() == Seq::<u8>::empty(),
    {
        Writer::new(self, delay)
    }
}

} // verus!
