//! A hands-on read transaction: the caller classifies the opening frame of
//! a message and then drives reception frame by frame, deciding itself when
//! to grant the remote sender a new block with [`Consecutive::poll_resume`].
//! [`ConsecutiveReader`] bundles the two steps back into one poll.
//!
//! The [`crate::reader::Reader`] state machine offers the same protocol
//! with a fixed flow-control policy and chunked delivery; this module is
//! the layer underneath it for callers that want the policy in their hands.

use vstd::prelude::*;

use crate::channel::FrameSink;
use crate::channel::FrameSource;
use crate::channel::SinkPoll;
use crate::channel::SourcePoll;
use crate::frame::FlowKind;
use crate::frame::Frame;
use crate::frame::Kind;
use crate::frame::spec_first_len;
use crate::frame::spec_flow;
use crate::frame::spec_flow_kind;
use crate::frame::spec_kind;
use crate::frame::spec_single_len;
use crate::protocol::lemma_cons_payload_len;
use crate::protocol::lemma_flow_round_trip;
use crate::protocol::lemma_cons_payload_push;
use crate::protocol::spec_cons_payload;
use crate::protocol::spec_min;
use crate::reader::Error;
use crate::reader::FcPoll;
use crate::reader::ReadPoll;
use crate::socket::Socket;

verus! {

/// Outcome of one [`Consecutive::poll_resume`] call: whether another block
/// was granted, or nothing is left to grant.
#[derive(Debug, PartialEq, Eq)]
pub enum ResumePoll<T, R> {
    /// The sink has not taken or flushed the Flow Control frame yet.
    Pending,
    /// `true`: a block was granted. `false`: the message is already whole.
    Ready(Result<bool, Error<T, R>>),
}

/// The classified opening frame of one inbound message.
pub enum Read<T, R> {
    /// The message fits in the one Single frame that opened it.
    Single { frame: Frame, socket: Socket<T, R> },
    /// A multi-frame message was opened by a First frame.
    Consecutive(Consecutive<T, R>),
}

impl<T: FrameSink, R: FrameSource> Read<T, R> {
    /// Classify the opening frame of a message. Frames that cannot open a
    /// message (Consecutive, Flow Control, reserved types, or a First frame
    /// announcing fewer than 8 bytes) give the socket back.
    pub fn opening(frame: Frame, socket: Socket<T, R>) -> (r: Result<Self, Socket<T, R>>)
        ensures
            match r {
                Ok(read) => match read {
                    Read::Single { frame: f, .. } => f == frame && spec_kind(frame@) == Some(
                        Kind::Single,
                    ) && 1 <= spec_single_len(frame@) <= 7,
                    Read::Consecutive(c) => {
                        &&& c.wf()
                        &&& !c.failed()
                        &&& c.opening_frame() == frame@
                        &&& spec_kind(frame@) == Some(Kind::First)
                        &&& c.delivered() == Seq::<u8>::empty()
                        &&& c.announced() == spec_first_len(frame@)
                        &&& !c.resume_pending()
                        &&& !c.wait_pending()
                        &&& !c.abort_pending()
                    },
                },
                Err(_) => (spec_kind(frame@) != Some(Kind::Single) || spec_single_len(frame@) == 0
                    || spec_single_len(frame@) > 7) && (spec_kind(frame@) != Some(Kind::First)
                    || spec_first_len(frame@) < 8),
            },
    {
        match frame.kind() {
            Some(Kind::Single) => {
                let len = frame.single_len();
                if len == 0 || len > 7 {
                    // A Single frame carries 1 to 7 payload bytes.
                    return Err(socket);
                }
                Ok(Read::Single { frame, socket })
            },
            Some(Kind::First) => {
                if frame.first_len() < 8 {
                    return Err(socket);
                }
                Ok(Read::Consecutive(Consecutive::new(frame, socket)))
            },
            _ => Err(socket),
        }
    }

    /// The Single frame this message consists of, if it was one.
    pub fn single(self) -> (r: Option<Frame>)
        ensures
            match r {
                Some(f) => self matches Read::Single { frame, .. } && f == frame,
                None => self is Consecutive,
            },
    {
        if let Read::Single { frame, .. } = self {
            Some(frame)
        } else {
            None
        }
    }

    /// The multi-frame transaction, if the message needs one.
    pub fn consecutive(self) -> (r: Option<Consecutive<T, R>>)
        ensures
            match r {
                Some(c) => self matches Read::Consecutive(inner) && c == inner,
                None => self is Single,
            },
    {
        if let Read::Consecutive(consecutive) = self {
            Some(consecutive)
        } else {
            None
        }
    }
}

impl<T: FrameSink, R: FrameSource> Read<T, R> {
    /// Hand the classified message to the integrated [`crate::reader::Reader`]
    /// with the given flow-control policy, whichever frame opened it.
    pub fn reader(self, block_len: u8, st: u8) -> (r: crate::reader::Reader<T, R>)
        requires
            self matches Read::Single { frame, .. } ==> spec_kind(frame@) == Some(Kind::Single)
                && 1 <= spec_single_len(frame@) <= 7,
            self matches Read::Consecutive(c) ==> c.wf() && !c.failed(),
        ensures
            r.wf(),
            !r.failed(),
            r.started(),
            r.block_size() == block_len,
            r.sep_time() == st,
            r.delivered() == Seq::<u8>::empty(),
            r.fc_frames() == Seq::<Seq<u8>>::empty(),
            self matches Read::Single { frame, .. } ==> r.frames_in() == seq![frame@]
                && r.announced() == spec_single_len(frame@),
            self matches Read::Consecutive(c) ==> r.frames_in() == seq![c.opening_frame()]
                && r.announced() == c.announced(),
    {
        match self {
            Read::Single { frame, socket } => crate::reader::Reader::after_opening(
                socket,
                frame,
                block_len,
                st,
            ),
            Read::Consecutive(c) => {
                let Consecutive { socket, first_frame, .. } = c;
                crate::reader::Reader::after_opening(socket, first_frame, block_len, st)
            },
        }
    }
}

/// A multi-frame message being received, block by block, under the
/// caller's flow-control policy.
pub struct Consecutive<T, R> {
    socket: Socket<T, R>,
    first_frame: Frame,
    remaining_bytes: u16,
    remaining_frames: u8,
    is_first_frame_read: bool,
    is_flushing: bool,
    is_waiting: bool,
    is_aborting: bool,
    is_failed: bool,
    /// Bytes handed to the caller so far.
    log_delivered: Ghost<Seq<u8>>,
    /// Wire images of the Consecutive frames consumed so far.
    log_frames_in: Ghost<Seq<Seq<u8>>>,
    /// Wire images of the Flow Control frames submitted so far.
    log_fc: Ghost<Seq<Seq<u8>>>,
}

impl<T, R> Consecutive<T, R> {
    /// Bytes handed to the caller so far, in order.
    pub closed spec fn delivered(self) -> Seq<u8> {
        self.log_delivered@
    }

    /// Wire images of the Consecutive frames consumed so far.
    pub closed spec fn frames_in(self) -> Seq<Seq<u8>> {
        self.log_frames_in@
    }

    /// Wire images of the Flow Control frames submitted so far.
    pub closed spec fn fc_frames(self) -> Seq<Seq<u8>> {
        self.log_fc@
    }

    /// The First frame that opened the message.
    pub closed spec fn opening_frame(self) -> Seq<u8> {
        self.first_frame@
    }

    /// Total message length the opening frame announced.
    pub open spec fn announced(self) -> int {
        spec_first_len(self.opening_frame())
    }

    /// True once an error moved the transaction to its failed state.
    pub closed spec fn failed(self) -> bool {
        self.is_failed
    }

    /// True once the opening frame's six payload bytes were delivered.
    pub closed spec fn first_read(self) -> bool {
        self.is_first_frame_read
    }

    /// True while a submitted Continue frame still awaits the sink's flush.
    pub closed spec fn resume_pending(self) -> bool {
        self.is_flushing
    }

    /// True while a submitted Wait frame still awaits the sink's flush.
    pub closed spec fn wait_pending(self) -> bool {
        self.is_waiting
    }

    /// True while a submitted Abort frame still awaits the sink's flush.
    pub closed spec fn abort_pending(self) -> bool {
        self.is_aborting
    }

    /// Consecutive frames the granted block still allows in.
    pub closed spec fn block_left(self) -> int {
        self.remaining_frames as int
    }

    /// True once every announced byte was handed to the caller.
    pub open spec fn done(self) -> bool {
        self.delivered().len() == self.announced()
    }

    /// The transaction's invariant: the concrete counters match the ghost
    /// history of consumed frames.
    pub closed spec fn wf(self) -> bool {
        self.is_failed || {
        &&& self.first_frame@.len() == 8
        &&& spec_kind(self.first_frame@) == Some(Kind::First)
        &&& 8 <= spec_first_len(self.first_frame@) <= 4095
        &&& (forall|i: int|
            0 <= i < self.log_frames_in@.len() ==> (#[trigger] self.log_frames_in@[i]).len() == 8)
        &&& (forall|i: int|
            0 <= i < self.log_frames_in@.len() ==> spec_kind(#[trigger] self.log_frames_in@[i])
                == Some(Kind::Consecutive))
        &&& (if self.is_flushing {
            1int
        } else {
            0int
        }) + (if self.is_waiting {
            1int
        } else {
            0int
        }) + (if self.is_aborting {
            1int
        } else {
            0int
        }) <= 1
        &&& (self.is_flushing ==> self.log_fc@.len() >= 1 && spec_flow_kind(self.log_fc@.last())
            == Some(FlowKind::Continue))
        &&& (self.is_waiting ==> self.log_fc@.len() >= 1 && spec_flow_kind(self.log_fc@.last())
            == Some(FlowKind::Wait))
        &&& (self.is_aborting ==> self.log_fc@.len() >= 1 && self.log_fc@.last() == spec_flow(
            FlowKind::Abort,
            0,
            0,
        ))
        &&& if !self.is_first_frame_read {
            &&& self.log_delivered@.len() == 0
            &&& self.log_frames_in@.len() == 0
            &&& self.remaining_bytes == spec_first_len(self.first_frame@)
        } else {
            &&& self.log_delivered@ == self.first_frame@.subrange(2, 8) + spec_cons_payload(
                self.log_frames_in@,
                spec_first_len(self.first_frame@) - 6,
            )
            &&& self.remaining_bytes == spec_first_len(self.first_frame@)
                - self.log_delivered@.len()
        }
        }
    }

    /// Nothing observable moved.
    pub open spec fn quiet(self, pre: Self) -> bool {
        &&& self.delivered() == pre.delivered()
        &&& self.frames_in() == pre.frames_in()
        &&& self.fc_frames() == pre.fc_frames()
        &&& self.opening_frame() == pre.opening_frame()
        &&& self.first_read() == pre.first_read()
        &&& self.block_left() == pre.block_left()
    }
}

impl<T: FrameSink, R: FrameSource> Consecutive<T, R> {
    /// Open a transaction on a First frame. No block is granted yet: the
    /// first `poll_read` delivers the opening frame's own six bytes, and
    /// further frames flow only after `poll_resume`.
    pub(crate) fn new(frame: Frame, socket: Socket<T, R>) -> (r: Self)
        requires
            spec_kind(frame@) == Some(Kind::First),
            8 <= spec_first_len(frame@) <= 4095,
        ensures
            r.wf(),
            !r.failed(),
            !r.first_read(),
            r.opening_frame() == frame@,
            r.delivered() == Seq::<u8>::empty(),
            r.frames_in() == Seq::<Seq<u8>>::empty(),
            r.fc_frames() == Seq::<Seq<u8>>::empty(),
            r.block_left() == 0,
            !r.resume_pending(),
            !r.wait_pending(),
            !r.abort_pending(),
    {
        proof {
            crate::frame::lemma_frame_len(frame);
        }
        let len = frame.first_len();
        Consecutive {
            socket,
            remaining_frames: 0,
            is_flushing: false,
            is_waiting: false,
            is_aborting: false,
            is_first_frame_read: false,
            is_failed: false,
            remaining_bytes: len,
            first_frame: frame,
            log_delivered: Ghost(Seq::empty()),
            log_frames_in: Ghost(Seq::empty()),
            log_fc: Ghost(Seq::empty()),
        }
    }

    /// True once an error moved the transaction to its failed state.
    pub fn is_failed(&self) -> (b: bool)
        ensures
            b == self.failed(),
    {
        self.is_failed
    }

    /// Grant the remote sender another block of `block_len` frames with
    /// separation time `st`, by a two-phase FlowControl(Continue): submit
    /// once the sink is ready, then await the flush. `Ready(Ok(false))`
    /// reports that the message is already whole and nothing was sent.
    pub fn poll_resume(&mut self, block_len: u8, st: u8) -> (r: ResumePoll<
        <T as FrameSink>::Error,
        <R as FrameSource>::Error,
    >)
        requires
            old(self).wf(),
            !old(self).failed(),
            !old(self).wait_pending(),
            !old(self).abort_pending(),
        ensures
            final(self).wf(),
            final(self).delivered() == old(self).delivered(),
            final(self).frames_in() == old(self).frames_in(),
            final(self).opening_frame() == old(self).opening_frame(),
            final(self).first_read() == old(self).first_read(),
            final(self).wait_pending() == old(self).wait_pending(),
            final(self).abort_pending() == old(self).abort_pending(),
            old(self).done() ==> (r matches ResumePoll::Ready(res) && res is Ok),
            match r {
                ResumePoll::Pending => {
                    &&& !final(self).failed()
                    &&& final(self).block_left() == old(self).block_left()
                    &&& if old(self).resume_pending() {
                        final(self).resume_pending() && final(self).fc_frames() == old(self).fc_frames()
                    } else if final(self).resume_pending() {
                        final(self).fc_frames() == old(self).fc_frames().push(
                            spec_flow(FlowKind::Continue, block_len, st),
                        )
                    } else {
                        final(self).fc_frames() == old(self).fc_frames()
                    }
                },
                ResumePoll::Ready(res) => match res {
                    Ok(granted) => {
                        &&& !final(self).failed()
                        &&& granted == !old(self).done()
                        &&& if granted {
                            &&& final(self).block_left() == block_len
                            &&& !final(self).resume_pending()
                            &&& if old(self).resume_pending() {
                                final(self).fc_frames() == old(self).fc_frames()
                            } else {
                                final(self).fc_frames() == old(self).fc_frames().push(
                                    spec_flow(FlowKind::Continue, block_len, st),
                                )
                            }
                            &&& final(self).fc_frames().len() >= 1
                            &&& spec_flow_kind(final(self).fc_frames().last()) == Some(
                                FlowKind::Continue,
                            )
                        } else {
                            &&& final(self).block_left() == old(self).block_left()
                            &&& final(self).fc_frames() == old(self).fc_frames()
                            &&& final(self).resume_pending() == old(self).resume_pending()
                        }
                    },
                    Err(e) => {
                        &&& final(self).failed()
                        &&& e is Transmit
                        &&& final(self).block_left() == old(self).block_left()
                        &&& if old(self).resume_pending() {
                            final(self).fc_frames() == old(self).fc_frames()
                        } else {
                            final(self).fc_frames() == old(self).fc_frames() || final(self).fc_frames() == old(self).fc_frames().push(
                                spec_flow(FlowKind::Continue, block_len, st),
                            )
                        }
                    },
                },
            },
    {
        if self.remaining_bytes == 0 {
            // Nothing to grant: every byte of the message already arrived.
            proof {
                assert(self.done());
            }
            return ResumePoll::Ready(Ok(false));
        }
        proof {
            assert(!self.done());
        }
        if !self.is_flushing {
            match self.socket.tx.poll_ready() {
                SinkPoll::Pending => {
                    return ResumePoll::Pending;
                },
                SinkPoll::Failed(e) => {
                    self.is_failed = true;
                    return ResumePoll::Ready(Err(Error::Transmit(e)));
                },
                SinkPoll::Ready => {},
            }
            let fc = Frame::flow(FlowKind::Continue, block_len, st);
            match self.socket.tx.submit(fc) {
                Err(e) => {
                    self.is_failed = true;
                    return ResumePoll::Ready(Err(Error::Transmit(e)));
                },
                Ok(_) => {},
            }
            self.log_fc = Ghost(self.log_fc@.push(fc@));
            self.is_flushing = true;
            proof {
                lemma_flow_round_trip(FlowKind::Continue, block_len, st);
                assert(self.log_fc@.last() == fc@);
            }
        }
        match self.socket.tx.poll_flush() {
            SinkPoll::Pending => {
                return ResumePoll::Pending;
            },
            SinkPoll::Failed(e) => {
                self.is_failed = true;
                return ResumePoll::Ready(Err(Error::Transmit(e)));
            },
            SinkPoll::Ready => {},
        }
        self.is_flushing = false;
        self.remaining_frames = block_len;
        ResumePoll::Ready(Ok(true))
    }

    /// Tell the remote sender to hold off for `st` milliseconds: a
    /// two-phase FlowControl(Wait, 0, st), submitted once the sink is
    /// ready, then flushed. The transaction itself is untouched; reception
    /// goes on once a block is granted again.
    pub fn poll_wait(&mut self, st: u8) -> (r: FcPoll<
        <T as FrameSink>::Error,
        <R as FrameSource>::Error,
    >)
        requires
            old(self).wf(),
            !old(self).failed(),
            !old(self).resume_pending(),
            !old(self).abort_pending(),
        ensures
            final(self).wf(),
            final(self).delivered() == old(self).delivered(),
            final(self).frames_in() == old(self).frames_in(),
            final(self).opening_frame() == old(self).opening_frame(),
            final(self).first_read() == old(self).first_read(),
            final(self).block_left() == old(self).block_left(),
            final(self).resume_pending() == old(self).resume_pending(),
            final(self).abort_pending() == old(self).abort_pending(),
            match r {
                FcPoll::Pending => {
                    &&& !final(self).failed()
                    &&& if old(self).wait_pending() {
                        final(self).wait_pending() && final(self).fc_frames() == old(self).fc_frames()
                    } else if final(self).wait_pending() {
                        final(self).fc_frames() == old(self).fc_frames().push(
                            spec_flow(FlowKind::Wait, 0, st),
                        )
                    } else {
                        final(self).fc_frames() == old(self).fc_frames()
                    }
                },
                FcPoll::Ready(res) => match res {
                    Ok(_) => {
                        &&& !final(self).failed()
                        &&& !final(self).wait_pending()
                        &&& if old(self).wait_pending() {
                            final(self).fc_frames() == old(self).fc_frames()
                        } else {
                            final(self).fc_frames() == old(self).fc_frames().push(
                                spec_flow(FlowKind::Wait, 0, st),
                            )
                        }
                        &&& final(self).fc_frames().len() >= 1
                        &&& spec_flow_kind(final(self).fc_frames().last()) == Some(FlowKind::Wait)
                    },
                    Err(e) => {
                        &&& final(self).failed()
                        &&& e is Transmit
                        &&& (final(self).fc_frames() == old(self).fc_frames() || final(self).fc_frames() == old(self).fc_frames().push(spec_flow(FlowKind::Wait, 0, st)))
                    },
                },
            },
    {
        if !self.is_waiting {
            match self.socket.tx.poll_ready() {
                SinkPoll::Pending => {
                    return FcPoll::Pending;
                },
                SinkPoll::Failed(e) => {
                    self.is_failed = true;
                    return FcPoll::Ready(Err(Error::Transmit(e)));
                },
                SinkPoll::Ready => {},
            }
            let fc = Frame::flow(FlowKind::Wait, 0, st);
            match self.socket.tx.submit(fc) {
                Err(e) => {
                    self.is_failed = true;
                    return FcPoll::Ready(Err(Error::Transmit(e)));
                },
                Ok(_) => {},
            }
            self.log_fc = Ghost(self.log_fc@.push(fc@));
            self.is_waiting = true;
            proof {
                lemma_flow_round_trip(FlowKind::Wait, 0, st);
                assert(self.log_fc@.last() == fc@);
            }
        }
        match self.socket.tx.poll_flush() {
            SinkPoll::Pending => {
                return FcPoll::Pending;
            },
            SinkPoll::Failed(e) => {
                self.is_failed = true;
                return FcPoll::Ready(Err(Error::Transmit(e)));
            },
            SinkPoll::Ready => {},
        }
        self.is_waiting = false;
        FcPoll::Ready(Ok(()))
    }

    /// Tell the remote sender to stop this message: a two-phase
    /// FlowControl(Abort, 0, 0). Once it went out, the transaction is over
    /// and refuses further use.
    pub fn poll_abort(&mut self) -> (r: FcPoll<
        <T as FrameSink>::Error,
        <R as FrameSource>::Error,
    >)
        requires
            old(self).wf(),
            !old(self).failed(),
            !old(self).resume_pending(),
            !old(self).wait_pending(),
        ensures
            final(self).wf(),
            final(self).delivered() == old(self).delivered(),
            final(self).frames_in() == old(self).frames_in(),
            final(self).opening_frame() == old(self).opening_frame(),
            match r {
                FcPoll::Pending => {
                    &&& !final(self).failed()
                    &&& if old(self).abort_pending() {
                        final(self).abort_pending() && final(self).fc_frames() == old(self).fc_frames()
                    } else if final(self).abort_pending() {
                        final(self).fc_frames() == old(self).fc_frames().push(
                            spec_flow(FlowKind::Abort, 0, 0),
                        )
                    } else {
                        final(self).fc_frames() == old(self).fc_frames()
                    }
                },
                FcPoll::Ready(res) => match res {
                    Ok(_) => {
                        &&& final(self).failed()
                        &&& if old(self).abort_pending() {
                            final(self).fc_frames() == old(self).fc_frames()
                        } else {
                            final(self).fc_frames() == old(self).fc_frames().push(
                                spec_flow(FlowKind::Abort, 0, 0),
                            )
                        }
                        &&& final(self).fc_frames().len() >= 1
                        &&& final(self).fc_frames().last() == spec_flow(FlowKind::Abort, 0, 0)
                    },
                    Err(e) => {
                        &&& final(self).failed()
                        &&& e is Transmit
                        &&& (final(self).fc_frames() == old(self).fc_frames() || final(self).fc_frames() == old(self).fc_frames().push(spec_flow(FlowKind::Abort, 0, 0)))
                    },
                },
            },
    {
        if !self.is_aborting {
            match self.socket.tx.poll_ready() {
                SinkPoll::Pending => {
                    return FcPoll::Pending;
                },
                SinkPoll::Failed(e) => {
                    self.is_failed = true;
                    return FcPoll::Ready(Err(Error::Transmit(e)));
                },
                SinkPoll::Ready => {},
            }
            let fc = Frame::flow(FlowKind::Abort, 0, 0);
            match self.socket.tx.submit(fc) {
                Err(e) => {
                    self.is_failed = true;
                    return FcPoll::Ready(Err(Error::Transmit(e)));
                },
                Ok(_) => {},
            }
            self.log_fc = Ghost(self.log_fc@.push(fc@));
            self.is_aborting = true;
            proof {
                assert(self.log_fc@.last() == fc@);
            }
        }
        match self.socket.tx.poll_flush() {
            SinkPoll::Pending => {
                return FcPoll::Pending;
            },
            SinkPoll::Failed(e) => {
                self.is_failed = true;
                return FcPoll::Ready(Err(Error::Transmit(e)));
            },
            SinkPoll::Ready => {},
        }
        self.is_failed = true;
        FcPoll::Ready(Ok(()))
    }

    /// Deliver the next piece of the message into the front of `buf`: the
    /// opening frame's six bytes first, then one Consecutive frame per call
    /// while the granted block lasts. 0 means the block is exhausted or the
    /// message is whole; `poll_resume` tells which.
    pub fn poll_read(&mut self, buf: &mut [u8]) -> (r: ReadPoll<
        <T as FrameSink>::Error,
        <R as FrameSource>::Error,
    >)
        requires
            old(self).wf(),
            !old(self).failed(),
            old(buf)@.len() >= 7,
        ensures
            final(self).wf(),
            final(self).opening_frame() == old(self).opening_frame(),
            final(self).fc_frames() == old(self).fc_frames(),
            final(self).resume_pending() == old(self).resume_pending(),
            final(self).wait_pending() == old(self).wait_pending(),
            final(self).abort_pending() == old(self).abort_pending(),
            final(buf)@.len() == old(buf)@.len(),
            !old(self).first_read() ==> (r matches ReadPoll::Ready(res) && (res matches Ok(n) && n
                == 6)),
            old(self).first_read() && (old(self).done() || old(self).block_left() == 0) ==> (
            r matches ReadPoll::Ready(res) && (res matches Ok(n) && n == 0)),
            match r {
                ReadPoll::Pending => {
                    &&& !final(self).failed()
                    &&& final(self).quiet(*old(self))
                    &&& final(buf)@ == old(buf)@
                },
                ReadPoll::Ready(res) => match res {
                    Ok(n) => {
                        &&& !final(self).failed()
                        &&& n <= old(buf)@.len()
                        &&& final(buf)@.skip(n as int) == old(buf)@.skip(n as int)
                        &&& final(self).delivered() == old(self).delivered() + final(buf)@.take(
                            n as int,
                        )
                        &&& final(self).delivered().len() <= final(self).announced()
                        &&& if !old(self).first_read() {
                            &&& n == 6
                            &&& final(self).first_read()
                            &&& final(buf)@.take(6) == old(self).opening_frame().subrange(2, 8)
                            &&& final(self).frames_in() == old(self).frames_in()
                            &&& final(self).block_left() == old(self).block_left()
                        } else if old(self).done() || old(self).block_left() == 0 {
                            &&& n == 0
                            &&& final(self).quiet(*old(self))
                        } else {
                            let f = final(self).frames_in().last();
                            &&& final(self).frames_in() == old(self).frames_in().push(f)
                            &&& spec_kind(f) == Some(Kind::Consecutive)
                            &&& n as int == spec_min(
                                7,
                                old(self).announced() - old(self).delivered().len(),
                            )
                            &&& final(buf)@.take(n as int) == f.subrange(1, 1 + n as int)
                            &&& final(self).block_left() == old(self).block_left() - 1
                        }
                    },
                    Err(e) => {
                        &&& final(self).failed()
                        &&& final(self).delivered() == old(self).delivered()
                        &&& final(self).block_left() == old(self).block_left()
                        &&& final(buf)@ == old(buf)@
                        &&& match e {
                            Error::Transmit(_) => false,
                            Error::Receive(_) => final(self).frames_in() == old(self).frames_in(),
                            Error::UnexpectedEof => final(self).frames_in() == old(self).frames_in(),
                            Error::UnknownFrameKind => {
                                let f = final(self).frames_in().last();
                                &&& final(self).frames_in() == old(self).frames_in().push(f)
                                &&& spec_kind(f) is None
                            },
                            Error::InvalidFrame => {
                                let f = final(self).frames_in().last();
                                &&& final(self).frames_in() == old(self).frames_in().push(f)
                                &&& spec_kind(f) is Some
                                &&& spec_kind(f) != Some(Kind::Consecutive)
                            },
                        }
                    },
                },
            },
    {
        let ghost pre = *self;
        if !self.is_first_frame_read {
            self.is_first_frame_read = true;
            let data = self.first_frame.first_data();
            let n = copy_into(&data, buf);
            self.remaining_bytes = self.remaining_bytes - 6;
            self.log_delivered = Ghost(self.log_delivered@ + data@);
            proof {
                assert(spec_cons_payload(Seq::<Seq<u8>>::empty(), self.announced() - 6) =~= Seq::<
                    u8,
                >::empty());
                assert(self.log_delivered@ =~= self.first_frame@.subrange(2, 8) + spec_cons_payload(
                    self.log_frames_in@,
                    spec_first_len(self.first_frame@) - 6,
                ));
                assert(self.log_delivered@ =~= buf@.take(6));
                assert(self.log_delivered@ =~= pre.log_delivered@ + buf@.take(6));
            }
            return ReadPoll::Ready(Ok(n));
        }
        if self.remaining_bytes == 0 || self.remaining_frames == 0 {
            proof {
                assert(self.delivered() =~= self.delivered() + buf@.take(0));
            }
            return ReadPoll::Ready(Ok(0));
        }
        let f = match self.socket.rx.poll_next() {
            SourcePoll::Pending => {
                return ReadPoll::Pending;
            },
            SourcePoll::Ended => {
                self.is_failed = true;
                return ReadPoll::Ready(Err(Error::UnexpectedEof));
            },
            SourcePoll::Failed(e) => {
                self.is_failed = true;
                return ReadPoll::Ready(Err(Error::Receive(e)));
            },
            SourcePoll::Frame(f) => f,
        };
        self.log_frames_in = Ghost(self.log_frames_in@.push(f@));
        match f.kind() {
            None => {
                self.is_failed = true;
                return ReadPoll::Ready(Err(Error::UnknownFrameKind));
            },
            Some(Kind::Consecutive) => {},
            Some(_) => {
                self.is_failed = true;
                return ReadPoll::Ready(Err(Error::InvalidFrame));
            },
        }
        let mut data = f.consecutive_data();
        let take: usize = if self.remaining_bytes < 7 {
            self.remaining_bytes as usize
        } else {
            7
        };
        data.truncate(take);
        let n = copy_into(&data, buf);
        self.remaining_bytes = self.remaining_bytes - take as u16;
        self.remaining_frames = self.remaining_frames - 1;
        self.log_delivered = Ghost(self.log_delivered@ + data@);
        proof {
            let total = spec_first_len(pre.first_frame@);
            assert forall|i: int|
                0 <= i < pre.log_frames_in@.len() implies (#[trigger] pre.log_frames_in@[i]).len()
                == 8 by {}
            lemma_cons_payload_len(pre.log_frames_in@, total - 6);
            lemma_cons_payload_push(pre.log_frames_in@, total - 6, f@);
            assert(data@ =~= f@.subrange(1, 1 + take as int));
            assert(pre.log_delivered@.len() - 6 == spec_cons_payload(
                pre.log_frames_in@,
                total - 6,
            ).len());
            assert(self.log_delivered@ =~= pre.first_frame@.subrange(2, 8) + spec_cons_payload(
                self.log_frames_in@,
                total - 6,
            ));
            assert(buf@.take(n as int) =~= data@);
        }
        ReadPoll::Ready(Ok(n))
    }

    /// Hand the transaction a fixed flow-control policy, turning it back
    /// into a plain poll-to-read byte stream.
    pub fn reader(self, block_len: u8, st: u8) -> (r: ConsecutiveReader<T, R>)
        requires
            block_len >= 1,
        ensures
            r.transaction_view() == self,
            r.policy_block() == block_len,
            r.policy_st() == st,
    {
        ConsecutiveReader { transaction: self, block_len, st }
    }
}

/// A [`Consecutive`] transaction bundled with a fixed flow-control policy:
/// blocks of `block_len` frames (at least one) announced with separation
/// time `st`, granted whenever the previous block runs out.
pub struct ConsecutiveReader<T, R> {
    transaction: Consecutive<T, R>,
    block_len: u8,
    st: u8,
}

impl<T, R> ConsecutiveReader<T, R> {
    /// The transaction being driven.
    pub closed spec fn transaction_view(self) -> Consecutive<T, R> {
        self.transaction
    }

    /// The block size granted at each block boundary.
    pub closed spec fn policy_block(self) -> u8 {
        self.block_len
    }

    /// The separation time announced at each block boundary.
    pub closed spec fn policy_st(self) -> u8 {
        self.st
    }
}

impl<T: FrameSink, R: FrameSource> ConsecutiveReader<T, R> {
    /// Deliver the next piece of the message, granting the remote sender a
    /// new block first whenever the previous one ran out. 0 is
    /// end-of-message.
    pub fn poll_read(&mut self, buf: &mut [u8]) -> (r: ReadPoll<
        <T as FrameSink>::Error,
        <R as FrameSource>::Error,
    >)
        requires
            old(self).transaction_view().wf(),
            !old(self).transaction_view().failed(),
            !old(self).transaction_view().wait_pending(),
            !old(self).transaction_view().abort_pending(),
            old(self).policy_block() >= 1,
            old(buf)@.len() >= 7,
        ensures
            final(self).transaction_view().wf(),
            final(self).policy_block() == old(self).policy_block(),
            final(self).policy_st() == old(self).policy_st(),
            final(buf)@.len() == old(buf)@.len(),
            final(self).transaction_view().fc_frames() == old(self).transaction_view().fc_frames()
                || {
                // A Continue goes out only at a true block boundary.
                &&& old(self).transaction_view().first_read()
                &&& !old(self).transaction_view().done()
                &&& old(self).transaction_view().block_left() == 0
                &&& !old(self).transaction_view().resume_pending()
                &&& final(self).transaction_view().fc_frames() == old(self).transaction_view().fc_frames().push(
                    spec_flow(FlowKind::Continue, old(self).policy_block(), old(self).policy_st()),
                )
            },
            final(self).transaction_view().block_left() > old(self).transaction_view().block_left()
                ==> old(self).transaction_view().block_left() == 0 && (final(self).transaction_view().fc_frames() == old(self).transaction_view().fc_frames().push(
                spec_flow(FlowKind::Continue, old(self).policy_block(), old(self).policy_st()),
            ) || old(self).transaction_view().resume_pending()),
            !old(self).transaction_view().first_read() ==> (r matches ReadPoll::Ready(res) && (
            res matches Ok(n) && n == 6)),
            old(self).transaction_view().done() ==> (r matches ReadPoll::Ready(res) && (
            res matches Ok(n) && n == 0)) && final(self).transaction_view().fc_frames() == old(self).transaction_view().fc_frames(),
            match r {
                ReadPoll::Pending => !final(self).transaction_view().failed() && final(self).transaction_view().delivered() == old(self).transaction_view().delivered(),
                ReadPoll::Ready(res) => match res {
                    Ok(n) => {
                        &&& !final(self).transaction_view().failed()
                        &&& n <= old(buf)@.len()
                        &&& final(self).transaction_view().delivered() == old(self).transaction_view().delivered() + final(buf)@.take(n as int)
                        &&& (n == 0 ==> final(self).transaction_view().done())
                    },
                    Err(_) => final(self).transaction_view().failed() && final(self).transaction_view().delivered() == old(self).transaction_view().delivered(),
                },
            },
    {
        let first = self.transaction.poll_read(buf);
        let n = match first {
            ReadPoll::Ready(Ok(n)) => n,
            other => {
                return other;
            },
        };
        if n > 0 {
            return ReadPoll::Ready(Ok(n));
        }
        // The block ran out, or the message is whole; resuming tells which.
        match self.transaction.poll_resume(self.block_len, self.st) {
            ResumePoll::Pending => {
                return ReadPoll::Pending;
            },
            ResumePoll::Ready(Err(e)) => {
                return ReadPoll::Ready(Err(e));
            },
            ResumePoll::Ready(Ok(false)) => {
                proof {
                    assert(self.transaction.delivered() =~= self.transaction.delivered()
                        + buf@.take(0));
                }
                return ReadPoll::Ready(Ok(0));
            },
            ResumePoll::Ready(Ok(true)) => {},
        }
        // A fresh block was granted; take its first frame.
        self.transaction.poll_read(buf)
    }
}

/// Copy all of `src` into the front of `buf`.
fn copy_into(src: &Vec<u8>, buf: &mut [u8]) -> (n: usize)
    requires
        src@.len() <= old(buf)@.len(),
    ensures
        n == src@.len(),
        final(buf)@.len() == old(buf)@.len(),
        final(buf)@.take(n as int) == src@,
        final(buf)@.skip(n as int) == old(buf)@.skip(n as int),
{
    let ghost buf0 = buf@;
    let n = src.len();
    let mut i: usize = 0;
    while i < n
        invariant
            n == src@.len(),
            n <= buf@.len(),
            i <= n,
            buf@.len() == buf0.len(),
            forall|j: int| 0 <= j < i ==> buf@[j] == src@[j],
            forall|j: int| i <= j < buf@.len() ==> buf@[j] == buf0[j],
        decreases n - i,
    {
        buf[i] = src[i];
        i += 1;
    }
    proof {
        assert(buf@.take(n as int) =~= src@);
        assert(buf@.skip(n as int) =~= buf0.skip(n as int));
    }
    n
}

} // verus!
