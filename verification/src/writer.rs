//! The writer state machine: consumes caller payload bytes, emits a Single
//! frame or a First frame followed by Consecutive frames, awaits inbound
//! Flow Control between blocks, and paces Consecutive frames through the
//! delay service.
//!
//! One writer writes one logical message. The message's total length is the
//! length of the buffer handed to the call that starts the transfer, and
//! every later call must pass the still-unconsumed suffix of the message:
//! the First frame announces that total, so the payload may not change
//! under way. Once every byte was accepted the writer is finished and
//! further calls consume nothing.
//!
//! On any error the writer moves to a failed state and refuses further
//! progress; the caller drops it and creates a new one.

use vstd::prelude::*;

use crate::channel::Delay;
use crate::channel::FrameSink;
use crate::channel::FrameSource;
use crate::channel::SinkPoll;
use crate::channel::SourcePoll;
use crate::frame::FlowKind;
use crate::frame::Frame;
use crate::frame::Kind;
use crate::frame::spec_first;
use crate::frame::spec_flow_kind;
use crate::frame::spec_kind;
use crate::frame::spec_single;
use crate::frame::spec_first_len;
use crate::frame::spec_sn;
use crate::protocol::lemma_first_image;
use crate::protocol::lemma_first_round_trip;
use crate::protocol::lemma_message_frame_count;
use crate::protocol::lemma_message_sn_sequence;
use crate::protocol::lemma_sent_frames_complete;
use crate::protocol::lemma_sent_frames_push;
use crate::protocol::lemma_sent_frames_start;
use crate::protocol::spec_consecutive_count;
use crate::protocol::spec_message_frames;
use crate::protocol::spec_min;
use crate::protocol::spec_first_image;
use crate::protocol::spec_sent_frames;
use crate::protocol::spec_sn_of;
use crate::protocol::spec_wait_count;
use crate::protocol::lemma_wait_count_push;
use crate::socket::Socket;

verus! {

/// Everything that can interrupt a write.
#[derive(Clone, Debug, PartialEq, Eq)]
pub enum Error<T, R, D> {
    /// The sink reported an error.
    Transmit(T),
    /// The source reported an error.
    Receive(R),
    /// The delay service reported an error.
    Delay(D),
    /// A frame arrived that is not a well-formed Flow Control frame.
    InvalidFrame,
    /// A frame arrived whose PCI nibble is none of the four known types.
    UnknownFrameKind,
    /// The peer answered with FlowControl(Abort).
    Aborted,
    /// The source ended while a Flow Control frame was awaited.
    UnexpectedEof,
}

/// Outcome of one `poll_write` call.
#[derive(Debug, PartialEq, Eq)]
pub enum WritePoll<T, R, D> {
    /// No progress was possible; poll again once the environment moved.
    Pending,
    /// Bytes were consumed from the buffer, or the write failed.
    Ready(Result<usize, Error<T, R, D>>),
}

/// Outcome of one `poll_flush` call.
#[derive(Debug, PartialEq, Eq)]
pub enum FlushPoll<T, R, D> {
    /// The sink has not driven everything out yet.
    Pending,
    /// Every submitted frame was driven out, or the sink failed.
    Ready(Result<(), Error<T, R, D>>),
}

/// Where the writer stands within one message.
#[derive(Clone, Copy)]
enum State {
    /// No transfer started yet.
    Empty,
    /// A Single frame is encoded and awaits sink acceptance.
    Single { frame: Frame },
    /// Inside a multi-frame transfer.
    Consecutive {
        first_sent: bool,
        total: u16,
        remaining_bytes: u16,
        next_sn: u8,
        remaining_frames: u8,
        unbounded: bool,
        delaying: bool,
        st: u8,
    },
    /// Every byte of the message was handed to the sink.
    Done,
    /// An error occurred; the writer refuses further progress.
    Failed,
}

/// Writer for one ISO-TP message.
pub struct Writer<T, R, D> {
    socket: Socket<T, R>,
    delay: D,
    state: State,
    /// Payload captured for a Single frame not yet accepted by the sink.
    msg: Ghost<Seq<u8>>,
    /// Payload bytes consumed from the caller's buffers so far.
    log_taken: Ghost<Seq<u8>>,
    /// Wire images of the data frames handed to the sink, in order.
    log_out: Ghost<Seq<Seq<u8>>>,
    /// Wire images of the inbound (Flow Control) frames consumed so far.
    log_in: Ghost<Seq<Seq<u8>>>,
    /// Arguments of the delay-service starts, in order.
    log_delays: Ghost<Seq<u8>>,
    /// How many of the submitted frames a completed flush has covered.
    log_flushed: Ghost<int>,
}

impl<T, R, D> Writer<T, R, D> {
    /// Payload bytes consumed from the caller's buffers so far.
    pub closed spec fn taken(self) -> Seq<u8> {
        self.log_taken@
    }

    /// Wire images of the data frames handed to the sink, in order.
    pub closed spec fn frames_out(self) -> Seq<Seq<u8>> {
        self.log_out@
    }

    /// Wire images of the inbound frames consumed so far.
    pub closed spec fn frames_in(self) -> Seq<Seq<u8>> {
        self.log_in@
    }

    /// Arguments of the delay-service starts, in order: one per Consecutive
    /// frame (the separation time in effect), one per FlowControl(Wait).
    pub closed spec fn delays(self) -> Seq<u8> {
        self.log_delays@
    }

    /// True once an error moved the writer to its failed state.
    pub closed spec fn failed(self) -> bool {
        self.state is Failed
    }

    /// True once every byte of the message was handed to the sink.
    pub closed spec fn finished(self) -> bool {
        self.state is Done
    }

    /// True while no transfer has started.
    pub closed spec fn idle(self) -> bool {
        self.state is Empty
    }

    /// True while a multi-frame transfer is in progress.
    pub closed spec fn in_message(self) -> bool {
        self.state is Consecutive
    }

    /// True while an encoded Single frame awaits sink acceptance.
    pub closed spec fn single_pending(self) -> bool {
        self.state is Single
    }

    /// The payload captured for a Single frame awaiting sink acceptance.
    pub closed spec fn queued(self) -> Seq<u8> {
        self.msg@
    }

    /// True once the First frame of the transfer went out.
    pub closed spec fn first_sent(self) -> bool {
        match self.state {
            State::Consecutive { first_sent, .. } => first_sent,
            _ => false,
        }
    }

    /// Total length announced by the First frame of the transfer.
    pub closed spec fn announced(self) -> int {
        match self.state {
            State::Consecutive { total, .. } => total as int,
            _ => 0,
        }
    }

    /// Message bytes not yet consumed in the current transfer.
    pub closed spec fn remaining(self) -> int {
        match self.state {
            State::Consecutive { remaining_bytes, .. } => remaining_bytes as int,
            State::Single { .. } => self.msg@.len() as int,
            _ => 0,
        }
    }

    /// Separation time in effect, learned from the last Continue.
    pub closed spec fn pacing(self) -> u8 {
        match self.state {
            State::Consecutive { st, .. } => st,
            _ => 0,
        }
    }

    /// How many of the frames in `frames_out` a completed flush covered:
    /// frames beyond this count were submitted but not yet driven out.
    pub closed spec fn flushed(self) -> int {
        self.log_flushed@
    }

    /// True once a Continue with block size 0 granted the rest of the
    /// message: the writer consumes no further Flow Control frame.
    pub closed spec fn unbounded_block(self) -> bool {
        match self.state {
            State::Consecutive { unbounded, .. } => unbounded,
            _ => false,
        }
    }

    /// Which buffer lengths a `poll_write` call accepts: the whole message
    /// to start a transfer (at most 4095 bytes), and the still-unconsumed
    /// suffix of the message from then on.
    pub open spec fn accepts(self, len: int) -> bool {
        if self.failed() {
            false
        } else if self.finished() {
            true
        } else if self.single_pending() {
            len == self.queued().len()
        } else if self.in_message() {
            len == self.remaining()
        } else {
            len <= 4095
        }
    }

    /// The writer's invariant: the concrete state matches the ghost history.
    pub closed spec fn wf(self) -> bool {
        &&& 0 <= self.log_flushed@ <= self.log_out@.len()
        &&& match self.state {
            State::Empty => {
                &&& self.log_taken@.len() == 0
                &&& self.log_out@.len() == 0
                &&& self.log_in@.len() == 0
                &&& self.log_delays@.len() == 0
            },
            State::Single { frame } => {
                &&& 1 <= self.msg@.len() <= 7
                &&& frame@ == spec_single(self.msg@)
                &&& self.log_taken@.len() == 0
                &&& self.log_out@.len() == 0
                &&& self.log_in@.len() == 0
                &&& self.log_delays@.len() == 0
            },
            State::Consecutive {
                first_sent,
                total,
                remaining_bytes,
                next_sn,
                remaining_frames,
                unbounded,
                delaying,
                st,
            } => {
                &&& 8 <= total <= 4095
                &&& if !first_sent {
                    &&& self.log_taken@.len() == 0
                    &&& self.log_out@.len() == 0
                    &&& self.log_in@.len() == 0
                    &&& self.log_delays@.len() == 0
                    &&& remaining_bytes == total
                    &&& next_sn == 1
                    &&& !unbounded
                } else {
                    &&& self.log_taken@.len() == total - remaining_bytes
                    &&& 6 <= self.log_taken@.len()
                    &&& (self.log_taken@.len() - 6) % 7 == 0
                    &&& remaining_bytes >= 1
                    &&& self.log_out@ == spec_sent_frames(total as int, self.log_taken@)
                    &&& next_sn == spec_sn_of(
                        spec_consecutive_count(self.log_taken@.len() as int),
                    )
                    &&& self.log_delays@.len() == spec_wait_count(self.log_in@)
                        + spec_consecutive_count(self.log_taken@.len() as int)
                }
            },
            State::Done => {
                ||| {
                    &&& 1 <= self.log_taken@.len() <= 7
                    &&& self.log_out@ == seq![spec_single(self.log_taken@)]
                    &&& self.log_in@.len() == 0
                    &&& self.log_delays@.len() == 0
                }
                ||| {
                    &&& 8 <= self.log_taken@.len() <= 4095
                    &&& self.log_out@ == spec_message_frames(self.log_taken@)
                    &&& self.log_delays@.len() == spec_wait_count(self.log_in@)
                        + spec_consecutive_count(self.log_taken@.len() as int)
                }
            },
            State::Failed => true,
        }
    }
}

impl<T: FrameSink, R: FrameSource, D: Delay> Writer<T, R, D> {
    /// Everything one `poll_write` call promises, relating the writer and
    /// the buffer before the call to the writer and the result after it.
    pub open spec fn poll_transition(
        pre: Self,
        post: Self,
        buf0: Seq<u8>,
        r: WritePoll<
            <T as FrameSink>::Error,
            <R as FrameSource>::Error,
            <D as Delay>::Error,
        >,
    ) -> bool {
        &&& post.wf()
        &&& pre.taken().is_prefix_of(post.taken())
        &&& pre.frames_out().is_prefix_of(post.frames_out())
        &&& pre.frames_in().is_prefix_of(post.frames_in())
        &&& pre.delays().is_prefix_of(post.delays())
        &&& post.frames_out().len() <= pre.frames_out().len() + 1
        &&& post.frames_in().len() <= pre.frames_in().len() + 1
        &&& post.delays().len() <= pre.delays().len() + 1
        &&& post.flushed() == pre.flushed()
        &&& (pre.finished() ==> (r matches WritePoll::Ready(res) && (res matches Ok(n) && n
            == 0)))
        &&& (pre.idle() && buf0.len() == 0 ==> (r matches WritePoll::Ready(res) && (res matches Ok(
            n,
        ) && n == 0)))
        &&& (pre.unbounded_block() ==> post.frames_in() == pre.frames_in() && (post.in_message()
            ==> post.unbounded_block() && post.pacing() == pre.pacing()))
        &&& match r {
            WritePoll::Pending => {
                &&& !post.failed()
                &&& post.taken() == pre.taken()
                &&& post.frames_out() == pre.frames_out()
                &&& {
                    ||| (post.frames_in() == pre.frames_in() && post.delays() == pre.delays())
                    ||| ({
                        // A Wait arrived; its delay was armed.
                        let f = post.frames_in().last();
                        &&& post.frames_in() == pre.frames_in().push(f)
                        &&& spec_kind(f) == Some(Kind::Flow)
                        &&& spec_flow_kind(f) == Some(FlowKind::Wait)
                        &&& post.delays() == pre.delays().push(f[2])
                    })
                    ||| ({
                        // A Continue arrived, but the sink was not ready
                        // for the next Consecutive frame yet.
                        let f = post.frames_in().last();
                        &&& post.frames_in() == pre.frames_in().push(f)
                        &&& spec_kind(f) == Some(Kind::Flow)
                        &&& spec_flow_kind(f) == Some(FlowKind::Continue)
                        &&& post.delays() == pre.delays()
                        &&& post.pacing() == f[2]
                    })
                }
                &&& (pre.idle() && 1 <= buf0.len() <= 7 ==> post.single_pending()
                    && post.queued() == buf0)
                &&& (pre.idle() && buf0.len() > 7 ==> post.in_message() && post.announced()
                    == buf0.len() && !post.first_sent() && post.remaining() == buf0.len())
                &&& (pre.single_pending() ==> post.single_pending() && post.queued()
                    == pre.queued())
                &&& (pre.in_message() ==> post.in_message() && post.announced()
                    == pre.announced() && post.first_sent() == pre.first_sent()
                    && post.remaining() == pre.remaining())
                &&& (pre.finished() ==> post.finished())
            },
            WritePoll::Ready(res) => match res {
                Ok(n) => {
                    &&& !post.failed()
                    &&& n <= buf0.len()
                    &&& if pre.finished() || (pre.idle() && buf0.len() == 0) {
                        // The transfer is over, or nothing was asked for.
                        &&& n == 0
                        &&& post.taken() == pre.taken()
                        &&& post.frames_out() == pre.frames_out()
                        &&& post.frames_in() == pre.frames_in()
                        &&& post.delays() == pre.delays()
                        &&& post.finished() == pre.finished()
                        &&& post.idle() == pre.idle()
                    } else if (pre.idle() && 1 <= buf0.len() <= 7) || pre.single_pending() {
                        // The whole message went out as one Single frame.
                        let m = if pre.idle() {
                            buf0
                        } else {
                            pre.queued()
                        };
                        &&& n == m.len()
                        &&& post.frames_out() == pre.frames_out().push(spec_single(m))
                        &&& post.taken() == pre.taken() + m
                        &&& post.finished()
                        &&& post.frames_in() == pre.frames_in()
                        &&& post.delays() == pre.delays()
                    } else if !pre.first_sent() {
                        // The First frame went out, consuming six bytes.
                        &&& n == 6
                        &&& post.frames_out() == pre.frames_out().push(spec_first(buf0))
                        &&& post.taken() == pre.taken() + buf0.take(6)
                        &&& post.in_message()
                        &&& post.first_sent()
                        &&& post.announced() == buf0.len()
                        &&& post.remaining() == buf0.len() - 6
                        &&& post.frames_in() == pre.frames_in()
                        &&& post.delays() == pre.delays()
                    } else {
                        // One Consecutive frame went out, with one delay
                        // started for the separation time in effect.
                        &&& n as int == spec_min(7, buf0.len() as int)
                        &&& n >= 1
                        &&& post.frames_out() == pre.frames_out().push(
                            spec_consecutive_frame(pre, buf0, n as int),
                        )
                        &&& post.taken() == pre.taken() + buf0.take(n as int)
                        &&& post.delays() == pre.delays().push(post_pacing(pre, post))
                        &&& {
                            ||| {
                                &&& post.frames_in() == pre.frames_in()
                                &&& post_pacing(pre, post) == pre.pacing()
                                &&& (post.in_message() ==> post.unbounded_block()
                                    == pre.unbounded_block())
                            }
                            ||| ({
                                // A Continue opened the block first.
                                let f = post.frames_in().last();
                                &&& post.frames_in() == pre.frames_in().push(f)
                                &&& spec_kind(f) == Some(Kind::Flow)
                                &&& spec_flow_kind(f) == Some(FlowKind::Continue)
                                &&& post_pacing(pre, post) == f[2]
                                &&& (post.in_message() ==> (post.unbounded_block() <==> f[1]
                                    == 0))
                            })
                        }
                        &&& (buf0.len() <= 7 ==> post.finished())
                        &&& (buf0.len() > 7 ==> post.in_message() && post.remaining()
                            == buf0.len() - n && post.announced() == pre.announced()
                            && post.first_sent())
                    }
                },
                Err(e) => {
                    &&& post.failed()
                    &&& match e {
                        Error::Transmit(_) => {
                            &&& post.taken() == pre.taken()
                            &&& post.frames_out() == pre.frames_out()
                            &&& post.delays() == pre.delays()
                            &&& {
                                ||| post.frames_in() == pre.frames_in()
                                ||| ({
                                    let f = post.frames_in().last();
                                    &&& post.frames_in() == pre.frames_in().push(f)
                                    &&& spec_kind(f) == Some(Kind::Flow)
                                    &&& spec_flow_kind(f) == Some(FlowKind::Continue)
                                })
                            }
                        },
                        Error::Receive(_) => post.quiet(pre),
                        Error::UnexpectedEof => post.quiet(pre),
                        Error::UnknownFrameKind => {
                            let f = post.frames_in().last();
                            &&& post.frames_in() == pre.frames_in().push(f)
                            &&& spec_kind(f) is None
                            &&& post.taken() == pre.taken()
                            &&& post.frames_out() == pre.frames_out()
                            &&& post.delays() == pre.delays()
                        },
                        Error::InvalidFrame => {
                            let f = post.frames_in().last();
                            &&& post.frames_in() == pre.frames_in().push(f)
                            &&& {
                                ||| (spec_kind(f) is Some && spec_kind(f) != Some(Kind::Flow))
                                ||| (spec_kind(f) == Some(Kind::Flow) && spec_flow_kind(
                                    f,
                                ) is None)
                            }
                            &&& post.taken() == pre.taken()
                            &&& post.frames_out() == pre.frames_out()
                            &&& post.delays() == pre.delays()
                        },
                        Error::Aborted => {
                            let f = post.frames_in().last();
                            &&& post.frames_in() == pre.frames_in().push(f)
                            &&& spec_kind(f) == Some(Kind::Flow)
                            &&& spec_flow_kind(f) == Some(FlowKind::Abort)
                            &&& post.taken() == pre.taken()
                            &&& post.frames_out() == pre.frames_out()
                            &&& post.delays() == pre.delays()
                        },
                        Error::Delay(_) => {
                            ||| {
                                // A running delay failed; nothing was
                                // consumed or emitted by this call.
                                &&& post.frames_in() == pre.frames_in()
                                &&& post.taken() == pre.taken()
                                &&& post.frames_out() == pre.frames_out()
                                &&& post.delays() == pre.delays()
                            }
                            ||| ({
                                // Arming the delay a Wait asked for failed.
                                let f = post.frames_in().last();
                                &&& post.frames_in() == pre.frames_in().push(f)
                                &&& spec_kind(f) == Some(Kind::Flow)
                                &&& spec_flow_kind(f) == Some(FlowKind::Wait)
                                &&& post.taken() == pre.taken()
                                &&& post.frames_out() == pre.frames_out()
                                &&& post.delays() == pre.delays()
                            })
                            ||| {
                                // Arming the separation delay failed after a
                                // Consecutive frame was already accepted.
                                &&& post.frames_out().len() == pre.frames_out().len() + 1
                                &&& post.taken().len() > pre.taken().len()
                                &&& post.delays() == pre.delays()
                                &&& {
                                    ||| post.frames_in() == pre.frames_in()
                                    ||| ({
                                        let f = post.frames_in().last();
                                        &&& post.frames_in() == pre.frames_in().push(f)
                                        &&& spec_kind(f) == Some(Kind::Flow)
                                        &&& spec_flow_kind(f) == Some(FlowKind::Continue)
                                    })
                                }
                            }
                        },
                    }
                },
            },
        }
    }

    /// All four logs are exactly as they were.
    pub open spec fn quiet(self, pre: Self) -> bool {
        &&& self.taken() == pre.taken()
        &&& self.frames_out() == pre.frames_out()
        &&& self.frames_in() == pre.frames_in()
        &&& self.delays() == pre.delays()
    }

    /// The writer stands exactly where it stood: same stage of the same
    /// transfer.
    pub open spec fn same_stage(self, pre: Self) -> bool {
        &&& !self.failed()
        &&& self.idle() == pre.idle()
        &&& self.single_pending() == pre.single_pending()
        &&& self.in_message() == pre.in_message()
        &&& self.finished() == pre.finished()
        &&& self.queued() == pre.queued()
        &&& self.remaining() == pre.remaining()
        &&& self.announced() == pre.announced()
        &&& self.first_sent() == pre.first_sent()
        &&& self.pacing() == pre.pacing()
    }

    /// Take the channel over to write one message, pacing Consecutive
    /// frames through `delay`.
    pub fn new(socket: Socket<T, R>, delay: D) -> (r: Self)
        ensures
            r.wf(),
            !r.failed(),
            r.idle(),
            r.taken() == Seq::<u8>::empty(),
            r.frames_out() == Seq::<Seq<u8>>::empty(),
            r.frames_in() == Seq::<Seq<u8>>::empty(),
            r.delays() == Seq::<u8>::empty(),
            r.flushed() == 0,
    {
        Writer {
            socket,
            delay,
            state: State::Empty,
            msg: Ghost(Seq::empty()),
            log_taken: Ghost(Seq::empty()),
            log_out: Ghost(Seq::empty()),
            log_in: Ghost(Seq::empty()),
            log_delays: Ghost(Seq::empty()),
            log_flushed: Ghost(0),
        }
    }

    /// True once an error moved the writer to its failed state.
    pub fn is_failed(&self) -> (b: bool)
        ensures
            b == self.failed(),
    {
        match self.state {
            State::Failed => true,
            _ => false,
        }
    }

    /// True once every byte of the message was handed to the sink.
    pub fn is_finished(&self) -> (b: bool)
        ensures
            b == self.finished(),
    {
        match self.state {
            State::Done => true,
            _ => false,
        }
    }
}

/// The Consecutive frame image emitted by a mid-transfer `poll_write` call:
/// the sequence number in effect before the call, carrying the consumed
/// chunk.
pub open spec fn spec_consecutive_frame<T, R, D>(
    pre: Writer<T, R, D>,
    buf0: Seq<u8>,
    n: int,
) -> Seq<u8> {
    crate::frame::spec_consecutive(pre.next_seq(), buf0.take(n))
}

/// The separation time in effect after a mid-transfer `poll_write` call,
/// whether or not the call is the one that learned it: the writer's pacing
/// if the transfer goes on, the pacing it recorded last if it finished.
pub open spec fn post_pacing<T, R, D>(pre: Writer<T, R, D>, post: Writer<T, R, D>) -> u8 {
    if post.in_message() {
        post.pacing()
    } else {
        post.last_pacing()
    }
}

impl<T, R, D> Writer<T, R, D> {
    /// Sequence number the next Consecutive frame will carry.
    pub closed spec fn next_seq(self) -> u8 {
        match self.state {
            State::Consecutive { next_sn, .. } => next_sn,
            _ => 0,
        }
    }

    /// The last delay argument recorded; meaningful right after a transfer
    /// finished.
    pub closed spec fn last_pacing(self) -> u8 {
        self.log_delays@.last()
    }
}

impl<T: FrameSink, R: FrameSource, D: Delay> Writer<T, R, D> {
    /// Accept a chunk of the message payload and emit what can go out
    /// without blocking: the Single frame, the First frame, or one
    /// Consecutive frame, awaiting Flow Control and pacing delays as the
    /// protocol asks.
    ///
    /// The call that starts a transfer fixes the message's total length as
    /// `buf.len()`; every later call must pass the still-unconsumed suffix.
    /// Returns how many bytes of `buf` were consumed; once the writer is
    /// finished, 0.
    pub fn poll_write(&mut self, buf: &[u8]) -> (r: WritePoll<
        <T as FrameSink>::Error,
        <R as FrameSource>::Error,
        <D as Delay>::Error,
    >)
        requires
            old(self).wf(),
            !old(self).failed(),
            old(self).accepts(buf@.len() as int),
        ensures
            Self::poll_transition(*old(self), *final(self), buf@, r),
    {
        let ghost pre = *self;
        proof {
            lemma_log_prefixes(pre);
        }
        match self.state {
            State::Failed => {
                // Excluded by the precondition.
                proof {
                    assert(false);
                }
                WritePoll::Pending
            },
            State::Done => WritePoll::Ready(Ok(0)),
            State::Empty => {
                if buf.len() == 0 {
                    // An empty write before any transfer is a no-op.
                    return WritePoll::Ready(Ok(0));
                }
                if buf.len() <= 7 {
                    let frame = match Frame::single(buf) {
                        Some(f) => f,
                        None => {
                            proof {
                                assert(false);
                            }
                            return WritePoll::Pending;
                        },
                    };
                    self.msg = Ghost(buf@);
                    self.state = State::Single { frame };
                    self.send_single(buf)
                } else {
                    self.state = State::Consecutive {
                        first_sent: false,
                        total: buf.len() as u16,
                        remaining_bytes: buf.len() as u16,
                        next_sn: 1,
                        remaining_frames: 0,
                        unbounded: false,
                        delaying: false,
                        st: 0,
                    };
                    self.send_first(buf)
                }
            },
            State::Single { .. } => self.send_single(buf),
            State::Consecutive {
                first_sent,
                total,
                remaining_bytes,
                next_sn,
                remaining_frames,
                unbounded,
                delaying,
                st,
            } => {
                if delaying {
                    // A Wait or separation delay is running; it must elapse
                    // before anything else happens.
                    match self.delay.poll_elapsed() {
                        SinkPoll::Pending => {
                            return WritePoll::Pending;
                        },
                        SinkPoll::Failed(e) => {
                            self.state = State::Failed;
                            return WritePoll::Ready(Err(Error::Delay(e)));
                        },
                        SinkPoll::Ready => {
                            self.state = State::Consecutive {
                                first_sent,
                                total,
                                remaining_bytes,
                                next_sn,
                                remaining_frames,
                                unbounded,
                                delaying: false,
                                st,
                            };
                        },
                    }
                }
                if !first_sent {
                    self.send_first(buf)
                } else {
                    self.send_chunk(buf, total, remaining_bytes, next_sn, remaining_frames, unbounded, st)
                }
            },
        }
    }

    /// Await the sink's flush: every submitted frame driven out.
    pub fn poll_flush(&mut self) -> (r: FlushPoll<
        <T as FrameSink>::Error,
        <R as FrameSource>::Error,
        <D as Delay>::Error,
    >)
        requires
            old(self).wf(),
            !old(self).failed(),
        ensures
            final(self).wf(),
            final(self).quiet(*old(self)),
            old(self).flushed() <= final(self).flushed(),
            match r {
                FlushPoll::Pending => final(self).same_stage(*old(self)) && final(self).flushed()
                    == old(self).flushed(),
                FlushPoll::Ready(res) => match res {
                    Ok(_) => final(self).same_stage(*old(self)) && final(self).flushed() == final(self).frames_out().len(),
                    Err(e) => final(self).failed() && e is Transmit && final(self).flushed() == old(self).flushed(),
                },
            },
    {
        match self.socket.tx.poll_flush() {
            SinkPoll::Pending => FlushPoll::Pending,
            SinkPoll::Failed(e) => {
                self.state = State::Failed;
                FlushPoll::Ready(Err(Error::Transmit(e)))
            },
            SinkPoll::Ready => {
                self.log_flushed = Ghost(self.log_out@.len() as int);
                FlushPoll::Ready(Ok(()))
            },
        }
    }

    /// Submit the encoded Single frame once the sink is ready; the whole
    /// message is consumed with it.
    fn send_single(&mut self, buf: &[u8]) -> (r: WritePoll<
        <T as FrameSink>::Error,
        <R as FrameSource>::Error,
        <D as Delay>::Error,
    >)
        requires
            old(self).wf(),
            old(self).state is Single,
            buf@.len() == old(self).queued().len(),
        ensures
            Self::poll_transition(*old(self), *final(self), buf@, r),
    {
        let ghost pre = *self;
        proof {
            lemma_log_prefixes(pre);
        }
        let frame = match self.state {
            State::Single { frame } => frame,
            _ => {
                proof {
                    assert(false);
                }
                Frame::flow(FlowKind::Continue, 0, 0)
            },
        };
        match self.socket.tx.poll_ready() {
            SinkPoll::Pending => {
                return WritePoll::Pending;
            },
            SinkPoll::Failed(e) => {
                self.state = State::Failed;
                return WritePoll::Ready(Err(Error::Transmit(e)));
            },
            SinkPoll::Ready => {},
        }
        match self.socket.tx.submit(frame) {
            Err(e) => {
                self.state = State::Failed;
                return WritePoll::Ready(Err(Error::Transmit(e)));
            },
            Ok(_) => {},
        }
        self.log_out = Ghost(self.log_out@.push(frame@));
        self.log_taken = Ghost(self.log_taken@ + self.msg@);
        self.state = State::Done;
        proof {
            assert(self.log_taken@ =~= pre.msg@);
            assert(pre.log_taken@.is_prefix_of(self.log_taken@));
            assert(self.log_out@ =~= seq![spec_single(self.log_taken@)]);
        }
        WritePoll::Ready(Ok(buf.len()))
    }

    /// Submit the First frame once the sink is ready; it announces the
    /// whole buffer's length and consumes its first six bytes.
    fn send_first(&mut self, buf: &[u8]) -> (r: WritePoll<
        <T as FrameSink>::Error,
        <R as FrameSource>::Error,
        <D as Delay>::Error,
    >)
        requires
            old(self).wf(),
            old(self).state matches State::Consecutive { first_sent: false, .. },
            buf@.len() == old(self).remaining(),
        ensures
            Self::poll_transition(*old(self), *final(self), buf@, r),
    {
        let ghost pre = *self;
        proof {
            lemma_log_prefixes(pre);
        }
        let (total, st) = match self.state {
            State::Consecutive { total, st, .. } => (total, st),
            _ => {
                proof {
                    assert(false);
                }
                (0u16, 0u8)
            },
        };
        match self.socket.tx.poll_ready() {
            SinkPoll::Pending => {
                return WritePoll::Pending;
            },
            SinkPoll::Failed(e) => {
                self.state = State::Failed;
                return WritePoll::Ready(Err(Error::Transmit(e)));
            },
            SinkPoll::Ready => {},
        }
        let (frame, used) = Frame::first(buf);
        match self.socket.tx.submit(frame) {
            Err(e) => {
                self.state = State::Failed;
                return WritePoll::Ready(Err(Error::Transmit(e)));
            },
            Ok(_) => {},
        }
        self.log_out = Ghost(self.log_out@.push(frame@));
        self.log_taken = Ghost(self.log_taken@ + buf@.take(6));
        self.state = State::Consecutive {
            first_sent: true,
            total,
            remaining_bytes: total - 6,
            next_sn: 1,
            remaining_frames: 0,
            unbounded: false,
            delaying: false,
            st,
        };
        proof {
            lemma_first_image(buf@);
            assert(self.log_taken@ =~= buf@.take(6));
            assert(buf@.take(6).take(6) =~= buf@.take(6));
            lemma_sent_frames_start(total as int, self.log_taken@);
            assert(spec_first_image(total as int, self.log_taken@) == spec_first(buf@));
            assert(self.log_out@ =~= seq![spec_first_image(total as int, self.log_taken@)]);
            assert(spec_consecutive_count(6) == 0);
            assert(spec_sn_of(0) == 1);
            assert(spec_wait_count(self.log_in@) == 0);
            assert(pre.log_taken@.is_prefix_of(self.log_taken@));
        }
        WritePoll::Ready(Ok(used))
    }

    /// Mid-transfer step: learn Flow Control if a new block is due, then
    /// submit one Consecutive frame and arm the separation delay.
    fn send_chunk(
        &mut self,
        buf: &[u8],
        total: u16,
        remaining_bytes: u16,
        next_sn: u8,
        remaining_frames: u8,
        unbounded: bool,
        st: u8,
    ) -> (r: WritePoll<
        <T as FrameSink>::Error,
        <R as FrameSource>::Error,
        <D as Delay>::Error,
    >)
        requires
            old(self).wf(),
            old(self).state == (State::Consecutive {
                first_sent: true,
                total,
                remaining_bytes,
                next_sn,
                remaining_frames,
                unbounded,
                delaying: false,
                st,
            }),
            buf@.len() == remaining_bytes,
        ensures
            Self::poll_transition(*old(self), *final(self), buf@, r),
    {
        let ghost pre = *self;
        proof {
            lemma_log_prefixes(pre);
        }
        let mut rem = remaining_frames;
        let mut unb = unbounded;
        let mut stv = st;
        if rem == 0 && !unb {
            // The block is exhausted: the peer owes us Flow Control.
            let f = match self.socket.rx.poll_next() {
                SourcePoll::Pending => {
                    return WritePoll::Pending;
                },
                SourcePoll::Ended => {
                    self.state = State::Failed;
                    return WritePoll::Ready(Err(Error::UnexpectedEof));
                },
                SourcePoll::Failed(e) => {
                    self.state = State::Failed;
                    return WritePoll::Ready(Err(Error::Receive(e)));
                },
                SourcePoll::Frame(f) => f,
            };
            self.log_in = Ghost(self.log_in@.push(f@));
            proof {
                assert(pre.log_in@.is_prefix_of(self.log_in@));
                assert(self.log_in@.last() == f@);
            }
            match f.kind() {
                None => {
                    self.state = State::Failed;
                    return WritePoll::Ready(Err(Error::UnknownFrameKind));
                },
                Some(Kind::Flow) => {},
                Some(_) => {
                    self.state = State::Failed;
                    return WritePoll::Ready(Err(Error::InvalidFrame));
                },
            }
            match f.flow_kind() {
                None => {
                    // Reserved flow command.
                    self.state = State::Failed;
                    return WritePoll::Ready(Err(Error::InvalidFrame));
                },
                Some(FlowKind::Abort) => {
                    self.state = State::Failed;
                    return WritePoll::Ready(Err(Error::Aborted));
                },
                Some(FlowKind::Wait) => {
                    // Hold off for the announced time, then ask again.
                    let wait_ms = f.flow_st();
                    match self.delay.start(wait_ms) {
                        Err(e) => {
                            self.state = State::Failed;
                            return WritePoll::Ready(Err(Error::Delay(e)));
                        },
                        Ok(_) => {},
                    }
                    self.log_delays = Ghost(self.log_delays@.push(wait_ms));
                    self.state = State::Consecutive {
                        first_sent: true,
                        total,
                        remaining_bytes,
                        next_sn,
                        remaining_frames: rem,
                        unbounded: unb,
                        delaying: true,
                        st: stv,
                    };
                    proof {
                        lemma_wait_count_push(pre.log_in@, f@);
                        assert(pre.log_delays@.is_prefix_of(self.log_delays@));
                    }
                    return WritePoll::Pending;
                },
                Some(FlowKind::Continue) => {
                    // A new block: its size and separation time take effect.
                    rem = f.flow_len();
                    stv = f.flow_st();
                    unb = rem == 0;
                    self.state = State::Consecutive {
                        first_sent: true,
                        total,
                        remaining_bytes,
                        next_sn,
                        remaining_frames: rem,
                        unbounded: unb,
                        delaying: false,
                        st: stv,
                    };
                    proof {
                        lemma_wait_count_push(pre.log_in@, f@);
                    }
                },
            }
        }
        match self.socket.tx.poll_ready() {
            SinkPoll::Pending => {
                return WritePoll::Pending;
            },
            SinkPoll::Failed(e) => {
                self.state = State::Failed;
                return WritePoll::Ready(Err(Error::Transmit(e)));
            },
            SinkPoll::Ready => {},
        }
        let (frame, used) = Frame::consecutive(next_sn, buf);
        match self.socket.tx.submit(frame) {
            Err(e) => {
                self.state = State::Failed;
                return WritePoll::Ready(Err(Error::Transmit(e)));
            },
            Ok(_) => {},
        }
        self.log_out = Ghost(self.log_out@.push(frame@));
        self.log_taken = Ghost(self.log_taken@ + buf@.subrange(0, used as int));
        match self.delay.start(stv) {
            Err(e) => {
                self.state = State::Failed;
                return WritePoll::Ready(Err(Error::Delay(e)));
            },
            Ok(_) => {},
        }
        self.log_delays = Ghost(self.log_delays@.push(stv));
        let new_remaining = remaining_bytes - used as u16;
        proof {
            assert(buf@.subrange(0, used as int) =~= buf@.take(used as int));
            lemma_sent_frames_push(total as int, pre.log_taken@, buf@.take(used as int));
            assert(pre.log_taken@ + buf@.take(used as int) == self.log_taken@);
            assert(pre.log_taken@.is_prefix_of(self.log_taken@));
            assert(pre.log_delays@.is_prefix_of(self.log_delays@));
            assert(self.log_delays@.len() == spec_wait_count(self.log_in@)
                + spec_consecutive_count(self.log_taken@.len() as int));
        }
        if new_remaining == 0 {
            self.state = State::Done;
            proof {
                assert(self.log_taken@.len() == total);
                lemma_sent_frames_complete(total as int, self.log_taken@);
            }
        } else {
            self.state = State::Consecutive {
                first_sent: true,
                total,
                remaining_bytes: new_remaining,
                next_sn: (next_sn + 1) % 16,
                remaining_frames: if unb {
                    rem
                } else {
                    rem - 1
                },
                unbounded: unb,
                delaying: true,
                st: stv,
            };
            proof {
                assert(used == 7);
                assert((self.log_taken@.len() - 6) % 7 == 0);
                let c = spec_consecutive_count(pre.log_taken@.len() as int);
                assert(next_sn == spec_sn_of(c));
                assert(spec_consecutive_count(self.log_taken@.len() as int) == c + 1);
                assert((next_sn + 1) % 16 == spec_sn_of(c + 1));
            }
        }
        WritePoll::Ready(Ok(used))
    }
}

/// Each of the writer's logs is a prefix of itself.
proof fn lemma_log_prefixes<T, R, D>(w: Writer<T, R, D>)
    ensures
        w.taken().is_prefix_of(w.taken()),
        w.frames_out().is_prefix_of(w.frames_out()),
        w.frames_in().is_prefix_of(w.frames_in()),
        w.delays().is_prefix_of(w.delays()),
{
    assert(w.taken().take(w.taken().len() as int) =~= w.taken());
    assert(w.frames_out().take(w.frames_out().len() as int) =~= w.frames_out());
    assert(w.frames_in().take(w.frames_in().len() as int) =~= w.frames_in());
    assert(w.delays().take(w.delays().len() as int) =~= w.delays());
}

/// A finished single-frame transfer emitted exactly one Single frame
/// carrying the whole message.
pub proof fn lemma_writer_emits_single<T, R, D>(w: Writer<T, R, D>)
    requires
        w.wf(),
        w.finished(),
        w.taken().len() <= 7,
    ensures
        1 <= w.taken().len(),
        w.frames_out() == seq![spec_single(w.taken())],
        w.delays().len() == 0,
        w.frames_in().len() == 0,
{
}

/// A writer stands in exactly one stage at any time: idle, holding an
/// unsent Single frame, mid-message, finished, or failed.
pub proof fn lemma_writer_stage_exclusive<T, R, D>(w: Writer<T, R, D>)
    ensures
        (if w.idle() {
            1int
        } else {
            0int
        }) + (if w.single_pending() {
            1int
        } else {
            0int
        }) + (if w.in_message() {
            1int
        } else {
            0int
        }) + (if w.finished() {
            1int
        } else {
            0int
        }) + (if w.failed() {
            1int
        } else {
            0int
        }) == 1,
{
    match w.state {
        State::Empty => {},
        State::Single { .. } => {},
        State::Consecutive { .. } => {},
        State::Done => {},
        State::Failed => {},
    }
}

/// A finished multi-frame transfer started the delay service exactly once
/// per Consecutive frame and never for the First frame, beyond one start
/// per FlowControl(Wait) it received.
pub proof fn lemma_writer_delay_per_consecutive<T, R, D>(w: Writer<T, R, D>)
    requires
        w.wf(),
        w.finished(),
        w.taken().len() >= 8,
    ensures
        w.delays().len() == spec_wait_count(w.frames_in()) + spec_consecutive_count(
            w.taken().len() as int,
        ),
        w.frames_out().len() == 1 + spec_consecutive_count(w.taken().len() as int),
{
    lemma_message_frame_count(w.taken());
}

/// A finished multi-frame transfer emitted exactly one First frame followed
/// by the ceiling of `(L - 6) / 7` Consecutive frames, whose sequence
/// numbers run 1, 2, ..., 15, 0, 1, ... and whose First frame announces
/// exactly the message's length.
pub proof fn lemma_writer_emits_message<T, R, D>(w: Writer<T, R, D>)
    requires
        w.wf(),
        w.finished(),
        w.taken().len() >= 8,
    ensures
        w.taken().len() <= 4095,
        w.frames_out() == spec_message_frames(w.taken()),
        w.frames_out().len() == 1 + spec_consecutive_count(w.taken().len() as int),
        spec_kind(w.frames_out()[0]) == Some(Kind::First),
        spec_first_len(w.frames_out()[0]) == w.taken().len(),
        forall|i: int|
            1 <= i < w.frames_out().len() ==> spec_kind(#[trigger] w.frames_out()[i]) == Some(
                Kind::Consecutive,
            ),
        forall|i: int|
            1 <= i < w.frames_out().len() ==> spec_sn(#[trigger] w.frames_out()[i]) == i % 16,
{
    lemma_message_frame_count(w.taken());
    lemma_message_sn_sequence(w.taken());
    lemma_first_round_trip(w.taken());
}

} // verus!
