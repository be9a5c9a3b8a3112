//! The reader state machine: consumes inbound frames, hands decoded payload
//! bytes to caller-supplied buffers, and answers with Flow Control frames
//! according to the configured block-size and separation-time policy.
//!
//! One reader reads one logical message. A frame delivering more data than a
//! call's buffer permits is drained across later calls before any further
//! inbound frame is consumed. Sequence numbers of inbound Consecutive frames
//! are tracked but not validated against the expected value: mismatches pass
//! through, as the protocol's receiver is permitted to defer that check.
//!
//! On any error the reader moves to a failed state and refuses further
//! progress; the caller drops it and creates a new one.

use vstd::prelude::*;

use crate::channel::FrameSink;
use crate::channel::FrameSource;
use crate::channel::SinkPoll;
use crate::channel::SourcePoll;
use crate::frame::FlowKind;
use crate::frame::Frame;
use crate::frame::Kind;
use crate::frame::spec_first_len;
use crate::frame::spec_flow;
use crate::frame::spec_kind;
use crate::frame::spec_first;
use crate::frame::spec_single;
use crate::frame::spec_single_len;
use crate::protocol::lemma_cons_payload_len;
use crate::protocol::lemma_cons_payload_push;
use crate::protocol::lemma_first_round_trip;
use crate::protocol::lemma_message_frame_count;
use crate::protocol::lemma_multi_frame_round_trip;
use crate::protocol::lemma_single_round_trip;
use crate::protocol::spec_cons_payload;
use crate::protocol::spec_message_frames;
use crate::protocol::spec_min;
use crate::protocol::spec_multi_payload;
use crate::socket::Socket;
use crate::writer::Writer;
use crate::writer::lemma_writer_emits_message;
use crate::writer::lemma_writer_emits_single;

verus! {

/// Everything that can interrupt a read.
#[derive(Clone, Debug, PartialEq, Eq)]
pub enum Error<T, R> {
    /// The sink reported an error while a Flow Control frame was sent.
    Transmit(T),
    /// The source reported an error.
    Receive(R),
    /// A frame arrived whose type is not allowed in the current state.
    InvalidFrame,
    /// A frame arrived whose PCI nibble is none of the four known types.
    UnknownFrameKind,
    /// The source ended before the message was complete.
    UnexpectedEof,
}

/// Outcome of one `poll_read` call.
#[derive(Debug, PartialEq, Eq)]
pub enum ReadPoll<T, R> {
    /// No progress was possible; poll again once the environment moved.
    Pending,
    /// Bytes were delivered (0 denotes end-of-message), or the read failed.
    Ready(Result<usize, Error<T, R>>),
}

/// Outcome of sending one receiver-side Flow Control command.
#[derive(Debug, PartialEq, Eq)]
pub enum FcPoll<T, R> {
    /// The sink has not taken or flushed the frame yet.
    Pending,
    /// The command went out, or the sink failed.
    Ready(Result<(), Error<T, R>>),
}

/// Where the reader stands within one message.
#[derive(Clone, Copy)]
enum State {
    /// Awaiting the opening frame.
    Empty,
    /// A Single frame's payload is (being) delivered; nothing more arrives.
    SingleTail,
    /// Inside a multi-frame message.
    Consecutive {
        remaining_bytes: u16,
        remaining_frames: u8,
        next_sn: u8,
        flushing_fc: bool,
        unbounded: bool,
    },
    /// The caller is telling the remote sender to stop the message.
    Aborting { submitted: bool },
    /// An error occurred; the reader refuses further progress.
    Failed,
}

/// Reader for one ISO-TP message.
pub struct Reader<T, R> {
    socket: Socket<T, R>,
    state: State,
    block_len: u8,
    st: u8,
    /// Received payload bytes not yet handed to the caller.
    pending: Vec<u8>,
    /// How much of `pending` was already delivered.
    pos: usize,
    /// Announced length of the message being read.
    total: Ghost<int>,
    /// Bytes handed to the caller so far.
    log_delivered: Ghost<Seq<u8>>,
    /// Payload bytes taken out of consumed frames so far.
    log_received: Ghost<Seq<u8>>,
    /// Wire images of the inbound frames consumed so far.
    log_frames_in: Ghost<Seq<Seq<u8>>>,
    /// Wire images of the Flow Control frames submitted so far.
    log_fc: Ghost<Seq<Seq<u8>>>,
}

impl<T, R> Reader<T, R> {
    /// Bytes handed to the caller so far, in order.
    pub closed spec fn delivered(self) -> Seq<u8> {
        self.log_delivered@
    }

    /// Payload bytes taken out of consumed frames so far, in order.
    pub closed spec fn received(self) -> Seq<u8> {
        self.log_received@
    }

    /// Wire images of the inbound frames consumed so far.
    pub closed spec fn frames_in(self) -> Seq<Seq<u8>> {
        self.log_frames_in@
    }

    /// Wire images of the Flow Control frames submitted so far.
    pub closed spec fn fc_frames(self) -> Seq<Seq<u8>> {
        self.log_fc@
    }

    /// Total message length announced by the opening frame; meaningful once
    /// the reader has started.
    pub closed spec fn announced(self) -> int {
        self.total@
    }

    /// True once an error moved the reader to its failed state.
    pub closed spec fn failed(self) -> bool {
        self.state is Failed
    }

    /// True while a multi-frame message is in progress.
    pub closed spec fn in_message(self) -> bool {
        self.state is Consecutive
    }

    /// Block size announced to the remote sender.
    pub closed spec fn block_size(self) -> u8 {
        self.block_len
    }

    /// Separation time announced to the remote sender.
    pub closed spec fn sep_time(self) -> u8 {
        self.st
    }

    /// Consecutive frames the currently granted block still admits.
    pub closed spec fn block_left(self) -> int {
        match self.state {
            State::Consecutive { remaining_frames, .. } => remaining_frames as int,
            _ => 0,
        }
    }

    /// True once a first Flow Control with block size 0 granted the whole
    /// rest of the message: no further Continue is ever sent.
    pub closed spec fn unbounded_block(self) -> bool {
        match self.state {
            State::Consecutive { unbounded, .. } => unbounded,
            _ => false,
        }
    }

    /// True while a submitted Flow Control frame still awaits the sink's
    /// flush.
    pub closed spec fn fc_pending(self) -> bool {
        match self.state {
            State::Consecutive { flushing_fc, .. } => flushing_fc,
            _ => false,
        }
    }

    /// True while the reader is telling the remote sender to stop.
    pub closed spec fn aborting(self) -> bool {
        self.state is Aborting
    }

    /// True while a submitted Abort frame still awaits the sink's flush.
    pub closed spec fn abort_pending(self) -> bool {
        match self.state {
            State::Aborting { submitted } => submitted,
            _ => false,
        }
    }

    /// True once the opening frame of the message was consumed.
    pub open spec fn started(self) -> bool {
        self.frames_in().len() > 0
    }

    /// True once every announced byte was handed to the caller.
    pub open spec fn done(self) -> bool {
        self.started() && self.delivered().len() == self.announced()
    }

    /// The undelivered suffix of `pending` is exactly the received bytes
    /// not yet handed out, and what was handed out is a prefix of them.
    spec fn pending_ok(self) -> bool {
        &&& self.pos <= self.pending@.len()
        &&& self.log_delivered@.len() + (self.pending@.len() - self.pos)
            == self.log_received@.len()
        &&& self.log_delivered@ == self.log_received@.take(self.log_delivered@.len() as int)
        &&& self.pending@.skip(self.pos as int) == self.log_received@.skip(
            self.log_delivered@.len() as int,
        )
    }

    /// The reader's invariant: the concrete state matches the ghost history.
    pub closed spec fn wf(self) -> bool {
        match self.state {
            State::Empty => {
                &&& self.log_frames_in@.len() == 0
                &&& self.log_received@.len() == 0
                &&& self.log_delivered@.len() == 0
                &&& self.log_fc@.len() == 0
                &&& self.pos == self.pending@.len()
            },
            State::SingleTail => {
                &&& self.log_frames_in@.len() == 1
                &&& self.log_frames_in@[0].len() == 8
                &&& spec_kind(self.log_frames_in@[0]) == Some(Kind::Single)
                &&& self.total@ == spec_single_len(self.log_frames_in@[0])
                &&& 1 <= self.total@ <= 7
                &&& self.log_received@ == self.log_frames_in@[0].subrange(1, 1 + self.total@)
                &&& self.log_fc@.len() == 0
                &&& self.pending_ok()
            },
            State::Consecutive {
                remaining_bytes,
                remaining_frames,
                next_sn,
                flushing_fc,
                unbounded,
            } => {
                &&& self.log_frames_in@.len() >= 1
                &&& (forall|i: int|
                    0 <= i < self.log_frames_in@.len() ==> (#[trigger] self.log_frames_in@[i]).len()
                        == 8)
                &&& spec_kind(self.log_frames_in@[0]) == Some(Kind::First)
                &&& self.total@ == spec_first_len(self.log_frames_in@[0])
                &&& 8 <= self.total@ <= 4095
                &&& (forall|i: int|
                    1 <= i < self.log_frames_in@.len() ==> spec_kind(
                        #[trigger] self.log_frames_in@[i],
                    ) == Some(Kind::Consecutive))
                &&& self.log_received@ == self.log_frames_in@[0].subrange(2, 8)
                    + spec_cons_payload(self.log_frames_in@.drop_first(), self.total@ - 6)
                &&& remaining_bytes == self.total@ - self.log_received@.len()
                &&& next_sn == self.log_frames_in@.len() % 16
                &&& (flushing_fc ==> remaining_frames == 0 && !unbounded && self.log_fc@.len()
                    >= 1)
                &&& (unbounded ==> self.block_len == 0 && self.log_fc@.len() == 1)
                &&& (!unbounded ==> (self.log_fc@.len() as int - (if flushing_fc {
                    1int
                } else {
                    0int
                })) * self.block_len == (self.log_frames_in@.len() as int - 1) + remaining_frames)
                &&& (!unbounded && self.block_len == 0 ==> self.log_fc@.len() == (if flushing_fc {
                    1int
                } else {
                    0int
                }))
                &&& self.pending_ok()
            },
            State::Aborting { submitted } => submitted ==> self.log_fc@.len() >= 1
                && self.log_fc@.last() == spec_flow(FlowKind::Abort, 0, 0),
            State::Failed => true,
        }
    }

    /// Nothing observable moved: same bytes, same frames, same length.
    pub open spec fn quiet(self, pre: Self) -> bool {
        &&& self.delivered() == pre.delivered()
        &&& self.received() == pre.received()
        &&& self.frames_in() == pre.frames_in()
        &&& self.announced() == pre.announced()
    }

    /// At most one Flow Control frame went out; then it was exactly
    /// `FlowControl(Continue, block_size, sep_time)`, and it was due: a
    /// multi-frame message in progress whose granted block is exhausted
    /// and whose grants are still bounded.
    pub open spec fn fc_growth(self, pre: Self) -> bool {
        ||| self.fc_frames() == pre.fc_frames()
        ||| {
            &&& pre.in_message()
            &&& !pre.done()
            &&& pre.block_left() == 0
            &&& !pre.unbounded_block()
            &&& self.fc_frames() == pre.fc_frames().push(
                spec_flow(FlowKind::Continue, pre.block_size(), pre.sep_time()),
            )
        }
    }

    /// One protocol-conforming frame was consumed: the opening Single or
    /// First frame of a fresh reader, or the next Consecutive frame of a
    /// message in progress, its data truncated to the bytes still owed.
    pub open spec fn consumed_ok(self, pre: Self) -> bool {
        let f = self.frames_in().last();
        &&& self.frames_in() == pre.frames_in().push(f)
        &&& f.len() == 8
        &&& if pre.started() {
            &&& spec_kind(f) == Some(Kind::Consecutive)
            &&& self.received() == pre.received() + f.subrange(
                1,
                1 + spec_min(7, pre.announced() - pre.received().len()),
            )
            &&& self.announced() == pre.announced()
        } else {
            ||| {
                &&& spec_kind(f) == Some(Kind::Single)
                &&& 1 <= spec_single_len(f) <= 7
                &&& self.received() == f.subrange(1, 1 + spec_single_len(f))
                &&& self.announced() == spec_single_len(f)
            }
            ||| {
                &&& spec_kind(f) == Some(Kind::First)
                &&& 8 <= spec_first_len(f)
                &&& self.received() == f.subrange(2, 8)
                &&& self.announced() == spec_first_len(f)
            }
        }
    }

    /// The consumed frame is not allowed in the current state: any
    /// Consecutive or Flow frame while nothing is in progress, a malformed
    /// Single or First opening, or any non-Consecutive frame mid-message.
    pub open spec fn rejected_frame(self, pre: Self) -> bool {
        let f = self.frames_in().last();
        &&& self.frames_in() == pre.frames_in().push(f)
        &&& if pre.in_message() {
            spec_kind(f) is Some && spec_kind(f) != Some(Kind::Consecutive)
        } else {
            ||| spec_kind(f) == Some(Kind::Consecutive)
            ||| spec_kind(f) == Some(Kind::Flow)
            ||| (spec_kind(f) == Some(Kind::Single) && (spec_single_len(f) == 0 || spec_single_len(
                f,
            ) > 7))
            ||| (spec_kind(f) == Some(Kind::First) && spec_first_len(f) < 8)
        }
    }
}

impl<T: FrameSink, R: FrameSource> Reader<T, R> {
    /// Everything one `poll_read` call promises, relating the reader and the
    /// buffer before the call to the reader, the buffer and the result after
    /// it.
    pub open spec fn poll_transition(
        pre: Self,
        post: Self,
        buf0: Seq<u8>,
        buf1: Seq<u8>,
        r: ReadPoll<<T as FrameSink>::Error, <R as FrameSource>::Error>,
    ) -> bool {
        &&& post.wf()
        &&& post.block_size() == pre.block_size()
        &&& post.sep_time() == pre.sep_time()
        &&& buf1.len() == buf0.len()
        &&& post.fc_growth(pre)
        &&& pre.delivered().is_prefix_of(post.delivered())
        &&& pre.received().is_prefix_of(post.received())
        &&& pre.frames_in().is_prefix_of(post.frames_in())
        &&& post.frames_in().len() <= pre.frames_in().len() + 1
        &&& (pre.done() ==> (r matches ReadPoll::Ready(res) && (res matches Ok(n) && n == 0))
            && post.fc_frames() == pre.fc_frames())
        &&& (pre.received().len() > pre.delivered().len() ==> (r matches ReadPoll::Ready(res)
            && res is Ok))
        &&& match r {
            ReadPoll::Pending => {
                &&& post.quiet(pre)
                &&& buf1 == buf0
                &&& !post.failed()
            },
            ReadPoll::Ready(res) => match res {
                Ok(n) => {
                    &&& !post.failed()
                    &&& n <= buf0.len()
                    &&& buf1.skip(n as int) == buf0.skip(n as int)
                    &&& post.delivered() == pre.delivered() + buf1.take(n as int)
                    &&& n as int == spec_min(
                        buf0.len() as int,
                        post.received().len() - pre.delivered().len(),
                    )
                    &&& post.delivered() == post.received().take(post.delivered().len() as int)
                    &&& (n == 0 ==> post.done())
                    &&& (pre.done() ==> n == 0 && post.quiet(pre))
                    &&& (pre.started() ==> post.announced() == pre.announced())
                    &&& if post.frames_in() == pre.frames_in() {
                        post.received() == pre.received()
                    } else {
                        post.consumed_ok(pre)
                    }
                },
                Err(e) => {
                    &&& post.failed()
                    &&& post.delivered() == pre.delivered()
                    &&& buf1 == buf0
                    &&& match e {
                        Error::Transmit(_) => post.frames_in() == pre.frames_in()
                            && pre.in_message(),
                        Error::Receive(_) => post.frames_in() == pre.frames_in(),
                        Error::UnexpectedEof => post.frames_in() == pre.frames_in(),
                        Error::UnknownFrameKind => {
                            let f = post.frames_in().last();
                            &&& post.frames_in() == pre.frames_in().push(f)
                            &&& spec_kind(f) is None
                        },
                        Error::InvalidFrame => post.rejected_frame(pre),
                    }
                },
            },
        }
    }

    /// Take the channel over to read one message, announcing `block_len`
    /// and `st` in every Flow Control frame sent to the remote sender.
    pub fn with_flow_control(socket: Socket<T, R>, block_len: u8, st: u8) -> (r: Self)
        ensures
            r.wf(),
            !r.failed(),
            !r.started(),
            r.delivered() == Seq::<u8>::empty(),
            r.frames_in() == Seq::<Seq<u8>>::empty(),
            r.fc_frames() == Seq::<Seq<u8>>::empty(),
            r.block_size() == block_len,
            r.sep_time() == st,
            !r.aborting(),
    {
        Reader {
            socket,
            state: State::Empty,
            block_len,
            st,
            pending: Vec::new(),
            pos: 0,
            total: Ghost(0),
            log_delivered: Ghost(Seq::empty()),
            log_received: Ghost(Seq::empty()),
            log_frames_in: Ghost(Seq::empty()),
            log_fc: Ghost(Seq::empty()),
        }
    }

    /// Take the channel over to read one message with the default flow
    /// control policy: blocks of 10 frames, no separation time.
    pub fn new(socket: Socket<T, R>) -> (r: Self)
        ensures
            r.wf(),
            !r.failed(),
            !r.started(),
            r.delivered() == Seq::<u8>::empty(),
            r.frames_in() == Seq::<Seq<u8>>::empty(),
            r.fc_frames() == Seq::<Seq<u8>>::empty(),
            r.block_size() == 10,
            r.sep_time() == 0,
            !r.aborting(),
    {
        Self::with_flow_control(socket, 10, 0)
    }


    /// Resume reading behind an opening frame that was already pulled off
    /// the channel: the frame counts as consumed, its payload as received
    /// but not yet delivered.
    pub(crate) fn after_opening(socket: Socket<T, R>, frame: Frame, block_len: u8, st: u8) -> (r:
        Self)
        requires
            (spec_kind(frame@) == Some(Kind::Single) && 1 <= spec_single_len(frame@) <= 7) || (
            spec_kind(frame@) == Some(Kind::First) && 8 <= spec_first_len(frame@)),
        ensures
            r.wf(),
            !r.failed(),
            r.started(),
            r.frames_in() == seq![frame@],
            r.delivered() == Seq::<u8>::empty(),
            r.fc_frames() == Seq::<Seq<u8>>::empty(),
            r.block_size() == block_len,
            r.sep_time() == st,
            spec_kind(frame@) == Some(Kind::Single) ==> r.announced() == spec_single_len(frame@)
                && r.received() == frame@.subrange(1, 1 + spec_single_len(frame@)),
            spec_kind(frame@) == Some(Kind::First) ==> r.announced() == spec_first_len(frame@)
                && r.received() == frame@.subrange(2, 8),
            !r.aborting(),
    {
        let mut r = Self::with_flow_control(socket, block_len, st);
        r.log_frames_in = Ghost(Seq::<Seq<u8>>::empty().push(frame@));
        proof {
            assert(r.log_frames_in@ =~= seq![frame@]);
            assert(r.log_frames_in@[0] == frame@);
        }
        match frame.kind() {
            Some(Kind::Single) => {
                let len = frame.single_len();
                r.pending = frame.single_data();
                r.pos = 0;
                r.total = Ghost(len as int);
                r.log_received = Ghost(frame@.subrange(1, 1 + len as int));
                r.state = State::SingleTail;
                proof {
                    assert(r.log_received@.len() == len as int);
                    assert(r.log_delivered@ =~= r.log_received@.take(0));
                    assert(r.pending@.skip(0) =~= r.log_received@.skip(0));
                    assert(r.wf());
                }
            },
            Some(Kind::First) => {
                let len = frame.first_len();
                r.pending = frame.first_data();
                r.pos = 0;
                r.total = Ghost(len as int);
                r.log_received = Ghost(frame@.subrange(2, 8));
                r.state = State::Consecutive {
                    remaining_bytes: len - 6,
                    remaining_frames: 0,
                    next_sn: 1,
                    flushing_fc: false,
                    unbounded: false,
                };
                proof {
                    assert(r.log_received@.len() == 6);
                    assert(r.log_frames_in@.drop_first() =~= Seq::<Seq<u8>>::empty());
                    assert(spec_cons_payload(Seq::<Seq<u8>>::empty(), len as int - 6) =~= Seq::<
                        u8,
                    >::empty());
                    assert(r.log_received@ =~= r.log_frames_in@[0].subrange(2, 8)
                        + spec_cons_payload(r.log_frames_in@.drop_first(), r.total@ - 6));
                    assert(r.log_delivered@ =~= r.log_received@.take(0));
                    assert(r.pending@.skip(0) =~= r.log_received@.skip(0));
                    assert(0int * (block_len as int) == 0) by (nonlinear_arith);
                    assert(r.wf());
                }
            },
            _ => {
                assert(false);
            },
        }
        r
    }

    /// True once an error moved the reader to its failed state.
    pub fn is_failed(&self) -> (b: bool)
        ensures
            b == self.failed(),
    {
        match self.state {
            State::Failed => true,
            _ => false,
        }
    }

    /// Drain up to `buf.len()` bytes of the current message into the front
    /// of `buf`.
    ///
    /// A return of `Ready(Ok(0))` denotes end-of-message and repeats on
    /// every later call. `Pending` means the environment has to move first:
    /// the sink for a Flow Control frame, or the source for the next frame.
    /// Any `Err` is final.
    pub fn poll_read(&mut self, buf: &mut [u8]) -> (r: ReadPoll<
        <T as FrameSink>::Error,
        <R as FrameSource>::Error,
    >)
        requires
            old(self).wf(),
            !old(self).failed(),
            !old(self).aborting(),
            old(buf)@.len() >= 1,
        ensures
            Self::poll_transition(*old(self), *final(self), old(buf)@, final(buf)@, r),
    {
        let ghost pre = *self;
        // Bytes still owed from an earlier frame leave first; no further
        // inbound frame is consumed until they are gone.
        if self.pos < self.pending.len() {
            proof {
                if pre.state is Empty {
                    assert(false);
                }
            }
            let n = self.deliver_pending(buf);
            proof {
                lemma_not_done_while_pending(pre);
                assert(pre.delivered().is_prefix_of(self.delivered()));
                assert(pre.received().is_prefix_of(self.received()));
                assert(pre.frames_in().is_prefix_of(self.frames_in()));
            }
            return ReadPoll::Ready(Ok(n));
        }
        match self.state {
            State::Failed | State::Aborting { .. } => {
                // Excluded by the precondition.
                proof {
                    assert(false);
                }
                ReadPoll::Pending
            },
            State::SingleTail => {
                // The Single frame's payload was fully delivered.
                proof {
                    lemma_self_prefixes(pre);
                    assert(pre.log_received@.len() == pre.total@);
                    assert(self.delivered() =~= self.delivered() + buf@.take(0));
                }
                ReadPoll::Ready(Ok(0))
            },
            State::Empty => self.read_opening(buf),
            State::Consecutive {
                remaining_bytes,
                remaining_frames,
                next_sn,
                flushing_fc,
                unbounded,
            } => {
                if remaining_bytes == 0 {
                    // Every announced byte was received and delivered.
                    proof {
                        lemma_self_prefixes(pre);
                        assert(self.delivered() =~= self.delivered() + buf@.take(0));
                    }
                    ReadPoll::Ready(Ok(0))
                } else {
                    self.read_next(
                        buf,
                        remaining_bytes,
                        remaining_frames,
                        next_sn,
                        flushing_fc,
                        unbounded,
                    )
                }
            },
        }
    }

    /// Tell the remote sender to stop the message: a two-phase
    /// FlowControl(Abort, 0, 0), submitted once the sink is ready, then
    /// flushed. The reader stops reading at the first call; once the frame
    /// went out it is failed and refuses further use.
    pub fn poll_abort(&mut self) -> (r: FcPoll<
        <T as FrameSink>::Error,
        <R as FrameSource>::Error,
    >)
        requires
            old(self).wf(),
            !old(self).failed(),
        ensures
            final(self).wf(),
            final(self).delivered() == old(self).delivered(),
            final(self).received() == old(self).received(),
            final(self).frames_in() == old(self).frames_in(),
            final(self).fc_frames() == old(self).fc_frames() || final(self).fc_frames() == old(
                self,
            ).fc_frames().push(spec_flow(FlowKind::Abort, 0, 0)),
            match r {
                FcPoll::Pending => !final(self).failed() && final(self).aborting(),
                FcPoll::Ready(res) => match res {
                    Ok(_) => final(self).failed(),
                    Err(e) => final(self).failed() && e is Transmit,
                },
            },
    {
        let submitted = match self.state {
            State::Aborting { submitted } => submitted,
            _ => false,
        };
        if !submitted {
            self.state = State::Aborting { submitted: false };
            match self.socket.tx.poll_ready() {
                SinkPoll::Pending => {
                    return FcPoll::Pending;
                },
                SinkPoll::Failed(e) => {
                    self.state = State::Failed;
                    return FcPoll::Ready(Err(Error::Transmit(e)));
                },
                SinkPoll::Ready => {},
            }
            let fc = Frame::flow(FlowKind::Abort, 0, 0);
            match self.socket.tx.submit(fc) {
                Err(e) => {
                    self.state = State::Failed;
                    return FcPoll::Ready(Err(Error::Transmit(e)));
                },
                Ok(_) => {},
            }
            self.log_fc = Ghost(self.log_fc@.push(fc@));
            self.state = State::Aborting { submitted: true };
        }
        match self.socket.tx.poll_flush() {
            SinkPoll::Pending => {
                return FcPoll::Pending;
            },
            SinkPoll::Failed(e) => {
                self.state = State::Failed;
                return FcPoll::Ready(Err(Error::Transmit(e)));
            },
            SinkPoll::Ready => {},
        }
        self.state = State::Failed;
        FcPoll::Ready(Ok(()))
    }

    /// Consume the opening frame of a fresh reader and deliver what it
    /// brought.
    fn read_opening(&mut self, buf: &mut [u8]) -> (r: ReadPoll<
        <T as FrameSink>::Error,
        <R as FrameSource>::Error,
    >)
        requires
            old(self).wf(),
            old(self).state is Empty,
            old(buf)@.len() >= 1,
        ensures
            Self::poll_transition(*old(self), *final(self), old(buf)@, final(buf)@, r),
    {
        let ghost pre = *self;
        proof {
            lemma_self_prefixes(pre);
        }
        let f = match self.socket.rx.poll_next() {
            SourcePoll::Pending => {
                return ReadPoll::Pending;
            },
            SourcePoll::Ended => {
                self.state = State::Failed;
                return ReadPoll::Ready(Err(Error::UnexpectedEof));
            },
            SourcePoll::Failed(e) => {
                self.state = State::Failed;
                return ReadPoll::Ready(Err(Error::Receive(e)));
            },
            SourcePoll::Frame(f) => f,
        };
        self.log_frames_in = Ghost(self.log_frames_in@.push(f@));
        proof {
            assert(pre.frames_in().is_prefix_of(self.frames_in()));
            assert(self.log_frames_in@.last() == f@);
        }
        match f.kind() {
            None => {
                self.state = State::Failed;
                ReadPoll::Ready(Err(Error::UnknownFrameKind))
            },
            Some(Kind::Single) => {
                let len = f.single_len();
                if len == 0 || len > 7 {
                    // A Single frame carries 1 to 7 payload bytes.
                    self.state = State::Failed;
                    return ReadPoll::Ready(Err(Error::InvalidFrame));
                }
                let data = f.single_data();
                self.pending = data;
                self.pos = 0;
                self.total = Ghost(len as int);
                self.log_received = Ghost(f@.subrange(1, 1 + len as int));
                self.state = State::SingleTail;
                proof {
                    assert(self.log_received@.len() == len as int);
                    assert(self.log_delivered@ =~= self.log_received@.take(0));
                    assert(self.pending@.skip(0) =~= self.log_received@.skip(0));
                    assert(self.wf());
                }
                let n = self.deliver_pending(buf);
                proof {
                    assert(self.consumed_ok(pre));
                    if n == 0 {
                        assert(self.done());
                    }
                }
                ReadPoll::Ready(Ok(n))
            },
            Some(Kind::First) => {
                let len = f.first_len();
                if len < 8 {
                    self.state = State::Failed;
                    return ReadPoll::Ready(Err(Error::InvalidFrame));
                }
                let data = f.first_data();
                self.pending = data;
                self.pos = 0;
                self.total = Ghost(len as int);
                self.log_received = Ghost(f@.subrange(2, 8));
                self.state = State::Consecutive {
                    remaining_bytes: len - 6,
                    remaining_frames: 0,
                    next_sn: 1,
                    flushing_fc: false,
                    unbounded: false,
                };
                proof {
                    assert(self.log_received@.len() == 6);
                    assert(self.log_frames_in@.drop_first() =~= Seq::<Seq<u8>>::empty());
                    assert(spec_cons_payload(Seq::<Seq<u8>>::empty(), len as int - 6) =~= Seq::<
                        u8,
                    >::empty());
                    assert(self.log_received@ =~= self.log_frames_in@[0].subrange(2, 8)
                        + spec_cons_payload(self.log_frames_in@.drop_first(), self.total@ - 6));
                    assert(self.log_delivered@ =~= self.log_received@.take(0));
                    assert(self.pending@.skip(0) =~= self.log_received@.skip(0));
                    assert(self.wf());
                }
                let n = self.deliver_pending(buf);
                proof {
                    assert(self.consumed_ok(pre));
                    assert(n >= 1);
                }
                ReadPoll::Ready(Ok(n))
            },
            Some(_) => {
                self.state = State::Failed;
                ReadPoll::Ready(Err(Error::InvalidFrame))
            },
        }
    }

    /// Mid-message step: send a Flow Control frame if a new block is due,
    /// then consume the next Consecutive frame and deliver what it brought.
    #[verifier::rlimit(60)]
    fn read_next(
        &mut self,
        buf: &mut [u8],
        remaining_bytes: u16,
        remaining_frames: u8,
        next_sn: u8,
        flushing_fc: bool,
        unbounded: bool,
    ) -> (r: ReadPoll<<T as FrameSink>::Error, <R as FrameSource>::Error>)
        requires
            old(self).wf(),
            old(self).state == (State::Consecutive {
                remaining_bytes,
                remaining_frames,
                next_sn,
                flushing_fc,
                unbounded,
            }),
            remaining_bytes > 0,
            old(self).pos == old(self).pending@.len(),
            old(buf)@.len() >= 1,
        ensures
            Self::poll_transition(*old(self), *final(self), old(buf)@, final(buf)@, r),
    {
        let ghost pre = *self;
        proof {
            lemma_self_prefixes(pre);
            assert(pre.log_delivered@.len() == pre.log_received@.len());
            assert(!pre.done());
        }
        let mut rem = remaining_frames;
        let mut unb = unbounded;
        if rem == 0 && !unb {
            // A new block is due: announce it with FlowControl(Continue).
            if !flushing_fc {
                match self.socket.tx.poll_ready() {
                    SinkPoll::Pending => {
                        return ReadPoll::Pending;
                    },
                    SinkPoll::Failed(e) => {
                        self.state = State::Failed;
                        return ReadPoll::Ready(Err(Error::Transmit(e)));
                    },
                    SinkPoll::Ready => {},
                }
                let fc = Frame::flow(FlowKind::Continue, self.block_len, self.st);
                match self.socket.tx.submit(fc) {
                    Err(e) => {
                        self.state = State::Failed;
                        return ReadPoll::Ready(Err(Error::Transmit(e)));
                    },
                    Ok(_) => {},
                }
                self.log_fc = Ghost(self.log_fc@.push(fc@));
                self.state = State::Consecutive {
                    remaining_bytes,
                    remaining_frames: rem,
                    next_sn,
                    flushing_fc: true,
                    unbounded: unb,
                };
            }
            match self.socket.tx.poll_flush() {
                SinkPoll::Pending => {
                    self.state = State::Consecutive {
                        remaining_bytes,
                        remaining_frames: rem,
                        next_sn,
                        flushing_fc: true,
                        unbounded: unb,
                    };
                    return ReadPoll::Pending;
                },
                SinkPoll::Failed(e) => {
                    self.state = State::Failed;
                    return ReadPoll::Ready(Err(Error::Transmit(e)));
                },
                SinkPoll::Ready => {},
            }
            // The whole announced block may now arrive; block size 0 asks
            // for the rest of the message with no further Flow Control.
            rem = self.block_len;
            unb = self.block_len == 0;
            self.state = State::Consecutive {
                remaining_bytes,
                remaining_frames: rem,
                next_sn,
                flushing_fc: false,
                unbounded: unb,
            };
            proof {
                let fc = self.log_fc@.len() as int;
                let b = self.block_len as int;
                assert(fc * b == (fc - 1) * b + b) by (nonlinear_arith);
                assert(self.wf());
            }
        }
        let ghost mid = *self;
        proof {
            assert(mid.wf());
        }
        let f = match self.socket.rx.poll_next() {
            SourcePoll::Pending => {
                return ReadPoll::Pending;
            },
            SourcePoll::Ended => {
                self.state = State::Failed;
                return ReadPoll::Ready(Err(Error::UnexpectedEof));
            },
            SourcePoll::Failed(e) => {
                self.state = State::Failed;
                return ReadPoll::Ready(Err(Error::Receive(e)));
            },
            SourcePoll::Frame(f) => f,
        };
        self.log_frames_in = Ghost(self.log_frames_in@.push(f@));
        proof {
            assert(pre.frames_in().is_prefix_of(self.frames_in()));
            assert(self.log_frames_in@.last() == f@);
        }
        match f.kind() {
            None => {
                self.state = State::Failed;
                return ReadPoll::Ready(Err(Error::UnknownFrameKind));
            },
            Some(Kind::Consecutive) => {},
            Some(_) => {
                self.state = State::Failed;
                return ReadPoll::Ready(Err(Error::InvalidFrame));
            },
        }
        let mut data = f.consecutive_data();
        let take: usize = if remaining_bytes < 7 {
            remaining_bytes as usize
        } else {
            7
        };
        data.truncate(take);
        let new_rem = if unb {
            rem
        } else {
            rem - 1
        };
        let new_sn = (next_sn + 1) % 16;
        self.pending = data;
        self.pos = 0;
        self.log_received = Ghost(self.log_received@ + f@.subrange(1, 1 + take as int));
        self.state = State::Consecutive {
            remaining_bytes: remaining_bytes - take as u16,
            remaining_frames: new_rem,
            next_sn: new_sn,
            flushing_fc: false,
            unbounded: unb,
        };
        proof {
            let frames_old = pre.log_frames_in@;
            let cons_old = frames_old.drop_first();
            let total = pre.total@;
            assert forall|i: int| 0 <= i < cons_old.len() implies (#[trigger] cons_old[i]).len()
                == 8 by {
                assert(cons_old[i] == frames_old[i + 1]);
            }
            lemma_cons_payload_len(cons_old, total - 6);
            lemma_cons_payload_push(cons_old, total - 6, f@);
            assert(self.log_frames_in@.drop_first() =~= cons_old.push(f@));
            assert(pre.log_received@.len() - 6 == spec_cons_payload(cons_old, total - 6).len());
            let outstanding = (total - 6) - spec_cons_payload(cons_old, total - 6).len();
            assert(outstanding == remaining_bytes);
            assert(spec_min(7, outstanding) == take as int);
            assert(self.pending@ =~= f@.subrange(1, 1 + take as int));
            assert(f@.subrange(1, 1 + take as int).len() == take as int);
            assert(self.log_received@ =~= self.log_frames_in@[0].subrange(2, 8)
                + spec_cons_payload(self.log_frames_in@.drop_first(), total - 6));
            assert(pre.log_delivered@.len() == pre.log_received@.len());
            assert(self.log_delivered@ =~= self.log_received@.take(
                self.log_delivered@.len() as int,
            ));
            assert(self.pending@.skip(0) =~= self.log_received@.skip(
                self.log_delivered@.len() as int,
            ));
            assert(self.log_frames_in@.len() == frames_old.len() + 1);
            assert(new_sn == self.log_frames_in@.len() % 16);
            assert forall|i: int|
                1 <= i < self.log_frames_in@.len() implies spec_kind(
                #[trigger] self.log_frames_in@[i],
            ) == Some(Kind::Consecutive) by {
                if i < frames_old.len() {
                    assert(self.log_frames_in@[i] == frames_old[i]);
                }
            }
            assert(self.log_fc@ == mid.log_fc@);
            assert(self.log_frames_in@.len() == mid.log_frames_in@.len() + 1);
            assert(self.wf());
        }
        let n = self.deliver_pending(buf);
        proof {
            assert(self.consumed_ok(pre));
            assert(n >= 1);
            assert(pre.received().is_prefix_of(self.received()));
        }
        ReadPoll::Ready(Ok(n))
    }

    /// Hand the caller as much of the undelivered `pending` suffix as the
    /// buffer permits.
    fn deliver_pending(&mut self, buf: &mut [u8]) -> (n: usize)
        requires
            old(self).wf(),
            !old(self).failed(),
            !old(self).aborting(),
            !(old(self).state is Empty),
            old(buf)@.len() >= 1,
        ensures
            final(self).wf(),
            final(self).state == old(self).state,
            final(self).block_size() == old(self).block_size(),
            final(self).sep_time() == old(self).sep_time(),
            final(self).frames_in() == old(self).frames_in(),
            final(self).received() == old(self).received(),
            final(self).fc_frames() == old(self).fc_frames(),
            final(self).announced() == old(self).announced(),
            n as int == spec_min(
                old(buf)@.len() as int,
                old(self).received().len() - old(self).delivered().len(),
            ),
            final(buf)@.len() == old(buf)@.len(),
            final(buf)@.skip(n as int) == old(buf)@.skip(n as int),
            final(self).delivered() == old(self).delivered() + final(buf)@.take(n as int),
            final(self).delivered() == final(self).received().take(
                final(self).delivered().len() as int,
            ),
    {
        let ghost pre = *self;
        proof {
            match pre.state {
                State::Empty => {
                    assert(false);
                },
                State::Aborting { .. } => {
                    assert(false);
                },
                State::Failed => {
                    assert(false);
                },
                State::SingleTail => {
                    assert(pre.pending_ok());
                },
                State::Consecutive { .. } => {
                    assert(pre.pending_ok());
                },
            }
        }
        let n = copy_from(&self.pending, self.pos, buf);
        let limit = self.pending.len();
        proof {
            assert(self.pos + n <= limit);
        }
        self.pos = self.pos + n;
        self.log_delivered = Ghost(
            self.log_delivered@ + self.pending@.subrange(pre.pos as int, pre.pos + n),
        );
        proof {
            let d = pre.log_delivered@.len() as int;
            assert(pre.pending@.skip(pre.pos as int) == pre.log_received@.skip(d));
            assert(pre.pending@.subrange(pre.pos as int, pre.pos + n) =~= pre.log_received@
                .subrange(d, d + n)) by {
                assert forall|j: int|
                    0 <= j < n implies #[trigger] pre.pending@.subrange(
                    pre.pos as int,
                    pre.pos + n,
                )[j] == pre.log_received@.subrange(d, d + n)[j] by {
                    assert(pre.pending@.skip(pre.pos as int)[j] == pre.log_received@.skip(d)[j]);
                }
            }
            assert(buf@.take(n as int) =~= pre.pending@.subrange(pre.pos as int, pre.pos + n));
            assert(self.log_delivered@ =~= pre.log_received@.take(d + n)) by {
                assert(pre.log_delivered@ == pre.log_received@.take(d));
            }
            assert(self.pending@.skip(self.pos as int) =~= pre.log_received@.skip(d + n)) by {
                assert forall|j: int|
                    0 <= j < self.pending@.len() - self.pos implies #[trigger] self.pending@.skip(
                    self.pos as int,
                )[j] == pre.log_received@.skip(d + n)[j] by {
                    assert(pre.pending@.skip(pre.pos as int)[j + n] == pre.log_received@.skip(d)[j
                        + n]);
                }
            }
            assert(self.state == pre.state);
            match pre.state {
                State::Empty => {
                    assert(false);
                },
                State::Aborting { .. } => {
                    assert(false);
                },
                State::Failed => {
                    assert(false);
                },
                State::SingleTail => {
                    assert(self.wf());
                },
                State::Consecutive { .. } => {
                    assert(self.wf());
                },
            }
        }
        n
    }
}

/// Copy as much of `src[start..]` as fits into the front of `buf`.
fn copy_from(src: &Vec<u8>, start: usize, buf: &mut [u8]) -> (n: usize)
    requires
        start <= src@.len(),
    ensures
        n as int == spec_min(old(buf)@.len() as int, src@.len() - start),
        final(buf)@.len() == old(buf)@.len(),
        final(buf)@.take(n as int) == src@.subrange(start as int, start + n),
        final(buf)@.skip(n as int) == old(buf)@.skip(n as int),
{
    let ghost buf0 = buf@;
    let avail = src.len() - start;
    let n: usize = if buf.len() < avail {
        buf.len()
    } else {
        avail
    };
    let mut i: usize = 0;
    while i < n
        invariant
            start + n <= src@.len(),
            src@.len() <= usize::MAX,
            n <= buf@.len(),
            i <= n,
            buf@.len() == buf0.len(),
            forall|j: int| 0 <= j < i ==> buf@[j] == src@[start + j],
            forall|j: int| i <= j < buf@.len() ==> buf@[j] == buf0[j],
        decreases n - i,
    {
        buf[i] = src[start + i];
        i += 1;
    }
    proof {
        assert(buf@.take(n as int) =~= src@.subrange(start as int, start + n));
        assert(buf@.skip(n as int) =~= buf0.skip(n as int));
    }
    n
}

/// A sequence is a prefix of itself, and the reader's logs are prefixes of
/// themselves across a call that leaves them unchanged.
proof fn lemma_self_prefixes<T, R>(r: Reader<T, R>)
    ensures
        r.delivered().is_prefix_of(r.delivered()),
        r.received().is_prefix_of(r.received()),
        r.frames_in().is_prefix_of(r.frames_in()),
{
    assert(r.delivered().take(r.delivered().len() as int) =~= r.delivered());
    assert(r.received().take(r.received().len() as int) =~= r.received());
    assert(r.frames_in().take(r.frames_in().len() as int) =~= r.frames_in());
}

/// While received bytes await delivery the message cannot be complete.
proof fn lemma_not_done_while_pending<T, R>(r: Reader<T, R>)
    requires
        r.wf(),
        !r.failed(),
        !r.aborting(),
        r.pos < r.pending@.len(),
    ensures
        !r.done(),
{
    match r.state {
        State::Empty => {
            assert(false);
        },
        State::SingleTail => {},
        State::Consecutive { .. } => {},
        State::Aborting { .. } => {
            assert(false);
        },
        State::Failed => {},
    }
}

/// A reader never hands out more than it received, and never receives more
/// than the opening frame announced.
pub proof fn lemma_reader_never_over_delivers<T, R>(r: Reader<T, R>)
    requires
        r.wf(),
        !r.failed(),
        !r.aborting(),
        r.started(),
    ensures
        r.delivered().len() <= r.received().len(),
        r.received().len() <= r.announced(),
{
    match r.state {
        State::Empty => {
            assert(false);
        },
        State::SingleTail => {},
        State::Consecutive { .. } => {},
        State::Aborting { .. } => {
            assert(false);
        },
        State::Failed => {
            assert(false);
        },
    }
}

/// At most one of the reader's transitional or terminal stages holds, and
/// a message in progress implies a started, still-running reader.
pub proof fn lemma_reader_stage_exclusive<T, R>(r: Reader<T, R>)
    requires
        r.wf(),
    ensures
        (if r.in_message() {
            1int
        } else {
            0int
        }) + (if r.aborting() {
            1int
        } else {
            0int
        }) + (if r.failed() {
            1int
        } else {
            0int
        }) <= 1,
        r.in_message() ==> r.started() && !r.failed() && !r.aborting(),
        r.done() ==> r.started(),
{
    match r.state {
        State::Empty => {},
        State::SingleTail => {},
        State::Consecutive { .. } => {},
        State::Aborting { .. } => {},
        State::Failed => {},
    }
}

/// The reader's flow-control cadence: grants cover consumption exactly.
/// With block size 0 at most one Continue ever goes out; otherwise the
/// flushed Continues times the block size equal the consumed Consecutive
/// frames plus what the current block still admits — so a Continue is due
/// exactly when a block runs out, and each flush refills the block.
pub proof fn lemma_reader_flow_control_cadence<T, R>(r: Reader<T, R>)
    requires
        r.wf(),
        !r.failed(),
        r.in_message(),
    ensures
        r.unbounded_block() ==> r.block_size() == 0 && r.fc_frames().len() == 1,
        !r.unbounded_block() ==> (r.fc_frames().len() as int - (if r.fc_pending() {
            1int
        } else {
            0int
        })) * r.block_size() == (r.frames_in().len() as int - 1) + r.block_left(),
        r.block_size() == 0 ==> r.fc_frames().len() <= 1,
{
    match r.state {
        State::Consecutive { .. } => {},
        _ => {
            assert(false);
        },
    }
}

/// A completed reader whose one consumed frame was the Single frame of
/// `data` handed out exactly `data`.
pub proof fn lemma_reader_reads_single<T, R>(r: Reader<T, R>, data: Seq<u8>)
    requires
        r.wf(),
        !r.failed(),
        !r.aborting(),
        r.done(),
        data.len() <= 7,
        r.frames_in() == seq![spec_single(data)],
    ensures
        r.delivered() == data,
{
    lemma_single_round_trip(data);
    match r.state {
        State::Empty => {
            assert(false);
        },
        State::Aborting { .. } => {
            assert(false);
        },
        State::SingleTail => {
            assert(r.log_frames_in@[0] == spec_single(data));
            assert(r.received() == data);
            assert(r.delivered() =~= r.received());
        },
        State::Consecutive { .. } => {
            assert(r.log_frames_in@[0] == spec_single(data));
            assert(spec_kind(spec_single(data)) == Some(Kind::Single));
            assert(false);
        },
        State::Failed => {
            assert(false);
        },
    }
}

/// A completed reader that consumed exactly the frame sequence of the
/// multi-frame message `msg` handed out exactly `msg`: the read side of the
/// write-then-read round trip.
pub proof fn lemma_reader_reassembles<T, R>(r: Reader<T, R>, msg: Seq<u8>)
    requires
        r.wf(),
        !r.failed(),
        !r.aborting(),
        r.done(),
        8 <= msg.len() <= 4095,
        r.frames_in() == spec_message_frames(msg),
    ensures
        r.delivered() == msg,
{
    lemma_first_round_trip(msg);
    lemma_message_frame_count(msg);
    lemma_multi_frame_round_trip(msg);
    assert(spec_message_frames(msg).len() >= 1);
    assert(r.frames_in()[0] == spec_first(msg));
    match r.state {
        State::Empty => {
            assert(false);
        },
        State::Aborting { .. } => {
            assert(false);
        },
        State::SingleTail => {
            assert(spec_kind(spec_first(msg)) == Some(Kind::First));
            assert(false);
        },
        State::Consecutive { .. } => {
            assert(r.announced() == msg.len());
            assert(r.received() == spec_multi_payload(r.frames_in()));
            assert(r.received() == msg);
            assert(r.delivered() =~= r.received());
        },
        State::Failed => {
            assert(false);
        },
    }
}

/// Writing a message and reading the emitted frame stream back yields the
/// message byte for byte: the write-then-read round trip for multi-frame
/// messages.
pub proof fn lemma_transfer_round_trip<TW, RW, DW, TR, RR>(
    w: Writer<TW, RW, DW>,
    r: Reader<TR, RR>,
)
    requires
        w.wf(),
        w.finished(),
        w.taken().len() >= 8,
        r.wf(),
        !r.failed(),
        !r.aborting(),
        r.done(),
        r.frames_in() == w.frames_out(),
    ensures
        r.delivered() == w.taken(),
{
    lemma_writer_emits_message(w);
    lemma_reader_reassembles(r, w.taken());
}

/// The write-then-read round trip for single-frame messages.
pub proof fn lemma_single_transfer_round_trip<TW, RW, DW, TR, RR>(
    w: Writer<TW, RW, DW>,
    r: Reader<TR, RR>,
)
    requires
        w.wf(),
        w.finished(),
        w.taken().len() <= 7,
        r.wf(),
        !r.failed(),
        !r.aborting(),
        r.done(),
        r.frames_in() == w.frames_out(),
    ensures
        r.delivered() == w.taken(),
{
    lemma_writer_emits_single(w);
    lemma_reader_reads_single(r, w.taken());
}

} // verus!
