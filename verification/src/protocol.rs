//! Wire-level model of a whole message transfer.
//!
//! [`spec_message_frames`] gives the exact frame sequence a conforming sender
//! emits for a multi-frame message, and [`spec_multi_payload`] gives the bytes
//! a conforming receiver reassembles from such a sequence. The public lemmas
//! relate the two: encoding round-trips, the frame count, and the sequence
//! numbers.

use vstd::prelude::*;

use crate::frame::FlowKind;
use crate::frame::Kind;
use crate::frame::spec_consecutive;
use crate::frame::spec_first;
use crate::frame::spec_first_len;
use crate::frame::spec_flow;
use crate::frame::spec_flow_kind;
use crate::frame::spec_flow_value;
use crate::frame::spec_kind;
use crate::frame::spec_single;
use crate::frame::spec_single_len;
use crate::frame::spec_sn;

verus! {

/// The smaller of two integers.
pub open spec fn spec_min(a: int, b: int) -> int {
    if a < b {
        a
    } else {
        b
    }
}

/// Number of Consecutive frames that follow the First frame of a message of
/// `len` bytes: the ceiling of `(len - 6) / 7`, each frame carrying up to 7
/// of the `len - 6` bytes left after the First frame.
pub open spec fn spec_consecutive_count(len: int) -> int {
    ((len - 6) + 6) / 7
}

/// The payload bytes carried by the `i`-th Consecutive frame (counting from
/// 0) of the message `msg`.
pub open spec fn spec_chunk(msg: Seq<u8>, i: int) -> Seq<u8> {
    if 6 + 7 * i + 7 <= msg.len() {
        msg.subrange(6 + 7 * i, 6 + 7 * i + 7)
    } else {
        msg.subrange(6 + 7 * i, msg.len() as int)
    }
}

/// Sequence number of the `i`-th Consecutive frame (counting from 0): SN
/// starts at 1 after the First frame and wraps modulo 16.
pub open spec fn spec_sn_of(i: int) -> u8 {
    ((i + 1) % 16) as u8
}

/// The exact frame sequence of a multi-frame transfer of `msg`: one First
/// frame, then one Consecutive frame per chunk.
pub open spec fn spec_message_frames(msg: Seq<u8>) -> Seq<Seq<u8>>
    recommends
        8 <= msg.len() <= 4095,
{
    Seq::new((1 + spec_consecutive_count(msg.len() as int)) as nat, |i: int|
        if i == 0 {
            spec_first(msg)
        } else {
            spec_consecutive(spec_sn_of(i - 1), spec_chunk(msg, i - 1))
        })
}

/// Bytes a receiver takes out of a sequence of Consecutive frames while
/// `remaining` payload bytes are outstanding: up to 7 data bytes per frame,
/// truncated to what is still owed.
pub open spec fn spec_cons_payload(frames: Seq<Seq<u8>>, remaining: int) -> Seq<u8>
    decreases frames.len(),
{
    if frames.len() == 0 || remaining <= 0 {
        Seq::<u8>::empty()
    } else {
        let take = if remaining < 7 {
            remaining
        } else {
            7
        };
        frames[0].subrange(1, 1 + take) + spec_cons_payload(frames.drop_first(), remaining - take)
    }
}

/// How many bytes [`spec_cons_payload`] takes out of `frames`: 7 per frame
/// until the outstanding count is exhausted.
pub proof fn lemma_cons_payload_len(frames: Seq<Seq<u8>>, remaining: int)
    requires
        remaining >= 0,
        forall|i: int| 0 <= i < frames.len() ==> (#[trigger] frames[i]).len() == 8,
    ensures
        spec_cons_payload(frames, remaining).len() == spec_min(remaining, 7 * frames.len() as int),
    decreases frames.len(),
{
    if frames.len() == 0 || remaining <= 0 {
    } else {
        let take = if remaining < 7 {
            remaining
        } else {
            7
        };
        assert(frames[0].subrange(1, 1 + take).len() == take);
        assert(forall|i: int|
            0 <= i < frames.drop_first().len() ==> (#[trigger] frames.drop_first()[i]).len() == 8);
        lemma_cons_payload_len(frames.drop_first(), remaining - take);
    }
}

/// Appending one more Consecutive frame extends the reassembled payload by
/// that frame's data, truncated to the bytes still outstanding.
pub proof fn lemma_cons_payload_push(frames: Seq<Seq<u8>>, remaining: int, f: Seq<u8>)
    requires
        remaining >= 0,
        forall|i: int| 0 <= i < frames.len() ==> (#[trigger] frames[i]).len() == 8,
        f.len() == 8,
    ensures
        spec_cons_payload(frames.push(f), remaining) == spec_cons_payload(frames, remaining) + ({
            let outstanding = remaining - spec_cons_payload(frames, remaining).len();
            if outstanding > 0 {
                f.subrange(1, 1 + spec_min(7, outstanding))
            } else {
                Seq::<u8>::empty()
            }
        }),
    decreases frames.len(),
{
    lemma_cons_payload_len(frames, remaining);
    if frames.len() == 0 {
        if remaining <= 0 {
            assert(spec_cons_payload(frames.push(f), remaining) =~= Seq::<u8>::empty());
            assert(spec_cons_payload(frames, remaining) + Seq::<u8>::empty() =~= Seq::<
                u8,
            >::empty());
        } else {
            let take = if remaining < 7 {
                remaining
            } else {
                7
            };
            assert(frames.push(f)[0] == f);
            assert(frames.push(f).drop_first() =~= Seq::<Seq<u8>>::empty());
            assert(spec_cons_payload(Seq::<Seq<u8>>::empty(), remaining - take) =~= Seq::<
                u8,
            >::empty());
            assert(spec_cons_payload(frames.push(f), remaining) =~= f.subrange(1, 1 + take));
            assert(spec_cons_payload(frames, remaining) + f.subrange(1, 1 + take) =~= f.subrange(
                1,
                1 + take,
            ));
        }
    } else {
        let take = if remaining < 7 {
            remaining
        } else {
            7
        };
        assert(frames.push(f)[0] == frames[0]);
        assert(frames.push(f).drop_first() =~= frames.drop_first().push(f));
        assert(forall|i: int|
            0 <= i < frames.drop_first().len() ==> (#[trigger] frames.drop_first()[i]).len() == 8);
        lemma_cons_payload_push(frames.drop_first(), remaining - take, f);
        lemma_cons_payload_len(frames.drop_first(), remaining - take);
        let head = frames[0].subrange(1, 1 + take);
        let tail_pre = spec_cons_payload(frames.drop_first(), remaining - take);
        let whole_pre = spec_cons_payload(frames, remaining);
        assert(whole_pre == head + tail_pre);
        let outstanding = remaining - whole_pre.len();
        assert(head.len() == take);
        assert(outstanding == (remaining - take) - tail_pre.len());
        if outstanding > 0 {
            assert(head + (tail_pre + f.subrange(1, 1 + spec_min(7, outstanding))) =~= (head
                + tail_pre) + f.subrange(1, 1 + spec_min(7, outstanding)));
        } else {
            assert(head + (tail_pre + Seq::<u8>::empty()) =~= (head + tail_pre) + Seq::<
                u8,
            >::empty());
        }
    }
}

/// Bytes a receiver reassembles from a First frame followed by Consecutive
/// frames: the six bytes of the First frame, then the announced remainder.
pub open spec fn spec_multi_payload(frames: Seq<Seq<u8>>) -> Seq<u8>
    recommends
        frames.len() > 0,
{
    frames[0].subrange(2, 8) + spec_cons_payload(frames.drop_first(), spec_first_len(frames[0]) - 6)
}

/// Encoding a Single frame and decoding it again yields the payload
/// unchanged, for every payload of at most 7 bytes.
pub proof fn lemma_single_round_trip(data: Seq<u8>)
    requires
        data.len() <= 7,
    ensures
        spec_kind(spec_single(data)) == Some(Kind::Single),
        spec_single_len(spec_single(data)) == data.len(),
        spec_single(data).subrange(1, 1 + data.len() as int) == data,
{
    let b = spec_single(data);
    assert(b[0] == data.len() as u8);
    assert(b.subrange(1, 1 + data.len() as int) =~= data);
}

/// The First frame of `msg` decodes as a First frame announcing exactly
/// `msg.len()` bytes and carrying the first six of them.
pub proof fn lemma_first_round_trip(msg: Seq<u8>)
    requires
        8 <= msg.len() <= 4095,
    ensures
        spec_kind(spec_first(msg)) == Some(Kind::First),
        spec_first_len(spec_first(msg)) == msg.len(),
        spec_first(msg).subrange(2, 8) == msg.subrange(0, 6),
{
    let b = spec_first(msg);
    let len = msg.len() as int;
    assert(0 <= len / 256 < 16);
    assert(b[0] == (16 + len / 256) as u8);
    assert(b[0] as int / 16 == 1);
    assert(b[0] as int % 16 == len / 256);
    assert(len / 256 * 256 + len % 256 == len);
    assert(spec_first_len(b) == len);
    assert(b.subrange(2, 8) =~= msg.subrange(0, 6));
}

/// A Consecutive frame decodes as Consecutive, carries its sequence number
/// in the low nibble, and its data bytes in positions 1 through 7.
pub proof fn lemma_consecutive_round_trip(sn: u8, chunk: Seq<u8>)
    requires
        sn < 16,
        chunk.len() <= 7,
    ensures
        spec_kind(spec_consecutive(sn, chunk)) == Some(Kind::Consecutive),
        spec_sn(spec_consecutive(sn, chunk)) == sn,
        spec_consecutive(sn, chunk).subrange(1, 1 + chunk.len() as int) == chunk,
{
    let b = spec_consecutive(sn, chunk);
    assert(b[0] == (32 + sn) as u8);
    assert(b[0] as int / 16 == 2);
    assert(b[0] as int % 16 == sn);
    assert(b.subrange(1, 1 + chunk.len() as int) =~= chunk);
}

/// A Flow Control frame decodes as Flow and returns the command, block size
/// and separation time it was built from.
pub proof fn lemma_flow_round_trip(kind: FlowKind, block_len: u8, st: u8)
    ensures
        spec_kind(spec_flow(kind, block_len, st)) == Some(Kind::Flow),
        spec_flow_kind(spec_flow(kind, block_len, st)) == Some(kind),
        spec_flow(kind, block_len, st)[1] == block_len,
        spec_flow(kind, block_len, st)[2] == st,
{
    let b = spec_flow(kind, block_len, st);
    assert(b[0] == (48 + spec_flow_value(kind)) as u8);
    assert(b[0] as int / 16 == 3);
}

/// The frame sequence of a multi-frame transfer holds exactly one First
/// frame followed by the ceiling of `(len - 6) / 7` Consecutive frames.
pub proof fn lemma_message_frame_count(msg: Seq<u8>)
    requires
        8 <= msg.len() <= 4095,
    ensures
        spec_message_frames(msg).len() == 1 + spec_consecutive_count(msg.len() as int),
        spec_kind(spec_message_frames(msg)[0]) == Some(Kind::First),
        forall|i: int|
            1 <= i < spec_message_frames(msg).len() ==> spec_kind(
                #[trigger] spec_message_frames(msg)[i],
            ) == Some(Kind::Consecutive),
{
    let frames = spec_message_frames(msg);
    let len = msg.len() as int;
    lemma_first_round_trip(msg);
    assert forall|i: int| 1 <= i < frames.len() implies spec_kind(#[trigger] frames[i])
        == Some(Kind::Consecutive) by {
        lemma_chunk_len(msg, i - 1);
        lemma_consecutive_round_trip(spec_sn_of(i - 1), spec_chunk(msg, i - 1));
    }
}

/// The sequence numbers of the Consecutive frames of a transfer run
/// 1, 2, ..., 15, 0, 1, ... : the `i`-th frame of the sequence carries
/// `i % 16`.
pub proof fn lemma_message_sn_sequence(msg: Seq<u8>)
    requires
        8 <= msg.len() <= 4095,
    ensures
        forall|i: int|
            1 <= i < spec_message_frames(msg).len() ==> spec_sn(
                #[trigger] spec_message_frames(msg)[i],
            ) == i % 16,
{
    let frames = spec_message_frames(msg);
    assert forall|i: int| 1 <= i < frames.len() implies spec_sn(#[trigger] frames[i]) == i % 16 by {
        lemma_chunk_len(msg, i - 1);
        lemma_consecutive_round_trip(spec_sn_of(i - 1), spec_chunk(msg, i - 1));
        assert(spec_sn_of(i - 1) == i % 16);
    }
}

/// Each chunk of a message is non-empty, at most 7 bytes, and exactly the
/// bytes still owed when fewer than 7 remain.
proof fn lemma_chunk_len(msg: Seq<u8>, i: int)
    requires
        8 <= msg.len() <= 4095,
        0 <= i < spec_consecutive_count(msg.len() as int),
    ensures
        1 <= spec_chunk(msg, i).len() <= 7,
        spec_chunk(msg, i).len() == if msg.len() - (6 + 7 * i) < 7 {
            msg.len() - (6 + 7 * i)
        } else {
            7
        },
        6 + 7 * i < msg.len(),
{
    let len = msg.len() as int;
    let count = spec_consecutive_count(len);
    assert(7 * i <= 7 * (count - 1)) by (nonlinear_arith)
        requires
            i <= count - 1,
    ;
    assert(7 * count < len + 7) by {
        assert(count == len / 7);
        assert(len / 7 * 7 + len % 7 == len);
    }
}

/// Reassembling the tail of the transfer from chunk `k` onward yields the
/// message bytes from position `6 + 7k` on.
proof fn lemma_tail_payload(msg: Seq<u8>, k: int)
    requires
        8 <= msg.len() <= 4095,
        0 <= k <= spec_consecutive_count(msg.len() as int),
    ensures
        spec_cons_payload(spec_tail_frames(msg, k), msg.len() - (6 + 7 * k)) == if 6 + 7 * k
            <= msg.len() {
            msg.subrange(6 + 7 * k, msg.len() as int)
        } else {
            Seq::<u8>::empty()
        },
    decreases spec_consecutive_count(msg.len() as int) - k,
{
    let len = msg.len() as int;
    let count = spec_consecutive_count(len);
    let frames = spec_tail_frames(msg, k);
    let remaining = len - (6 + 7 * k);
    if k == count {
        assert(frames.len() == 0);
        if remaining >= 0 {
            assert(remaining < 7) by {
                assert(count == len / 7);
                assert(len / 7 * 7 + len % 7 == len);
            }
            assert(remaining <= 0) by {
                assert(count == len / 7);
                assert(len / 7 * 7 + len % 7 == len);
            }
            assert(msg.subrange(6 + 7 * k, len) =~= Seq::<u8>::empty());
        }
    } else {
        lemma_chunk_len(msg, k);
        let chunk = spec_chunk(msg, k);
        let take = if remaining < 7 {
            remaining
        } else {
            7
        };
        assert(chunk.len() == take);
        assert(remaining > 0);
        lemma_consecutive_round_trip(spec_sn_of(k), chunk);
        assert(frames[0] == spec_consecutive(spec_sn_of(k), chunk));
        assert(frames[0].subrange(1, 1 + take) == chunk);
        assert(frames.drop_first() =~= spec_tail_frames(msg, k + 1));
        lemma_tail_payload(msg, k + 1);
        if 6 + 7 * (k + 1) <= len {
            assert(remaining - take == len - (6 + 7 * (k + 1)));
            assert(chunk + msg.subrange(6 + 7 * (k + 1), len) =~= msg.subrange(6 + 7 * k, len));
        } else {
            assert(take == remaining);
            assert(spec_cons_payload(frames.drop_first(), remaining - take) =~= Seq::<u8>::empty());
            assert(chunk + Seq::<u8>::empty() =~= msg.subrange(6 + 7 * k, len));
        }
    }
}

/// The Consecutive frames of the transfer of `msg`, from the `k`-th chunk on.
spec fn spec_tail_frames(msg: Seq<u8>, k: int) -> Seq<Seq<u8>> {
    Seq::new((spec_consecutive_count(msg.len() as int) - k) as nat, |i: int|
        spec_consecutive(spec_sn_of(k + i), spec_chunk(msg, k + i)))
}

/// Writing a multi-frame message and reading the resulting frame sequence
/// back yields the message byte for byte, for every message of 8 to 4095
/// bytes.
pub proof fn lemma_multi_frame_round_trip(msg: Seq<u8>)
    requires
        8 <= msg.len() <= 4095,
    ensures
        spec_multi_payload(spec_message_frames(msg)) == msg,
{
    let frames = spec_message_frames(msg);
    let len = msg.len() as int;
    lemma_first_round_trip(msg);
    assert(frames[0] == spec_first(msg));
    assert(frames.drop_first() =~= spec_tail_frames(msg, 0));
    lemma_tail_payload(msg, 0);
    assert(msg.subrange(0, 6) + msg.subrange(6, len) =~= msg);
}

/// Number of FlowControl(Wait) frames in a frame sequence.
pub open spec fn spec_wait_count(frames: Seq<Seq<u8>>) -> int
    decreases frames.len(),
{
    if frames.len() == 0 {
        0
    } else {
        spec_wait_count(frames.drop_last()) + (
        if spec_kind(frames.last()) == Some(Kind::Flow) && spec_flow_kind(frames.last()) == Some(
            FlowKind::Wait,
        ) {
            1int
        } else {
            0int
        })
    }
}

/// Appending a frame raises the Wait count by one exactly when the frame is
/// a FlowControl(Wait).
pub proof fn lemma_wait_count_push(frames: Seq<Seq<u8>>, f: Seq<u8>)
    ensures
        spec_wait_count(frames.push(f)) == spec_wait_count(frames) + (
        if spec_kind(f) == Some(Kind::Flow) && spec_flow_kind(f) == Some(FlowKind::Wait) {
            1int
        } else {
            0int
        }),
{
    assert(frames.push(f).drop_last() =~= frames);
    assert(frames.push(f).last() == f);
}

/// The wire image of a First frame announcing `total` bytes and carrying
/// `head` (the message's first six bytes).
pub open spec fn spec_first_image(total: int, head: Seq<u8>) -> Seq<u8>
    recommends
        8 <= total <= 4095,
        head.len() == 6,
{
    Seq::new(8, |i: int|
        if i == 0 {
            (16 + total / 256) as u8
        } else if i == 1 {
            (total % 256) as u8
        } else {
            head[i - 2]
        })
}

/// The frames a sender has emitted after consuming `taken` bytes of a
/// message announced as `total` bytes long: the First frame, then one
/// Consecutive frame per complete chunk of `taken`.
pub open spec fn spec_sent_frames(total: int, taken: Seq<u8>) -> Seq<Seq<u8>>
    recommends
        8 <= total <= 4095,
        6 <= taken.len() <= total,
{
    seq![spec_first_image(total, taken.take(6))] + Seq::new(
        spec_consecutive_count(taken.len() as int) as nat,
        |j: int| spec_consecutive(spec_sn_of(j), spec_chunk(taken, j)),
    )
}

/// The First frame of a whole message is the First frame image of its
/// length and first six bytes.
pub proof fn lemma_first_image(msg: Seq<u8>)
    requires
        8 <= msg.len() <= 4095,
    ensures
        spec_first(msg) == spec_first_image(msg.len() as int, msg.take(6)),
{
    assert(spec_first(msg) =~= spec_first_image(msg.len() as int, msg.take(6)));
}

/// Before any Consecutive frame went out, the sender has emitted exactly
/// the First frame.
pub proof fn lemma_sent_frames_start(total: int, taken: Seq<u8>)
    requires
        taken.len() == 6,
    ensures
        spec_sent_frames(total, taken) == seq![spec_first_image(total, taken)],
{
    assert(spec_consecutive_count(6) == 0);
    assert(taken.take(6) =~= taken);
    assert(spec_sent_frames(total, taken) =~~= seq![spec_first_image(total, taken)]);
}

/// Consuming the next chunk appends exactly one Consecutive frame carrying
/// it, with the next sequence number.
pub proof fn lemma_sent_frames_push(total: int, taken: Seq<u8>, chunk: Seq<u8>)
    requires
        8 <= total <= 4095,
        6 <= taken.len() < total,
        (taken.len() - 6) % 7 == 0,
        chunk.len() == spec_min(7, total - taken.len()),
    ensures
        spec_sent_frames(total, taken + chunk) == spec_sent_frames(total, taken).push(
            spec_consecutive(
                spec_sn_of(spec_consecutive_count(taken.len() as int)),
                chunk,
            ),
        ),
        spec_consecutive_count((taken + chunk).len() as int) == spec_consecutive_count(
            taken.len() as int,
        ) + 1,
{
    let len = taken.len() as int;
    let c = spec_consecutive_count(len);
    let t = chunk.len() as int;
    let grown = taken + chunk;
    assert(7 * c == len - 6) by {
        assert((len - 6) % 7 == 0);
        assert((len - 6) / 7 * 7 + (len - 6) % 7 == len - 6);
        assert(c == ((len - 6) + 6) / 7);
        assert(((len - 6) + 6) / 7 == (len - 6) / 7) by {
            let q = (len - 6) / 7;
            assert(len - 6 == 7 * q);
            assert((7 * q + 6) / 7 == q) by (nonlinear_arith)
                requires
                    q >= 0,
            ;
            assert((len - 6) / 7 == q);
        }
    }
    assert(1 <= t <= 7);
    assert(spec_consecutive_count(grown.len() as int) == c + 1) by {
        assert(grown.len() == len + t);
        assert((len + t - 6 + 6) / 7 == (7 * c + 6 + t) / 7);
        assert((7 * c + 6 + t) / 7 == c + 1) by (nonlinear_arith)
            requires
                c >= 0,
                1 <= t <= 7,
        ;
    }
    assert(grown.take(6) =~= taken.take(6));
    assert forall|j: int| 0 <= j < c implies spec_chunk(grown, j) =~= spec_chunk(taken, j) by {
        assert(6 + 7 * j + 7 <= len) by (nonlinear_arith)
            requires
                j < c,
                7 * c == len - 6,
        ;
        assert forall|k: int|
            6 + 7 * j <= k < 6 + 7 * j + 7 implies grown[k] == taken[k] by {}
    }
    assert(spec_chunk(grown, c) =~= chunk) by {
        assert(6 + 7 * c == len);
        assert forall|k: int| 0 <= k < t implies grown[len + k] == chunk[k] by {}
    }
    assert(spec_sent_frames(total, grown) =~~= spec_sent_frames(total, taken).push(
        spec_consecutive(spec_sn_of(c), chunk),
    ));
}

/// Once every byte of the message went out, the emitted frames are exactly
/// the message's frame sequence.
pub proof fn lemma_sent_frames_complete(total: int, taken: Seq<u8>)
    requires
        8 <= total <= 4095,
        taken.len() == total,
    ensures
        spec_sent_frames(total, taken) == spec_message_frames(taken),
{
    assert(spec_first(taken) =~= spec_first_image(total, taken.take(6)));
    assert(spec_sent_frames(total, taken) =~~= spec_message_frames(taken));
}

} // verus!
