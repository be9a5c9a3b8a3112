use std::cell::RefCell;
use std::rc::Rc;

use iso_tp::channel::{Delay, FrameSink, FrameSource, SinkPoll, SourcePoll};
use iso_tp::frame::{FlowKind, Frame};
use iso_tp::socket::Socket;
use iso_tp::writer::{Error, WritePoll, Writer};

struct MockSink {
    sent: Rc<RefCell<Vec<Frame>>>,
}

impl FrameSink for MockSink {
    type Error = ();

    fn poll_ready(&mut self) -> SinkPoll<()> {
        SinkPoll::Ready
    }

    fn submit(&mut self, frame: Frame) -> Result<(), ()> {
        self.sent.borrow_mut().push(frame);
        Ok(())
    }

    fn poll_flush(&mut self) -> SinkPoll<()> {
        SinkPoll::Ready
    }
}

struct MockSource {
    frames: Vec<Result<Frame, ()>>,
}

impl FrameSource for MockSource {
    type Error = ();

    fn poll_next(&mut self) -> SourcePoll<()> {
        if self.frames.is_empty() {
            SourcePoll::Ended
        } else {
            match self.frames.remove(0) {
                Ok(frame) => SourcePoll::Frame(frame),
                Err(e) => SourcePoll::Failed(e),
            }
        }
    }
}

struct MockDelay {
    starts: Rc<RefCell<Vec<u8>>>,
    pending_polls: Rc<RefCell<usize>>,
}

impl Delay for MockDelay {
    type Error = ();

    fn start(&mut self, ms: u8) -> Result<(), ()> {
        self.starts.borrow_mut().push(ms);
        Ok(())
    }

    fn poll_elapsed(&mut self) -> SinkPoll<()> {
        let mut left = self.pending_polls.borrow_mut();
        if *left > 0 {
            *left -= 1;
            SinkPoll::Pending
        } else {
            SinkPoll::Ready
        }
    }
}

struct Harness {
    writer: Writer<MockSink, MockSource, MockDelay>,
    sent: Rc<RefCell<Vec<Frame>>>,
    starts: Rc<RefCell<Vec<u8>>>,
    pending_polls: Rc<RefCell<usize>>,
}

fn harness(rx: Vec<Result<Frame, ()>>) -> Harness {
    let sent = Rc::new(RefCell::new(Vec::new()));
    let starts = Rc::new(RefCell::new(Vec::new()));
    let pending_polls = Rc::new(RefCell::new(0));
    let socket = Socket::new(MockSink { sent: sent.clone() }, MockSource { frames: rx });
    let delay = MockDelay {
        starts: starts.clone(),
        pending_polls: pending_polls.clone(),
    };
    Harness {
        writer: socket.writer(delay),
        sent,
        starts,
        pending_polls,
    }
}

fn write_all(writer: &mut Writer<MockSink, MockSource, MockDelay>, msg: &[u8]) {
    let mut consumed = 0;
    let mut rounds = 0;
    while consumed < msg.len() {
        match writer.poll_write(&msg[consumed..]) {
            WritePoll::Ready(Ok(n)) => consumed += n,
            WritePoll::Pending => {}
            WritePoll::Ready(Err(e)) => panic!("write failed: {:?}", e),
        }
        rounds += 1;
        assert!(rounds < 10_000, "writer made no progress");
    }
}

#[test]
fn it_writes_single_frames() {
    let mut h = harness(Vec::new());

    let buf = b"hello";
    write_all(&mut h.writer, buf);

    assert_eq!(h.sent.borrow()[0], Frame::single(b"hello").unwrap());
}

#[test]
fn it_writes_consecutive_frames() {
    let mut h = harness(vec![Ok(Frame::flow(FlowKind::Continue, 10, 0))]);

    let buf = b"Hello World!";
    write_all(&mut h.writer, buf);

    let (first, used) = Frame::first(buf);
    assert_eq!(h.sent.borrow()[0], first);

    // The sequence number after the First frame is 1.
    let (second, _) = Frame::consecutive(1, &buf[used..]);
    assert_eq!(h.sent.borrow()[1], second);
}

#[test]
fn single_write_round_trip_layout() {
    let mut h = harness(Vec::new());
    write_all(&mut h.writer, b"hello");

    let sent = h.sent.borrow();
    assert_eq!(sent.len(), 1);
    let bytes = sent[0].as_bytes();
    assert_eq!(bytes[0], 0x05);
    assert_eq!(&bytes[1..6], b"hello");
    assert!(h.writer.is_finished());
}

#[test]
fn twelve_byte_payload_layout() {
    let mut h = harness(vec![Ok(Frame::flow(FlowKind::Continue, 10, 0))]);
    write_all(&mut h.writer, b"Hello World!");

    let sent = h.sent.borrow();
    assert_eq!(sent.len(), 2);
    let first = sent[0].as_bytes();
    assert_eq!(first[0], 0x10);
    assert_eq!(first[1], 0x0C);
    assert_eq!(&first[2..8], b"Hello ");
    let second = sent[1].as_bytes();
    assert_eq!(second[0], 0x21);
    assert_eq!(&second[1..7], b"World!");
    assert_eq!(second[7], 0);
}

#[test]
fn eight_byte_message_is_first_plus_one_consecutive() {
    let msg: Vec<u8> = (1..=8u8).collect();
    let mut h = harness(vec![Ok(Frame::flow(FlowKind::Continue, 1, 0))]);
    write_all(&mut h.writer, &msg);

    let sent = h.sent.borrow();
    assert_eq!(sent.len(), 2);
    assert_eq!(sent[0].first_len(), 8);
    let second = sent[1].as_bytes();
    assert_eq!(second[0], 0x21);
    assert_eq!(&second[1..3], &msg[6..8]);
    assert_eq!(&second[3..8], &[0, 0, 0, 0, 0]);
}

#[test]
fn seven_byte_message_is_one_single_frame() {
    let mut h = harness(Vec::new());
    write_all(&mut h.writer, b"seven!!");
    let sent = h.sent.borrow();
    assert_eq!(sent.len(), 1);
    assert_eq!(sent[0].as_bytes()[0], 0x07);
}

#[test]
fn sequence_numbers_wrap_modulo_sixteen() {
    // 127 bytes: one First frame and 18 Consecutive frames, so the SN runs
    // 1..15, 0, 1, 2 and wraps once. Block size 0 asks for the whole rest.
    let msg: Vec<u8> = (0..127u8).collect();
    let mut h = harness(vec![Ok(Frame::flow(FlowKind::Continue, 0, 0))]);
    write_all(&mut h.writer, &msg);

    let sent = h.sent.borrow();
    assert_eq!(sent.len(), 1 + 18);
    for (i, frame) in sent.iter().enumerate().skip(1) {
        assert_eq!(frame.consecutive_sn() as usize, i % 16);
    }
}

#[test]
fn one_separation_delay_per_consecutive_frame() {
    let msg = [1u8; 20];
    let mut h = harness(vec![Ok(Frame::flow(FlowKind::Continue, 0, 3))]);
    write_all(&mut h.writer, &msg);

    let sent = h.sent.borrow();
    assert_eq!(sent.len(), 1 + 2);
    // No delay for the First frame, one start(3) per Consecutive frame.
    assert_eq!(*h.starts.borrow(), vec![3, 3]);
}

#[test]
fn flow_wait_then_continue() {
    let msg = [9u8; 20];
    let mut h = harness(vec![
        Ok(Frame::flow(FlowKind::Wait, 0, 5)),
        Ok(Frame::flow(FlowKind::Continue, 1, 0)),
        Ok(Frame::flow(FlowKind::Continue, 1, 0)),
    ]);

    // First frame goes out immediately.
    match h.writer.poll_write(&msg) {
        WritePoll::Ready(Ok(6)) => {}
        other => panic!("expected the First frame, got {:?}", other),
    }

    // The Wait arrives: the delay service is armed with 5 ms and the
    // writer stays pending while the delay runs.
    *h.pending_polls.borrow_mut() = 2;
    assert_eq!(h.writer.poll_write(&msg[6..]), WritePoll::Pending);
    assert_eq!(*h.starts.borrow(), vec![5]);
    assert_eq!(h.writer.poll_write(&msg[6..]), WritePoll::Pending);
    assert_eq!(h.writer.poll_write(&msg[6..]), WritePoll::Pending);

    // The delay fired; the next Continue resumes transmission.
    match h.writer.poll_write(&msg[6..]) {
        WritePoll::Ready(Ok(7)) => {}
        other => panic!("expected a Consecutive frame, got {:?}", other),
    }
    assert_eq!(h.sent.borrow().len(), 2);
}

#[test]
fn abort_after_first_fails_the_writer() {
    let msg = [4u8; 20];
    let mut h = harness(vec![Ok(Frame::flow(FlowKind::Abort, 0, 0))]);

    match h.writer.poll_write(&msg) {
        WritePoll::Ready(Ok(6)) => {}
        other => panic!("expected the First frame, got {:?}", other),
    }
    assert_eq!(
        h.writer.poll_write(&msg[6..]),
        WritePoll::Ready(Err(Error::Aborted))
    );
    assert!(h.writer.is_failed());
}

#[test]
fn non_flow_frame_during_wait_is_invalid() {
    let msg = [4u8; 20];
    let mut h = harness(vec![Ok(Frame::single(b"x").unwrap())]);

    match h.writer.poll_write(&msg) {
        WritePoll::Ready(Ok(6)) => {}
        other => panic!("expected the First frame, got {:?}", other),
    }
    assert_eq!(
        h.writer.poll_write(&msg[6..]),
        WritePoll::Ready(Err(Error::InvalidFrame))
    );
}

#[test]
fn reserved_flow_command_is_invalid() {
    let msg = [4u8; 20];
    let mut h = harness(vec![Ok(Frame::from_bytes(&[0x3A, 0, 0, 0, 0, 0, 0, 0]))]);

    match h.writer.poll_write(&msg) {
        WritePoll::Ready(Ok(6)) => {}
        other => panic!("expected the First frame, got {:?}", other),
    }
    assert_eq!(
        h.writer.poll_write(&msg[6..]),
        WritePoll::Ready(Err(Error::InvalidFrame))
    );
}

#[test]
fn source_end_while_awaiting_flow_control_is_eof() {
    let msg = [4u8; 20];
    let mut h = harness(Vec::new());

    match h.writer.poll_write(&msg) {
        WritePoll::Ready(Ok(6)) => {}
        other => panic!("expected the First frame, got {:?}", other),
    }
    assert_eq!(
        h.writer.poll_write(&msg[6..]),
        WritePoll::Ready(Err(Error::UnexpectedEof))
    );
}

#[test]
fn empty_write_before_any_transfer_is_a_no_op() {
    let mut h = harness(Vec::new());
    assert_eq!(h.writer.poll_write(&[]), WritePoll::Ready(Ok(0)));
    assert!(h.sent.borrow().is_empty());
    assert!(!h.writer.is_finished());
}

#[test]
fn finished_writer_consumes_nothing_more() {
    let mut h = harness(Vec::new());
    write_all(&mut h.writer, b"done");
    assert!(h.writer.is_finished());
    assert_eq!(h.writer.poll_write(b"more"), WritePoll::Ready(Ok(0)));
    assert_eq!(h.sent.borrow().len(), 1);
}

#[test]
fn max_separation_time_is_passed_through() {
    let msg = [2u8; 20];
    let mut h = harness(vec![Ok(Frame::flow(FlowKind::Continue, 0, 127))]);
    write_all(&mut h.writer, &msg);
    assert_eq!(*h.starts.borrow(), vec![127, 127]);
}
