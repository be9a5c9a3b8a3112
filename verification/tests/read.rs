use std::cell::RefCell;
use std::rc::Rc;

use iso_tp::channel::{FrameSink, FrameSource, SinkPoll, SourcePoll};
use iso_tp::frame::{FlowKind, Frame};
use iso_tp::read::{Read, ResumePoll};
use iso_tp::reader::FcPoll;
use iso_tp::reader::ReadPoll;
use iso_tp::socket::Socket;

struct MockSink {
    sent: Rc<RefCell<Vec<Frame>>>,
}

impl FrameSink for MockSink {
    type Error = ();

    fn poll_ready(&mut self) -> SinkPoll<()> {
        SinkPoll::Ready
    }

    fn submit(&mut self, frame: Frame) -> Result<(), ()> {
        self.sent.borrow_mut().push(frame);
        Ok(())
    }

    fn poll_flush(&mut self) -> SinkPoll<()> {
        SinkPoll::Ready
    }
}

struct MockSource {
    frames: Vec<Result<Frame, ()>>,
}

impl FrameSource for MockSource {
    type Error = ();

    fn poll_next(&mut self) -> SourcePoll<()> {
        if self.frames.is_empty() {
            SourcePoll::Ended
        } else {
            match self.frames.remove(0) {
                Ok(frame) => SourcePoll::Frame(frame),
                Err(e) => SourcePoll::Failed(e),
            }
        }
    }
}

fn mock_socket(
    rx: Vec<Result<Frame, ()>>,
) -> (Socket<MockSink, MockSource>, Rc<RefCell<Vec<Frame>>>) {
    let sent = Rc::new(RefCell::new(Vec::new()));
    (
        Socket::new(MockSink { sent: sent.clone() }, MockSource { frames: rx }),
        sent,
    )
}

#[test]
fn opening_classifies_single_frames() {
    let (socket, _sent) = mock_socket(Vec::new());
    let frame = Frame::single(b"hi").unwrap();
    let read = Read::opening(frame, socket).ok().unwrap();
    assert_eq!(read.single(), Some(frame));
}

#[test]
fn opening_classifies_first_frames() {
    let (socket, _sent) = mock_socket(Vec::new());
    let (first, _) = Frame::first(b"Hello World!");
    let read = Read::opening(first, socket).ok().unwrap();
    assert!(read.consecutive().is_some());
}

#[test]
fn opening_refuses_mid_message_frames() {
    let (socket, _sent) = mock_socket(Vec::new());
    let (stray, _) = Frame::consecutive(1, b"data");
    let socket = Read::opening(stray, socket).err().unwrap();

    let fc = Frame::flow(FlowKind::Continue, 1, 0);
    assert!(Read::opening(fc, socket).is_err());
}

#[test]
fn transaction_reads_block_by_block() {
    let bytes = b"Hello World!";
    let (first, used) = Frame::first(bytes);
    let (second, _) = Frame::consecutive(1, &bytes[used..]);
    let (socket, sent) = mock_socket(vec![Ok(second)]);

    let read = Read::opening(first, socket).ok().unwrap();
    let mut tx = read.consecutive().unwrap();

    // The opening frame's six bytes come first, without touching the bus.
    let mut buf = [0u8; 12];
    assert_eq!(tx.poll_read(&mut buf), ReadPoll::Ready(Ok(6)));
    assert_eq!(&buf[..6], &bytes[..6]);

    // No block was granted yet, so nothing more arrives.
    assert_eq!(tx.poll_read(&mut buf), ReadPoll::Ready(Ok(0)));
    assert!(sent.borrow().is_empty());

    // Granting a block announces FlowControl(Continue, 2, 1).
    assert_eq!(tx.poll_resume(2, 1), ResumePoll::Ready(Ok(true)));
    assert_eq!(sent.borrow().len(), 1);
    assert_eq!(sent.borrow()[0], Frame::flow(FlowKind::Continue, 2, 1));

    // Now the Consecutive frame is taken and the message is whole.
    assert_eq!(tx.poll_read(&mut buf), ReadPoll::Ready(Ok(6)));
    assert_eq!(&buf[..6], &bytes[6..]);
    assert_eq!(tx.poll_resume(2, 1), ResumePoll::Ready(Ok(false)));
}

#[test]
fn opening_refuses_overlong_single_frames() {
    // A Single frame's length field admits 8..15 on the wire, but a Single
    // frame carries at most 7 payload bytes.
    let (socket, _sent) = mock_socket(Vec::new());
    let stray = Frame::from_bytes(&[0x0F, 1, 2, 3, 4, 5, 6, 7]);
    assert!(Read::opening(stray, socket).is_err());
}

#[test]
fn opening_refuses_empty_single_frames() {
    // A Single frame carries at least one payload byte.
    let (socket, _sent) = mock_socket(Vec::new());
    let stray = Frame::from_bytes(&[0x00, 0, 0, 0, 0, 0, 0, 0]);
    assert!(Read::opening(stray, socket).is_err());
}

#[test]
fn resume_before_reading_grants_a_block() {
    // A block may be granted as soon as the message opened, even before
    // the opening frame's own bytes were taken out.
    let bytes = b"Hello World!";
    let (first, used) = Frame::first(bytes);
    let (second, _) = Frame::consecutive(1, &bytes[used..]);
    let (socket, sent) = mock_socket(vec![Ok(second)]);

    let read = Read::opening(first, socket).ok().unwrap();
    let mut tx = read.consecutive().unwrap();

    assert_eq!(tx.poll_resume(1, 0), ResumePoll::Ready(Ok(true)));
    assert_eq!(sent.borrow().len(), 1);
    assert_eq!(sent.borrow()[0], Frame::flow(FlowKind::Continue, 1, 0));

    let mut buf = [0u8; 12];
    assert_eq!(tx.poll_read(&mut buf), ReadPoll::Ready(Ok(6)));
    assert_eq!(tx.poll_read(&mut buf[6..]), ReadPoll::Ready(Ok(6)));
    assert_eq!(&buf, bytes);
    assert_eq!(tx.poll_resume(1, 0), ResumePoll::Ready(Ok(false)));
}

#[test]
fn wait_tells_the_sender_to_hold_off() {
    let msg = [5u8; 20];
    let (first, _) = Frame::first(&msg);
    let (socket, sent) = mock_socket(Vec::new());

    let read = Read::opening(first, socket).ok().unwrap();
    let mut tx = read.consecutive().unwrap();

    assert_eq!(tx.poll_wait(5), FcPoll::Ready(Ok(())));
    assert_eq!(sent.borrow().len(), 1);
    assert_eq!(sent.borrow()[0], Frame::flow(FlowKind::Wait, 0, 5));

    // The transaction itself goes on.
    let mut buf = [0u8; 20];
    assert_eq!(tx.poll_read(&mut buf), ReadPoll::Ready(Ok(6)));
    assert!(!tx.is_failed());
}

#[test]
fn abort_tells_the_sender_to_stop() {
    let msg = [5u8; 20];
    let (first, _) = Frame::first(&msg);
    let (socket, sent) = mock_socket(Vec::new());

    let read = Read::opening(first, socket).ok().unwrap();
    let mut tx = read.consecutive().unwrap();

    assert_eq!(tx.poll_abort(), FcPoll::Ready(Ok(())));
    assert_eq!(sent.borrow().len(), 1);
    assert_eq!(sent.borrow()[0], Frame::flow(FlowKind::Abort, 0, 0));
    assert!(tx.is_failed());
}

#[test]
fn classified_single_feeds_the_integrated_reader() {
    let (socket, _sent) = mock_socket(Vec::new());
    let frame = Frame::single(b"hi").unwrap();
    let read = Read::opening(frame, socket).ok().unwrap();
    let mut reader = read.reader(10, 0);

    let mut buf = [0u8; 4];
    assert_eq!(reader.poll_read(&mut buf), ReadPoll::Ready(Ok(2)));
    assert_eq!(&buf[..2], b"hi");
    assert_eq!(reader.poll_read(&mut buf), ReadPoll::Ready(Ok(0)));
}

#[test]
fn classified_first_feeds_the_integrated_reader() {
    let bytes = b"Hello World!";
    let (first, used) = Frame::first(bytes);
    let (second, _) = Frame::consecutive(1, &bytes[used..]);
    let (socket, sent) = mock_socket(vec![Ok(second)]);

    let read = Read::opening(first, socket).ok().unwrap();
    let mut reader = read.reader(4, 0);

    let mut buf = [0u8; 12];
    let mut filled = 0;
    while filled < 12 {
        match reader.poll_read(&mut buf[filled..]) {
            ReadPoll::Ready(Ok(n)) => filled += n,
            other => panic!("unexpected read outcome: {:?}", other),
        }
    }
    assert_eq!(&buf, bytes);
    assert_eq!(sent.borrow().len(), 1);
    assert_eq!(sent.borrow()[0], Frame::flow(FlowKind::Continue, 4, 0));
}

#[test]
fn bundled_reader_drives_flow_control_itself() {
    let bytes = b"Hello World!";
    let (first, used) = Frame::first(bytes);
    let (second, _) = Frame::consecutive(1, &bytes[used..]);
    let (socket, sent) = mock_socket(vec![Ok(second)]);

    let read = Read::opening(first, socket).ok().unwrap();
    let mut reader = read.consecutive().unwrap().reader(4, 0);

    let mut out = Vec::new();
    let mut buf = [0u8; 12];
    loop {
        match reader.poll_read(&mut buf) {
            ReadPoll::Ready(Ok(0)) => break,
            ReadPoll::Ready(Ok(n)) => out.extend_from_slice(&buf[..n]),
            other => panic!("unexpected read outcome: {:?}", other),
        }
    }
    assert_eq!(out, bytes);
    assert_eq!(sent.borrow().len(), 1);
}
