use std::cell::RefCell;
use std::rc::Rc;

use iso_tp::channel::{FrameSink, FrameSource, SinkPoll, SourcePoll};
use iso_tp::frame::Frame;
use iso_tp::reader::{Error, FcPoll, ReadPoll, Reader};
use iso_tp::socket::Socket;

struct MockSink {
    sent: Rc<RefCell<Vec<Frame>>>,
}

impl FrameSink for MockSink {
    type Error = ();

    fn poll_ready(&mut self) -> SinkPoll<()> {
        SinkPoll::Ready
    }

    fn submit(&mut self, frame: Frame) -> Result<(), ()> {
        self.sent.borrow_mut().push(frame);
        Ok(())
    }

    fn poll_flush(&mut self) -> SinkPoll<()> {
        SinkPoll::Ready
    }
}

struct MockSource {
    frames: Vec<Result<Frame, ()>>,
}

impl FrameSource for MockSource {
    type Error = ();

    fn poll_next(&mut self) -> SourcePoll<()> {
        if self.frames.is_empty() {
            SourcePoll::Ended
        } else {
            match self.frames.remove(0) {
                Ok(frame) => SourcePoll::Frame(frame),
                Err(e) => SourcePoll::Failed(e),
            }
        }
    }
}

fn mock_reader(rx: Vec<Result<Frame, ()>>) -> (Reader<MockSink, MockSource>, Rc<RefCell<Vec<Frame>>>) {
    let sent = Rc::new(RefCell::new(Vec::new()));
    let socket = Socket::new(MockSink { sent: sent.clone() }, MockSource { frames: rx });
    (Reader::new(socket), sent)
}

fn read_some(reader: &mut Reader<MockSink, MockSource>, buf: &mut [u8]) -> usize {
    match reader.poll_read(buf) {
        ReadPoll::Ready(Ok(n)) => n,
        other => panic!("expected bytes, got {:?}", other),
    }
}

fn read_error(reader: &mut Reader<MockSink, MockSource>, buf: &mut [u8]) -> Error<(), ()> {
    match reader.poll_read(buf) {
        ReadPoll::Ready(Err(e)) => e,
        other => panic!("expected an error, got {:?}", other),
    }
}

#[test]
fn it_reads_single_frames() {
    let bytes = b"example";
    let frame = Frame::single(bytes).unwrap();

    let (mut reader, _sent) = mock_reader(vec![Ok(frame)]);

    let mut buf = [0u8; 7];
    let used = read_some(&mut reader, &mut buf);
    assert_eq!(used, 7);
    let mut rest = [0u8; 1];
    assert_eq!(read_some(&mut reader, &mut rest), 0);

    assert_eq!(&buf, bytes);
}

#[test]
fn it_reads_consecutive_frames() {
    let bytes = b"Hello World!";
    let (first, used) = Frame::first(bytes);
    let (second, _) = Frame::consecutive(0, &bytes[used..]);
    let (mut reader, _sent) = mock_reader(vec![Ok(first), Ok(second)]);

    let mut buf = [0u8; 12];
    let used = read_some(&mut reader, &mut buf);
    assert_eq!(used, 6);
    assert_eq!(read_some(&mut reader, &mut buf[used..]), 6);

    assert_eq!(&buf, bytes);
}

#[test]
fn reader_announces_flow_control_between_blocks() {
    let bytes = b"Hello World!";
    let (first, used) = Frame::first(bytes);
    let (second, _) = Frame::consecutive(1, &bytes[used..]);
    let (mut reader, sent) = mock_reader(vec![Ok(first), Ok(second)]);

    let mut buf = [0u8; 12];
    let mut filled = 0;
    while filled < 12 {
        filled += read_some(&mut reader, &mut buf[filled..]);
    }
    assert_eq!(&buf, bytes);
    // One block of the default size was announced before the Consecutive
    // frame was taken: FlowControl(Continue, 10, 0).
    let sent = sent.borrow();
    assert_eq!(sent.len(), 1);
    assert_eq!(sent[0], Frame::flow(iso_tp::frame::FlowKind::Continue, 10, 0));
}

#[test]
fn block_size_zero_sends_one_flow_control_only() {
    // A reader announcing block size 0 grants the whole rest of the
    // message at once and must not send further Continues.
    let msg: Vec<u8> = (0..30u8).collect();
    let (first, mut consumed) = Frame::first(&msg);
    let mut frames = vec![Ok(first)];
    let mut sn = 1u8;
    while consumed < msg.len() {
        let (frame, used) = Frame::consecutive(sn, &msg[consumed..]);
        frames.push(Ok(frame));
        consumed += used;
        sn = (sn + 1) % 16;
    }

    let sent = Rc::new(RefCell::new(Vec::new()));
    let socket = Socket::new(MockSink { sent: sent.clone() }, MockSource { frames });
    let mut reader = socket.reader(0, 0);

    let mut buf = [0u8; 30];
    let mut filled = 0;
    while filled < 30 {
        filled += read_some(&mut reader, &mut buf[filled..]);
    }
    let mut scratch = [0u8; 1];
    assert_eq!(read_some(&mut reader, &mut scratch), 0);
    assert_eq!(&buf[..], &msg[..]);
    let sent = sent.borrow();
    assert_eq!(sent.len(), 1);
    assert_eq!(sent[0], Frame::flow(iso_tp::frame::FlowKind::Continue, 0, 0));
}

#[test]
fn reader_chunks_a_frame_over_small_buffers() {
    let bytes = b"example";
    let frame = Frame::single(bytes).unwrap();
    let (mut reader, _sent) = mock_reader(vec![Ok(frame)]);

    let mut out = Vec::new();
    let mut buf = [0u8; 3];
    loop {
        let n = read_some(&mut reader, &mut buf);
        if n == 0 {
            break;
        }
        out.extend_from_slice(&buf[..n]);
    }
    assert_eq!(out, bytes);
}

#[test]
fn reader_keeps_reporting_end_of_message() {
    let frame = Frame::single(b"hi").unwrap();
    let (mut reader, _sent) = mock_reader(vec![Ok(frame)]);

    let mut buf = [0u8; 4];
    assert_eq!(read_some(&mut reader, &mut buf), 2);
    for _ in 0..3 {
        assert_eq!(read_some(&mut reader, &mut buf), 0);
    }
}

#[test]
fn reader_delivers_exactly_the_announced_length() {
    // The First frame announces 8 bytes; the Consecutive frame carries 7
    // data positions, of which only 2 are owed. The rest never shows up.
    let msg: Vec<u8> = (1..=8u8).collect();
    let (first, used) = Frame::first(&msg);
    let (second, _) = Frame::consecutive(1, &msg[used..]);
    let (mut reader, _sent) = mock_reader(vec![Ok(first), Ok(second)]);

    let mut buf = [0u8; 16];
    let mut filled = 0;
    loop {
        let n = read_some(&mut reader, &mut buf[filled..]);
        if n == 0 {
            break;
        }
        filled += n;
    }
    assert_eq!(filled, 8);
    assert_eq!(&buf[..8], &msg[..]);
}

#[test]
fn single_during_consecutive_read_is_invalid() {
    let msg = [7u8; 20];
    let (first, _) = Frame::first(&msg);
    let stray = Frame::single(b"no").unwrap();
    let (mut reader, _sent) = mock_reader(vec![Ok(first), Ok(stray)]);

    let mut buf = [0u8; 20];
    let used = read_some(&mut reader, &mut buf);
    assert_eq!(used, 6);
    assert_eq!(read_error(&mut reader, &mut buf[used..]), Error::InvalidFrame);
    assert!(reader.is_failed());
}

#[test]
fn source_end_after_first_is_unexpected_eof() {
    let msg = [3u8; 20];
    let (first, _) = Frame::first(&msg);
    let (mut reader, _sent) = mock_reader(vec![Ok(first)]);

    let mut buf = [0u8; 20];
    let used = read_some(&mut reader, &mut buf);
    assert_eq!(used, 6);
    assert_eq!(read_error(&mut reader, &mut buf[used..]), Error::UnexpectedEof);
    assert!(reader.is_failed());
}

#[test]
fn opening_consecutive_or_flow_is_invalid() {
    let (stray, _) = Frame::consecutive(1, b"data");
    let (mut reader, _sent) = mock_reader(vec![Ok(stray)]);
    let mut buf = [0u8; 8];
    assert_eq!(read_error(&mut reader, &mut buf), Error::InvalidFrame);

    let stray = Frame::flow(iso_tp::frame::FlowKind::Continue, 1, 0);
    let (mut reader, _sent) = mock_reader(vec![Ok(stray)]);
    assert_eq!(read_error(&mut reader, &mut buf), Error::InvalidFrame);
}

#[test]
fn empty_single_opening_is_invalid() {
    // A Single frame carries 1 to 7 payload bytes; a zero-length one
    // cannot open a message.
    let stray = Frame::from_bytes(&[0x00, 0, 0, 0, 0, 0, 0, 0]);
    let (mut reader, _sent) = mock_reader(vec![Ok(stray)]);
    let mut buf = [0u8; 8];
    assert_eq!(read_error(&mut reader, &mut buf), Error::InvalidFrame);
}

#[test]
fn unknown_pci_nibble_is_reported() {
    let stray = Frame::from_bytes(&[0x70, 1, 2, 3, 4, 5, 6, 7]);
    let (mut reader, _sent) = mock_reader(vec![Ok(stray)]);
    let mut buf = [0u8; 8];
    assert_eq!(read_error(&mut reader, &mut buf), Error::UnknownFrameKind);
}

#[test]
fn reader_abort_tells_the_sender_to_stop() {
    let msg = [9u8; 20];
    let (first, _) = Frame::first(&msg);
    let (mut reader, sent) = mock_reader(vec![Ok(first)]);

    let mut buf = [0u8; 20];
    assert_eq!(read_some(&mut reader, &mut buf), 6);
    assert_eq!(reader.poll_abort(), FcPoll::Ready(Ok(())));
    assert_eq!(sent.borrow().len(), 1);
    assert_eq!(sent.borrow()[0], Frame::flow(iso_tp::frame::FlowKind::Abort, 0, 0));
    assert!(reader.is_failed());
}

#[test]
fn source_errors_are_surfaced() {
    let (mut reader, _sent) = mock_reader(vec![Err(())]);
    let mut buf = [0u8; 8];
    assert_eq!(read_error(&mut reader, &mut buf), Error::Receive(()));
    assert!(reader.is_failed());
}
