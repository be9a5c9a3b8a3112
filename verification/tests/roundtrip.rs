use std::cell::RefCell;
use std::collections::VecDeque;
use std::rc::Rc;

use iso_tp::channel::{Delay, FrameSink, FrameSource, SinkPoll, SourcePoll};
use iso_tp::frame::Frame;
use iso_tp::reader::{ReadPoll, Reader};
use iso_tp::socket::Socket;
use iso_tp::writer::{WritePoll, Writer};

type Queue = Rc<RefCell<VecDeque<Frame>>>;

struct QueueSink {
    queue: Queue,
}

impl FrameSink for QueueSink {
    type Error = ();

    fn poll_ready(&mut self) -> SinkPoll<()> {
        SinkPoll::Ready
    }

    fn submit(&mut self, frame: Frame) -> Result<(), ()> {
        self.queue.borrow_mut().push_back(frame);
        Ok(())
    }

    fn poll_flush(&mut self) -> SinkPoll<()> {
        SinkPoll::Ready
    }
}

struct QueueSource {
    queue: Queue,
}

impl FrameSource for QueueSource {
    type Error = ();

    fn poll_next(&mut self) -> SourcePoll<()> {
        match self.queue.borrow_mut().pop_front() {
            Some(frame) => SourcePoll::Frame(frame),
            None => SourcePoll::Pending,
        }
    }
}

struct NoDelay;

impl Delay for NoDelay {
    type Error = ();

    fn start(&mut self, _ms: u8) -> Result<(), ()> {
        Ok(())
    }

    fn poll_elapsed(&mut self) -> SinkPoll<()> {
        SinkPoll::Ready
    }
}

/// Drive a writer and a reader over a pair of in-memory queues until the
/// reader delivered the whole message; returns what the reader assembled.
fn pump(msg: &[u8]) -> Vec<u8> {
    let to_reader: Queue = Rc::new(RefCell::new(VecDeque::new()));
    let to_writer: Queue = Rc::new(RefCell::new(VecDeque::new()));

    let writer_socket = Socket::new(
        QueueSink { queue: to_reader.clone() },
        QueueSource { queue: to_writer.clone() },
    );
    let reader_socket = Socket::new(
        QueueSink { queue: to_writer.clone() },
        QueueSource { queue: to_reader.clone() },
    );
    let mut writer: Writer<QueueSink, QueueSource, NoDelay> = writer_socket.writer(NoDelay);
    let mut reader: Reader<QueueSink, QueueSource> = reader_socket.reader(4, 0);

    let mut out = vec![0u8; msg.len() + 8];
    let mut consumed = 0;
    let mut filled = 0;
    let mut rounds = 0;
    loop {
        if consumed < msg.len() {
            match writer.poll_write(&msg[consumed..]) {
                WritePoll::Ready(Ok(n)) => consumed += n,
                WritePoll::Pending => {}
                WritePoll::Ready(Err(e)) => panic!("write failed: {:?}", e),
            }
        }
        match reader.poll_read(&mut out[filled..]) {
            ReadPoll::Ready(Ok(0)) => {
                if filled > 0 || consumed == msg.len() {
                    break;
                }
            }
            ReadPoll::Ready(Ok(n)) => filled += n,
            ReadPoll::Pending => {}
            ReadPoll::Ready(Err(e)) => panic!("read failed: {:?}", e),
        }
        rounds += 1;
        assert!(rounds < 100_000, "transfer made no progress");
    }
    out.truncate(filled);
    out
}

#[test]
fn round_trips_a_twelve_byte_message() {
    assert_eq!(pump(b"Hello World!"), b"Hello World!");
}

#[test]
fn round_trips_the_smallest_multi_frame_message() {
    let msg: Vec<u8> = (0..8u8).collect();
    assert_eq!(pump(&msg), msg);
}

#[test]
fn round_trips_the_largest_message() {
    let msg: Vec<u8> = (0..4095u16).map(|i| (i % 251) as u8).collect();
    assert_eq!(pump(&msg), msg);
}

#[test]
fn round_trips_single_frame_messages() {
    for len in 1..=7usize {
        let msg: Vec<u8> = (0..len as u8).map(|b| b + 100).collect();
        assert_eq!(pump(&msg), msg);
    }
}

#[test]
fn round_trips_block_boundary_lengths() {
    // Lengths around whole-block multiples of the reader's block size.
    for len in [13usize, 14, 20, 34, 62, 63, 64] {
        let msg: Vec<u8> = (0..len).map(|i| (i % 251) as u8).collect();
        assert_eq!(pump(&msg), msg);
    }
}
