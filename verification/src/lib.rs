//! ISO 15765-2 (ISO-TP) transport layer core: segmentation and reassembly of
//! messages of up to 4095 bytes over a datagram channel whose frames carry
//! exactly 8 payload bytes.
//!
//! The crate provides the bit-exact frame codec together with the reader and
//! writer protocol state machines. The state machines are driven through
//! poll-style entry points: each call either makes progress or reports which
//! external condition (sink readiness, an inbound frame, a delay) it is
//! waiting on. The CAN driver, the scheduler and the clock are outside
//! collaborators reached through the traits of [`channel`].

pub mod channel;
pub mod frame;
pub mod protocol;
pub mod read;
pub mod reader;
pub mod socket;
pub mod writer;
pub use frame::Frame;
pub use socket::Socket;
