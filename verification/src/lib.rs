//! SLCAN protocol codec: an ASCII line protocol that tunnels CAN bus frames
//! over a byte-stream transport.
//!
//! The library covers the protocol logic alone: hex conversions, frame
//! encoding, byte-at-a-time reassembly of inbound lines, and line decoding.
//! Opening a serial port and moving bytes over it is left to the surrounding
//! program.

pub mod decode;
pub mod encode;
pub mod hex;
pub mod reassemble;
pub mod types;

pub use decode::decode_line;
pub use reassemble::Reassembler;

pub use encode::close_command;
pub use encode::encode_frame;
pub use encode::open_command;

pub use types::BitRate;
pub use types::CanFrame;
pub use types::CodecError;
pub use types::Command;
pub use types::Id;
