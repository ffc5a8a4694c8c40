//! A verified codec for a small game's wire protocol.
//!
//! The codec turns a continuous, possibly fragmented byte stream into
//! discrete operations and back: it frames each operation behind a fixed
//! 8-byte header, scans forward to resynchronise after corrupt or
//! unrecognised data, and reports "need more bytes" without consuming
//! anything whenever a frame is still incomplete.

pub mod bytebuf;
pub mod codec;
pub mod encdec;
pub mod error;
pub mod header;
pub mod laws;
pub mod opcode;
pub mod operation;

pub use codec::EternalReckoningCodec;
pub use error::CodecError;
