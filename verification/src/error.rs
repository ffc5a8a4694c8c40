//! The codec's error taxonomy. "Need more bytes" is not an error and is
//! reported as `Ok(None)` by the decoders instead.
use vstd::prelude::*;

verus! {

/// Why a frame was rejected.
#[derive(Clone, Copy, Debug, PartialEq, Eq, Structural)]
pub enum CodecError {
    /// The frame's opcode has no registered decoder.
    InvalidOpcode(u8),
    /// The frame's declared size or a component tag is structurally
    /// impossible for its opcode.
    BadData,
}

impl CodecError {
    /// A short human-readable description, for the caller's logs.
    pub fn describe(&self) -> (r: &'static str)
        ensures
            r@ == match *self {
                CodecError::InvalidOpcode(_) => "invalid opcode"@,
                CodecError::BadData => "invalid data"@,
            },
    {
        match self {
            CodecError::InvalidOpcode(_) => "invalid opcode",
            CodecError::BadData => "invalid data",
        }
    }
}

} // verus!
