//! The fixed 8-byte frame envelope: two magic bytes, a little-endian 16-bit
//! payload size, one opcode byte and three reserved padding bytes (zero on
//! write, ignored on read), plus the scanner that finds the next magic
//! sequence inside an arbitrary buffer.
use vstd::prelude::*;

use crate::error::CodecError;
use crate::opcode::OpcodeType;

verus! {

/// First byte of the magic sequence that opens every frame.
pub const MAGIC_0: u8 = 0xEC;

/// Second byte of the magic sequence that opens every frame.
pub const MAGIC_1: u8 = 0xAA;

/// Number of bytes in a frame header.
pub const HEADER_SIZE: usize = 8;

/// A parsed frame envelope: the payload length in bytes and the opcode that
/// selects the payload's layout.
#[derive(Clone, Copy, Debug, PartialEq, Eq, Structural)]
pub struct Header {
    pub size: usize,
    pub opcode: OpcodeType,
}

/// True when the magic sequence stands at offset `i` of `s`.
pub open spec fn spec_magic_at(s: Seq<u8>, i: int) -> bool
    recommends
        0 <= i,
        i + 2 <= s.len(),
{
    s[i] == MAGIC_0 && s[i + 1] == MAGIC_1
}

/// The offset of the first magic sequence in `s`, if one is complete in `s`.
pub open spec fn spec_find_magic(s: Seq<u8>) -> Option<nat>
    decreases s.len(),
{
    if s.len() < 2 {
        None
    } else if spec_magic_at(s, 0) {
        Some(0)
    } else {
        match spec_find_magic(s.skip(1)) {
            None => None,
            Some(i) => Some((i + 1) as nat),
        }
    }
}

/// What `spec_find_magic` returns: the offset of a complete magic sequence,
/// earlier than every other one; or nothing, when no complete one exists.
pub proof fn lemma_find_magic(s: Seq<u8>)
    ensures
        match spec_find_magic(s) {
            None => forall|i: int| 0 <= i && i + 2 <= s.len() ==> !spec_magic_at(s, i),
            Some(i) => {
                &&& i + 2 <= s.len()
                &&& spec_magic_at(s, i as int)
                &&& forall|j: int| 0 <= j < i ==> !spec_magic_at(s, j)
            },
        },
    decreases s.len(),
{
    if s.len() < 2 {
    } else if spec_magic_at(s, 0) {
    } else {
        lemma_find_magic(s.skip(1));
        assert forall|k: int| 0 <= k && k + 2 <= s.len() - 1 implies spec_magic_at(s.skip(1), k)
            == spec_magic_at(s, k + 1) by {
            assert(s.skip(1)[k] == s[k + 1]);
            assert(s.skip(1)[k + 1] == s[k + 2]);
        }
        match spec_find_magic(s.skip(1)) {
            None => {
                assert forall|i: int| 0 <= i && i + 2 <= s.len() implies !spec_magic_at(s, i) by {
                    if i > 0 {
                        assert(!spec_magic_at(s.skip(1), i - 1));
                    }
                }
            },
            Some(i) => {
                assert(spec_magic_at(s.skip(1), i as int));
                assert forall|j: int| 0 <= j < i + 1 implies !spec_magic_at(s, j) by {
                    if j > 0 {
                        assert(!spec_magic_at(s.skip(1), j - 1));
                    }
                }
            },
        }
    }
}

impl Header {
    pub fn new(opcode: OpcodeType, size: usize) -> (r: Header)
        ensures
            r.size == size,
            r.opcode == opcode,
    {
        Header { size, opcode }
    }

    /// Finds the byte offset of the next magic sequence at or after `from`,
    /// or reports that no complete one stands in the buffer. A lone first
    /// magic byte at the buffer's tail is not a match; those bytes stay for
    /// the next call, once more data has arrived.
    pub fn find(buf: &Vec<u8>, from: usize) -> (r: Option<usize>)
        requires
            from <= buf@.len(),
        ensures
            match spec_find_magic(buf@.skip(from as int)) {
                None => r is None,
                Some(i) => r == Some((from + i) as usize),
            },
    {
        let ghost s0 = buf@.skip(from as int);
        let mut i: usize = from;
        while buf.len() - i >= 2
            invariant
                from <= i <= buf@.len(),
                spec_find_magic(s0) == match spec_find_magic(buf@.skip(i as int)) {
                    None => None::<nat>,
                    Some(k) => Some((k + i - from) as nat),
                },
                s0 == buf@.skip(from as int),
            decreases buf@.len() - i,
        {
            let ghost s = buf@.skip(i as int);
            assert(s[0] == buf@[i as int]);
            assert(s[1] == buf@[i + 1]);
            if buf[i] == MAGIC_0 && buf[i + 1] == MAGIC_1 {
                assert(spec_find_magic(s) == Some(0nat));
                return Some(i);
            }
            proof {
                assert(s.skip(1) =~= buf@.skip(i + 1));
            }
            i = i + 1;
        }
        assert(buf@.skip(i as int).len() < 2);
        None
    }

    /// Parses the envelope at offset `from`: the header, when 8 bytes are
    /// buffered there and the first two match the magic sequence; "not yet",
    /// when fewer than 8 bytes remain; bad data, when the bytes at `from` do
    /// not open with the magic sequence.
    pub fn read(buf: &Vec<u8>, from: usize) -> (r: Result<Option<Header>, CodecError>)
        requires
            from <= buf@.len(),
        ensures
            buf@.len() - from < 8 ==> r == Ok::<Option<Header>, CodecError>(None),
            buf@.len() - from >= 8 && !spec_magic_at(buf@, from as int) ==> r == Err::<
                Option<Header>,
                CodecError,
            >(CodecError::BadData),
            buf@.len() - from >= 8 && spec_magic_at(buf@, from as int) ==> r == Ok::<
                Option<Header>,
                CodecError,
            >(
                Some(
                    Header {
                        size: vstd::bytes::spec_u16_from_le_bytes(
                            buf@.subrange(from + 2, from + 4),
                        ) as usize,
                        opcode: buf@[from + 4],
                    },
                ),
            ),
    {
        if buf.len() - from < 8 {
            return Ok(None);
        }
        if buf[from] != MAGIC_0 || buf[from + 1] != MAGIC_1 {
            return Err(CodecError::BadData);
        }
        let size_bytes = vstd::slice::slice_subrange(buf.as_slice(), from + 2, from + 4);
        let size = vstd::bytes::u16_from_le_bytes(size_bytes);
        let opcode = buf[from + 4];
        Ok(Some(Header::new(opcode, size as usize)))
    }

    /// Appends the 8 header bytes: magic, little-endian size, opcode and
    /// three zero padding bytes.
    pub fn write(&self, buf: &mut Vec<u8>)
        requires
            self.size <= u16::MAX,
        ensures
            final(buf)@ == old(buf)@ + spec_header_bytes(self.opcode, self.size as u16),
    {
        buf.push(MAGIC_0);
        buf.push(MAGIC_1);
        let mut size_bytes = vstd::bytes::u16_to_le_bytes(self.size as u16);
        buf.append(&mut size_bytes);
        buf.push(self.opcode);
        buf.push(0);
        buf.push(0);
        buf.push(0);
        proof {
            assert(buf@ =~= old(buf)@ + spec_header_bytes(self.opcode, self.size as u16));
        }
    }
}

/// The 8 bytes of the envelope of a frame with the given opcode and payload
/// size.
pub open spec fn spec_header_bytes(opcode: OpcodeType, size: u16) -> Seq<u8> {
    seq![MAGIC_0, MAGIC_1] + vstd::bytes::spec_u16_to_le_bytes(size) + seq![opcode, 0u8, 0u8, 0u8]
}

} // verus!
