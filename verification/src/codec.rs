//! The frame codec: the stream-to-message and message-to-stream
//! transformation.
//!
//! Decoding scans the caller's accumulating buffer for the next magic
//! sequence, parses the header there, dispatches the opcode's payload
//! decoder, and either consumes the whole frame and returns its operation,
//! or reports "need more bytes" while leaving the unread part of the buffer
//! in place. A corrupt or unrecognised frame is skipped by one byte and the
//! scan resumes, so a single bad frame never tears the connection down.
//! Decoding an empty buffer yields the synthetic `DisconnectMessage`, the
//! local end-of-stream sentinel.
use vstd::prelude::*;

use vstd::bytes::spec_u16_from_le_bytes;
use vstd::slice::slice_subrange;

use crate::bytebuf::{buf_advance, buf_extend, buf_to_vec, bytes_view};
use crate::encdec::{
    decode_cl_connect_message,
    decode_cl_move_set_position,
    decode_disconnect_message,
    decode_invalid_op,
    decode_sv_connect_response,
    decode_sv_update_world,
    encode_cl_move_set_position,
    encode_no_body,
    encode_sv_connect_response,
    encode_sv_update_world,
    outcome_matches,
    spec_decode_cl_connect,
    spec_decode_cl_move_set_position,
    spec_decode_sv_connect_response,
    spec_decode_sv_update_world,
    spec_encode_component,
    spec_encode_components,
    spec_encode_entities,
    spec_encode_entity,
    spec_payload,
    PayloadOutcome,
};
use crate::error::CodecError;
use crate::header::{lemma_find_magic, spec_find_magic, spec_header_bytes, Header, HEADER_SIZE};
use crate::opcode::{
    opcode_from_operation,
    spec_opcode,
    OpcodeType,
    CL_CONNECT_MESSAGE_OP,
    CL_MOVE_SET_POSITION_OP,
    DISCONNECT_MESSAGE_OP,
    SV_CONNECT_RESPONSE_OP,
    SV_UPDATE_WORLD_OP,
};
use crate::operation::{EntityComponent, EntityUpdateView, Operation, OperationView};

verus! {

/// The complete wire image of a frame carrying the given operation: the
/// 8-byte header, then the payload.
pub open spec fn spec_frame(op: OperationView) -> Seq<u8>
    recommends
        op.wf(),
        spec_payload(op).len() <= u16::MAX,
{
    spec_header_bytes(spec_opcode(op), spec_payload(op).len() as u16) + spec_payload(op)
}

/// The decoder registry: a total function over the 8-bit opcode space.
/// Every opcode without an assigned payload layout decodes to "invalid
/// opcode".
pub open spec fn spec_decode_payload(opcode: OpcodeType, size: nat, s: Seq<u8>) -> PayloadOutcome {
    if opcode == CL_CONNECT_MESSAGE_OP {
        spec_decode_cl_connect(size)
    } else if opcode == SV_CONNECT_RESPONSE_OP {
        spec_decode_sv_connect_response(size, s)
    } else if opcode == SV_UPDATE_WORLD_OP {
        spec_decode_sv_update_world(size, s)
    } else if opcode == DISCONNECT_MESSAGE_OP {
        PayloadOutcome::Decoded(OperationView::DisconnectMessage)
    } else if opcode == CL_MOVE_SET_POSITION_OP {
        spec_decode_cl_move_set_position(size, s)
    } else {
        PayloadOutcome::Failed(CodecError::InvalidOpcode(opcode))
    }
}

/// One whole decode call over the bytes of a non-empty buffer: the decoded
/// operation, if a complete valid frame could be found, and how many bytes
/// the call consumes from the buffer's front.
///
/// Bytes before a found magic sequence are consumed only once a frame is
/// read or rejected there; when no complete magic sequence exists at all,
/// nothing is consumed and the caller must wait for more bytes.
pub open spec fn spec_decode_from(s: Seq<u8>) -> (Option<OperationView>, nat)
    decreases s.len(),
    via spec_decode_from_decreases
{
    match spec_find_magic(s) {
        None => (None, 0),
        Some(i) => {
            let t = s.skip(i as int);
            if t.len() < 8 {
                (None, i)
            } else {
                let size = spec_u16_from_le_bytes(t.subrange(2, 4)) as nat;
                let opcode = t[4];
                match spec_decode_payload(opcode, size, t.skip(8)) {
                    PayloadOutcome::Incomplete => (None, i),
                    PayloadOutcome::Decoded(op) => {
                        if t.len() - 8 >= size {
                            (Some(op), (i + 8 + size) as nat)
                        } else {
                            (None, i)
                        }
                    },
                    PayloadOutcome::Failed(_) => {
                        let r = spec_decode_from(s.skip(i + 1 as int));
                        (r.0, (i + 1 + r.1) as nat)
                    },
                }
            }
        },
    }
}

#[via_fn]
proof fn spec_decode_from_decreases(s: Seq<u8>) {
    lemma_find_magic(s);
}

/// One whole decode call: an empty buffer yields the synthetic
/// `DisconnectMessage` and consumes nothing; any other buffer decodes as
/// [`spec_decode_from`].
pub open spec fn spec_decode(s: Seq<u8>) -> (Option<OperationView>, nat) {
    if s.len() == 0 {
        (Some(OperationView::DisconnectMessage), 0)
    } else {
        spec_decode_from(s)
    }
}

/// The view of an optional operation.
pub open spec fn spec_opt_view(o: Option<Operation>) -> Option<OperationView> {
    match o {
        None => None,
        Some(op) => Some(op@),
    }
}

/// The encoder registry: selects the payload encoder for an opcode. Every
/// opcode whose payload is empty shares the encoder that appends nothing.
fn encode_payload_for(opcode: OpcodeType, packet: Operation, buf: &mut Vec<u8>)
    requires
        opcode == spec_opcode(packet@),
        packet@.wf(),
    ensures
        final(buf)@ == old(buf)@ + spec_payload(packet@),
{
    if opcode == SV_CONNECT_RESPONSE_OP {
        encode_sv_connect_response(packet, buf);
    } else if opcode == SV_UPDATE_WORLD_OP {
        encode_sv_update_world(packet, buf);
    } else if opcode == CL_MOVE_SET_POSITION_OP {
        encode_cl_move_set_position(packet, buf);
    } else {
        encode_no_body(packet, buf);
    }
}

/// The decoder registry: selects the payload decoder for a header's opcode.
fn decode_payload_for(header: &Header, buf: &[u8]) -> (r: Result<Option<Operation>, CodecError>)
    ensures
        outcome_matches(r, spec_decode_payload(header.opcode, header.size as nat, buf@)),
{
    if header.opcode == CL_CONNECT_MESSAGE_OP {
        decode_cl_connect_message(header, buf)
    } else if header.opcode == SV_CONNECT_RESPONSE_OP {
        decode_sv_connect_response(header, buf)
    } else if header.opcode == SV_UPDATE_WORLD_OP {
        decode_sv_update_world(header, buf)
    } else if header.opcode == DISCONNECT_MESSAGE_OP {
        decode_disconnect_message(header, buf)
    } else if header.opcode == CL_MOVE_SET_POSITION_OP {
        decode_cl_move_set_position(header, buf)
    } else {
        decode_invalid_op(header, buf)
    }
}

/// Appends one complete frame for `packet`: the header, carrying the
/// payload's exact length and the operation's opcode, then the payload.
pub fn encode_frame(packet: Operation, out: &mut Vec<u8>)
    requires
        packet@.wf(),
        spec_payload(packet@).len() <= u16::MAX,
    ensures
        final(out)@ == old(out)@ + spec_frame(packet@),
{
    let opcode = opcode_from_operation(&packet);
    let ghost packet_view = packet@;
    let mut payload: Vec<u8> = Vec::new();
    encode_payload_for(opcode, packet, &mut payload);
    let header = Header::new(opcode, payload.len());
    header.write(out);
    out.append(&mut payload);
    proof {
        assert(out@ =~= old(out)@ + spec_frame(packet_view));
    }
}

/// Whether `op` can be framed: every length the wire format stores in a
/// fixed-width field fits that field, and the payload's length fits the
/// header's 16-bit size field. Callers check this before [`encode_frame`]
/// or [`EternalReckoningCodec::encode`].
#[verifier::loop_isolation(false)]
pub fn encodable(op: &Operation) -> (b: bool)
    ensures
        b == (op@.wf() && spec_payload(op@).len() <= u16::MAX),
{
    proof {
        vstd::bytes::lemma_auto_spec_u32_to_from_le_bytes();
        vstd::bytes::lemma_auto_spec_u64_to_from_le_bytes();
    }
    match op {
        Operation::SvConnectResponse(d) => d.uuid.as_bytes().len() == 16,
        Operation::SvUpdateWorld(d) => {
            let ghost es = d@;
            if d.updates.len() > (u32::MAX as usize) {
                return false;
            }
            let mut total: usize = 4;
            let mut i: usize = 0;
            while i < d.updates.len()
                invariant
                    i <= d.updates@.len(),
                    forall|j: int| 0 <= j < i ==> (#[trigger] es[j]).wf(),
                    total == 4 + spec_encode_entities(es.take(i as int)).len(),
                    total <= u16::MAX,
                decreases d.updates@.len() - i,
            {
                let entity = &d.updates[i];
                proof {
                    assert(es[i as int] == entity@);
                }
                if entity.uuid.as_bytes().len() != 16 {
                    proof {
                        assert(!es[i as int].wf());
                    }
                    return false;
                }
                if entity.data.len() > (u32::MAX as usize) {
                    proof {
                        assert(!es[i as int].wf());
                    }
                    return false;
                }
                proof {
                    assert(es[i as int].wf());
                    crate::encdec::lemma_encode_entities_split(es, i as int);
                    assert(es.skip(i as int)[0] == es[i as int]);
                }
                let ghost entity_start = total;
                total = total + 20;
                let mut k: usize = 0;
                while k < entity.data.len()
                    invariant
                        k <= entity.data@.len(),
                        total == entity_start + 20 + spec_encode_components(
                            entity.data@.take(k as int),
                        ).len(),
                        total <= u16::MAX + 25,
                        entity_start == 4 + spec_encode_entities(es.take(i as int)).len(),
                    decreases entity.data@.len() - k,
                {
                    if total > u16::MAX as usize {
                        proof {
                            lemma_oversized_world_update(es, i as int, k as int);
                        }
                        return false;
                    }
                    let step: usize = match &entity.data[k] {
                        EntityComponent::Health(_) => 9,
                        EntityComponent::Position(_) => 25,
                    };
                    proof {
                        assert(step == spec_encode_component(entity.data@[k as int]).len());
                        assert(entity.data@.take(k + 1) =~= entity.data@.take(k as int).push(
                            entity.data@[k as int],
                        ));
                        crate::encdec::lemma_encode_components_push(
                            entity.data@.take(k as int),
                            entity.data@[k as int],
                        );
                    }
                    total = total + step;
                    k = k + 1;
                }
                if total > u16::MAX as usize {
                    proof {
                        lemma_oversized_world_update(es, i as int, k as int);
                    }
                    return false;
                }
                proof {
                    assert(entity.data@.take(entity.data@.len() as int) =~= entity.data@);
                    assert(spec_encode_entity(es[i as int]).len() == 20 + spec_encode_components(
                        entity.data@,
                    ).len());
                    assert(es.take(i + 1) =~= es.take(i as int).push(es[i as int]));
                    crate::encdec::lemma_encode_entities_push(es.take(i as int), es[i as int]);
                }
                i = i + 1;
            }
            proof {
                assert(es.take(es.len() as int) =~= es);
            }
            true
        },
        _ => true,
    }
}

/// A world update whose encoding already exceeds the size field's range at
/// some entity and component prefix exceeds it as a whole.
proof fn lemma_oversized_world_update(es: Seq<EntityUpdateView>, i: int, k: int)
    requires
        0 <= i < es.len(),
        es[i].wf(),
        0 <= k <= es[i].data.len(),
        4 + spec_encode_entities(es.take(i)).len() + 20 + spec_encode_components(
            es[i].data.take(k),
        ).len() > u16::MAX,
    ensures
        spec_payload(OperationView::SvUpdateWorld(es)).len() > u16::MAX,
{
    vstd::bytes::lemma_auto_spec_u32_to_from_le_bytes();
    crate::encdec::lemma_encode_entities_split(es, i);
    assert(es.skip(i)[0] == es[i]);
    assert(spec_encode_entities(es.skip(i)) == spec_encode_entity(es[i]) + spec_encode_entities(
        es.skip(i).skip(1),
    ));
    crate::encdec::lemma_encode_components_split(es[i].data, k);
    assert(spec_encode_entity(es[i]).len() >= 20 + spec_encode_components(
        es[i].data.take(k),
    ).len());
}

/// One whole decode pass over `data`: the decoded operation, if a complete
/// valid frame could be found, and how many bytes the caller must discard
/// from the buffer's front.
#[verifier::loop_isolation(false)]
#[verifier::rlimit(40)]
pub fn decode_frame(data: &Vec<u8>) -> (r: (Option<Operation>, usize))
    ensures
        spec_opt_view(r.0) == spec_decode(data@).0,
        r.1 == spec_decode(data@).1,
        r.1 <= data@.len(),
{
    if data.len() == 0 {
        return (Some(Operation::DisconnectMessage), 0);
    }
    proof {
        assert(data@.skip(0) =~= data@);
    }
    let mut pos: usize = 0;
    loop
        invariant
            pos <= data@.len(),
            spec_decode_from(data@).0 == spec_decode_from(data@.skip(pos as int)).0,
            spec_decode_from(data@).1 == pos + spec_decode_from(data@.skip(pos as int)).1,
        decreases data@.len() - pos,
    {
        let ghost sp = data@.skip(pos as int);
        match Header::find(data, pos) {
            None => {
                return (None, pos);
            },
            Some(j) => {
                proof {
                    lemma_find_magic(sp);
                    assert(sp.skip((j - pos) as int) =~= data@.skip(j as int));
                }
                let ghost t = data@.skip(j as int);
                match Header::read(data, j) {
                    Ok(None) => {
                        // Fewer than 8 bytes remain at the frame start: the
                        // header itself is still incomplete.
                        return (None, j);
                    },
                    Err(_) => {
                        // A successful scan guarantees the magic sequence at
                        // the scan offset, so the header's own magic check
                        // cannot fail here.
                        proof {
                            assert(false);
                        }
                        return (None, j);
                    },
                    Ok(Some(header)) => {
                        proof {
                            assert(t.subrange(2, 4) =~= data@.subrange(j + 2, j + 4));
                            assert(t[4] == data@[j + 4]);
                        }
                        let payload = slice_subrange(data.as_slice(), j + 8, data.len());
                        proof {
                            assert(payload@ =~= t.skip(8));
                        }
                        let outcome = decode_payload_for(&header, payload);
                        match outcome {
                            Ok(None) => {
                                // The payload decoder is still starved: the
                                // caller must supply more bytes and retry,
                                // and a retry must see the same header.
                                return (None, j);
                            },
                            Ok(Some(op)) => {
                                if data.len() - (j + HEADER_SIZE) >= header.size {
                                    return (Some(op), j + HEADER_SIZE + header.size);
                                } else {
                                    // The decoder could make sense of what
                                    // has arrived, but the header promises
                                    // more payload bytes than are buffered:
                                    // wait rather than consume.
                                    return (None, j);
                                }
                            },
                            Err(_) => {
                                // A permanently malformed frame: skip one
                                // byte past its start and resume scanning,
                                // so one bad frame cannot wedge the stream.
                                proof {
                                    assert(t.skip(1) =~= data@.skip(j + 1));
                                    assert(sp.skip(j - pos + 1) =~= data@.skip(j + 1));
                                }
                                pos = j + 1;
                            },
                        }
                    },
                }
            },
        }
    }
}

/// The frame codec. It holds no state of its own: the pending input buffer
/// is owned by the caller and passed in on every call, so independent
/// connections can run their own codecs concurrently.
pub struct EternalReckoningCodec;

impl EternalReckoningCodec {
    /// Encodes `packet` and appends its frame to `buf`.
    ///
    /// Encoding cannot fail on a well-formed operation; the `Result` shape
    /// is kept for the callers that thread transport errors through.
    pub fn encode(&mut self, packet: Operation, buf: &mut bytes::BytesMut) -> (r: Result<
        (),
        CodecError,
    >)
        requires
            packet@.wf(),
            spec_payload(packet@).len() <= u16::MAX,
        ensures
            r == Ok::<(), CodecError>(()),
            bytes_view(*final(buf)) == bytes_view(*old(buf)) + spec_frame(packet@),
    {
        let mut frame: Vec<u8> = Vec::new();
        encode_frame(packet, &mut frame);
        buf_extend(buf, &frame);
        Ok(())
    }

    /// Decodes the next operation out of `buf`, consuming exactly the bytes
    /// [`spec_decode`] accounts for: nothing when more data is needed, the
    /// skipped garbage and the whole frame when one is decoded.
    ///
    /// `Ok(None)` means "wait for more bytes"; corrupt and unrecognised
    /// frames are recovered from internally, so no error is ever returned.
    pub fn decode(&mut self, buf: &mut bytes::BytesMut) -> (r: Result<Option<Operation>, CodecError>)
        ensures
            ({
                let (op, used) = spec_decode(bytes_view(*old(buf)));
                &&& r matches Ok(o) && spec_opt_view(o) == op
                &&& bytes_view(*final(buf)) == bytes_view(*old(buf)).skip(used as int)
            }),
    {
        let data = buf_to_vec(buf);
        let (op, used) = decode_frame(&data);
        buf_advance(buf, used);
        Ok(op)
    }
}

} // verus!
