//! Tests for the frame codec: the original protocol scenarios, plus
//! concrete checks for resynchronisation, starvation and the exact wire
//! image of every operation kind.
use bytes::{BufMut, BytesMut};

use eternalreckoning_codec::codec::{decode_frame, encodable};
use eternalreckoning_codec::encdec::{
    decode_cl_connect_message, decode_invalid_op, decode_sv_connect_response,
    decode_sv_update_world,
};
use eternalreckoning_codec::error::CodecError;
use eternalreckoning_codec::header::Header;
use eternalreckoning_codec::opcode::{
    CL_CONNECT_MESSAGE_OP, CL_MOVE_SET_POSITION_OP, SV_CONNECT_RESPONSE_OP, SV_UPDATE_WORLD_OP,
};
use eternalreckoning_codec::operation::{
    ClConnectMessage, ClMoveSetPosition, ClSync, EntityComponent, EntityUpdate, Operation,
    Position, SvConnectResponse, SvUpdateWorld, Uuid,
};
use eternalreckoning_codec::EternalReckoningCodec;

fn uuid_of(bytes: &[u8]) -> Uuid {
    Uuid::from_slice(bytes).expect("16 uuid bytes")
}

#[test]
fn test_encode_header() {
    let mut codec = EternalReckoningCodec;
    let mut buf = BytesMut::with_capacity(8);

    let op = Operation::ClConnectMessage(ClConnectMessage);

    codec.encode(op, &mut buf).unwrap();

    // magic
    assert_eq!(buf[0], 0xEC);
    assert_eq!(buf[1], 0xAA);

    // size
    assert_eq!(u16::from_le_bytes([buf[2], buf[3]]), 0);

    // opcode
    assert_eq!(buf[4], CL_CONNECT_MESSAGE_OP);

    // padding
    assert_eq!(buf.len() - 5, 3);
}

#[test]
fn test_decode_empty_buffer() {
    let mut codec = EternalReckoningCodec;
    let mut buf = BytesMut::from(&[][..]);

    match codec.decode(&mut buf) {
        Ok(Some(Operation::DisconnectMessage)) => (),
        _ => panic!("Invalid decode for EOF"),
    }
}

#[test]
fn test_decode_header() {
    let mut codec = EternalReckoningCodec;
    let mut buf = BytesMut::with_capacity(8);

    // magic
    buf.put_slice(&[0xEC, 0xAA][..]);

    // size
    buf.put_u16_le(0);

    // opcode
    buf.put_u8(CL_CONNECT_MESSAGE_OP);

    // padding
    buf.put_slice(&[0x00, 0x00, 0x00][..]);

    match codec.decode(&mut buf) {
        Ok(Some(Operation::ClConnectMessage(ClConnectMessage))) => (),
        _ => panic!("Invalid decode for ClConnectMessage"),
    }
}

#[test]
fn test_decode_empty_world_update() {
    let mut codec = EternalReckoningCodec;
    let mut buf = BytesMut::with_capacity(8 + 24);

    let uuid = uuid::Uuid::from_slice(&b"\xd1qHq\xdb\xbdNe\xa9f\xc6\xe5|I\xbaG"[..]).unwrap();

    // header
    buf.put_slice(&b"\xec\xaa"[..]);
    buf.put_u16_le(24);
    buf.put_u8(SV_UPDATE_WORLD_OP);
    buf.put_slice(&b"\0\0\0"[..]);

    // entity count
    buf.put_u32_le(1);

    // UUID
    for byte in uuid.as_bytes() {
        buf.put_u8(*byte);
    }

    // component count
    buf.put_u32_le(0);

    match codec.decode(&mut buf) {
        Ok(Some(Operation::SvUpdateWorld(data))) => {
            assert_eq!(data.updates.len(), 1);
            let update = data.updates.get(0).unwrap();

            assert_eq!(update.uuid.as_bytes(), &uuid.as_bytes()[..]);
            assert_eq!(update.data.len(), 0);
        },
        _ => panic!("Invalid decode for SvUpdateWorld"),
    }
}

// The exact eight bytes of a payload-free frame: magic, zero size, the
// client-connect opcode, three zero padding bytes.
#[test]
fn client_connect_frame_bytes() {
    let mut codec = EternalReckoningCodec;
    let mut buf = BytesMut::new();
    codec
        .encode(Operation::ClConnectMessage(ClConnectMessage), &mut buf)
        .unwrap();
    assert_eq!(&buf[..], &[0xEC, 0xAA, 0x00, 0x00, 0x02, 0x00, 0x00, 0x00][..]);
}

// Encoding one entity with no components: payload is 4 count bytes, 16
// identifier bytes and 4 component-count bytes, and decoding restores the
// update.
#[test]
fn world_update_single_entity_round_trip() {
    let mut codec = EternalReckoningCodec;
    let uuid_bytes = b"\xd1qHq\xdb\xbdNe\xa9f\xc6\xe5|I\xbaG";
    let op = Operation::SvUpdateWorld(SvUpdateWorld {
        updates: vec![EntityUpdate { uuid: uuid_of(uuid_bytes), data: vec![] }],
    });

    let mut buf = BytesMut::new();
    codec.encode(op, &mut buf).unwrap();

    // declared payload size: 4 (count) + 16 (UUID) + 4 (component count)
    assert_eq!(u16::from_le_bytes([buf[2], buf[3]]), 24);
    assert_eq!(buf.len(), 8 + 24);

    match codec.decode(&mut buf) {
        Ok(Some(Operation::SvUpdateWorld(data))) => {
            assert_eq!(data.updates.len(), 1);
            assert_eq!(data.updates[0].uuid.as_bytes(), &uuid_bytes[..]);
            assert!(data.updates[0].data.is_empty());
        },
        _ => panic!("decoded as incorrect operation"),
    }
    assert_eq!(buf.len(), 0);
}

// Decoding an empty buffer yields the synthetic disconnect and consumes
// nothing; the pure pass reports zero bytes to discard.
#[test]
fn empty_buffer_consumes_nothing() {
    let (op, used) = decode_frame(&vec![]);
    assert!(matches!(op, Some(Operation::DisconnectMessage)));
    assert_eq!(used, 0);
}

// A world-update frame with an unknown component tag is rejected as bad
// data: no partial entity comes out, the codec steps past the frame start
// and a following valid frame still decodes.
#[test]
fn unknown_component_tag_rejected() {
    let mut codec = EternalReckoningCodec;
    let mut buf = BytesMut::new();

    // header: payload is count + UUID + component count + tag + u64 body
    buf.put_slice(&[0xEC, 0xAA][..]);
    buf.put_u16_le(4 + 16 + 4 + 1 + 8);
    buf.put_u8(SV_UPDATE_WORLD_OP);
    buf.put_slice(&[0x00, 0x00, 0x00][..]);
    buf.put_u32_le(1);
    buf.put_slice(&[0x11; 16][..]); // no magic bytes inside
    buf.put_u32_le(1);
    buf.put_u8(0xFF); // unknown component tag
    buf.put_u64_le(7);

    let before = buf.len();
    match codec.decode(&mut buf) {
        Ok(None) => (),
        _ => panic!("a bad frame must be skipped, not decoded or surfaced"),
    }
    // the codec advanced past the bad frame's start to keep scanning
    assert_eq!(buf.len(), before - 1);

    // a valid frame appended afterwards is still found and decoded
    buf.put_slice(&[0xEC, 0xAA, 0x00, 0x00, 0x02, 0x00, 0x00, 0x00][..]);
    match codec.decode(&mut buf) {
        Ok(Some(Operation::ClConnectMessage(ClConnectMessage))) => (),
        _ => panic!("resynchronisation failed after a bad frame"),
    }
    assert_eq!(buf.len(), 0);
}

// Garbage without a magic sequence before a valid frame is skipped and the
// frame decodes, whatever the garbage length.
#[test]
fn resynchronisation_after_garbage() {
    for n in [0usize, 1, 7, 8, 200] {
        let mut codec = EternalReckoningCodec;
        let mut buf = BytesMut::new();
        buf.put_slice(&vec![0x55u8; n][..]);
        buf.put_slice(&[0xEC, 0xAA, 0x00, 0x00, 0x02, 0x00, 0x00, 0x00][..]);
        match codec.decode(&mut buf) {
            Ok(Some(Operation::ClConnectMessage(ClConnectMessage))) => (),
            _ => panic!("failed to decode behind {} garbage bytes", n),
        }
        assert_eq!(buf.len(), 0);
    }
}

// Every strict prefix of a valid frame decodes to "need more bytes" and
// leaves the buffer byte-for-byte unchanged.
#[test]
fn starved_prefixes_leave_buffer_unchanged() {
    let mut codec = EternalReckoningCodec;
    let uuid_bytes = b"\x13\xfc\x8c\x89yjBG\x9c\xfc\xf4\ng\x84\x19)";
    let op = Operation::SvUpdateWorld(SvUpdateWorld {
        updates: vec![EntityUpdate {
            uuid: uuid_of(uuid_bytes),
            data: vec![
                EntityComponent::Health(77),
                EntityComponent::Position(Position {
                    x: 0.0f64.to_bits(),
                    y: 1.0f64.to_bits(),
                    z: 2.0f64.to_bits(),
                }),
            ],
        }],
    });
    let mut frame = BytesMut::new();
    codec.encode(op, &mut frame).unwrap();

    for k in 1..frame.len() {
        let mut buf = BytesMut::new();
        buf.put_slice(&frame[..k]);
        let before: Vec<u8> = buf.as_ref().to_vec();
        match codec.decode(&mut buf) {
            Ok(None) => (),
            Ok(Some(_)) => panic!("decoded packet from an incomplete buffer"),
            Err(_) => panic!("decoding error from a valid stream"),
        }
        assert_eq!(&buf[..], &before[..], "a starved decode must not consume");
    }
}

// Round trip for each operation kind that carries a payload, with exact
// coordinate bit patterns.
#[test]
fn connect_response_round_trip() {
    let mut codec = EternalReckoningCodec;
    let uuid_bytes = b"\x00\x01\x02\x03\x04\x05\x06\x07\x08\x09\x0a\x0b\x0c\x0d\x0e\x0f";
    let op = Operation::SvConnectResponse(SvConnectResponse { uuid: uuid_of(uuid_bytes) });
    let mut buf = BytesMut::new();
    codec.encode(op, &mut buf).unwrap();
    assert_eq!(buf.len(), 8 + 16);
    assert_eq!(buf[4], SV_CONNECT_RESPONSE_OP);
    match codec.decode(&mut buf) {
        Ok(Some(Operation::SvConnectResponse(data))) => {
            assert_eq!(data.uuid.as_bytes(), &uuid_bytes[..]);
        },
        _ => panic!("decoded as incorrect operation"),
    }
    assert_eq!(buf.len(), 0);
}

#[test]
fn move_set_position_round_trip() {
    let mut codec = EternalReckoningCodec;
    let op = Operation::ClMoveSetPosition(ClMoveSetPosition {
        pos: Position {
            x: 0.0f64.to_bits(),
            y: 1.0f64.to_bits(),
            z: 2.0f64.to_bits(),
        },
    });
    let mut buf = BytesMut::new();
    codec.encode(op, &mut buf).unwrap();
    assert_eq!(buf.len(), 8 + 24);
    assert_eq!(buf[4], CL_MOVE_SET_POSITION_OP);
    match codec.decode(&mut buf) {
        Ok(Some(Operation::ClMoveSetPosition(data))) => {
            assert_eq!(f64::from_bits(data.pos.x), 0.0);
            assert_eq!(f64::from_bits(data.pos.y), 1.0);
            assert_eq!(f64::from_bits(data.pos.z), 2.0);
        },
        _ => panic!("Operation != ClMoveSetPosition"),
    }
    assert_eq!(buf.len(), 0);
}

#[test]
fn world_update_components_round_trip() {
    let mut codec = EternalReckoningCodec;
    let uuid_bytes = b"\x13\xfc\x8c\x89yjBG\x9c\xfc\xf4\ng\x84\x19)";
    let op = Operation::SvUpdateWorld(SvUpdateWorld {
        updates: vec![EntityUpdate {
            uuid: uuid_of(uuid_bytes),
            data: vec![
                EntityComponent::Health(u64::MAX),
                EntityComponent::Position(Position {
                    x: 1.5f64.to_bits(),
                    y: (-2.25f64).to_bits(),
                    z: 0.0f64.to_bits(),
                }),
            ],
        }],
    });

    let mut buf = BytesMut::new();
    codec.encode(op, &mut buf).unwrap();
    // payload: 4 + (16 + 4 + (1 + 8) + (1 + 24))
    assert_eq!(u16::from_le_bytes([buf[2], buf[3]]), 58);
    // the health body is the little-endian u64, here all ones
    assert_eq!(&buf[8 + 4 + 16 + 4 + 1..8 + 4 + 16 + 4 + 1 + 8], &[0xFF; 8][..]);

    match codec.decode(&mut buf) {
        Ok(Some(Operation::SvUpdateWorld(data))) => {
            assert_eq!(data.updates.len(), 1);
            let update = &data.updates[0];
            assert_eq!(update.uuid.as_bytes(), &uuid_bytes[..]);
            assert_eq!(update.data.len(), 2);
            assert!(matches!(update.data[0], EntityComponent::Health(u64::MAX)));
            match &update.data[1] {
                EntityComponent::Position(p) => {
                    assert_eq!(f64::from_bits(p.x), 1.5);
                    assert_eq!(f64::from_bits(p.y), -2.25);
                    assert_eq!(f64::from_bits(p.z), 0.0);
                },
                _ => panic!("decoded as incorrect component update"),
            }
        },
        _ => panic!("decoded as incorrect operation"),
    }
    assert_eq!(buf.len(), 0);
}

#[test]
fn disconnect_round_trip() {
    let mut codec = EternalReckoningCodec;
    let mut buf = BytesMut::new();
    codec.encode(Operation::DisconnectMessage, &mut buf).unwrap();
    assert_eq!(buf.len(), 8);
    assert_eq!(buf[4], 0xFF);
    match codec.decode(&mut buf) {
        Ok(Some(Operation::DisconnectMessage)) => (),
        _ => panic!("decoded as incorrect operation"),
    }
    assert_eq!(buf.len(), 0);
}

// The error taxonomy: an unassigned opcode and impossible declared sizes.
#[test]
fn invalid_opcode_error() {
    let header = Header::new(0x42, 0);
    match decode_invalid_op(&header, &[]) {
        Err(CodecError::InvalidOpcode(0x42)) => (),
        _ => panic!("expected the invalid-opcode error"),
    }
}

#[test]
fn bad_declared_sizes_error() {
    // a connect request must declare no payload
    let header = Header::new(CL_CONNECT_MESSAGE_OP, 5);
    assert_eq!(decode_cl_connect_message(&header, &[]), Err(CodecError::BadData));

    // a connect response must declare exactly 16 bytes
    let header = Header::new(SV_CONNECT_RESPONSE_OP, 15);
    assert_eq!(decode_sv_connect_response(&header, &[0u8; 15]), Err(CodecError::BadData));

    // a world update must declare at least its entity count
    let header = Header::new(SV_UPDATE_WORLD_OP, 3);
    assert_eq!(decode_sv_update_world(&header, &[0u8; 3]), Err(CodecError::BadData));
}

// The scanner: a match behind garbage is found, and a lone first magic byte
// at the tail is left for the next call.
#[test]
fn scanner_finds_next_magic() {
    let buf: Vec<u8> = vec![0x00, 0xEC, 0x00, 0xEC, 0xAA, 0x01];
    assert_eq!(Header::find(&buf, 0), Some(3));
    assert_eq!(Header::find(&buf, 4), None);
    let tail: Vec<u8> = vec![0x00, 0xEC];
    assert_eq!(Header::find(&tail, 0), None);
}

#[test]
fn header_read_distinguishes_short_and_bad() {
    // fewer than 8 bytes: not yet a header
    let short: Vec<u8> = vec![0xEC, 0xAA, 0x00];
    assert_eq!(Header::read(&short, 0), Ok(None));

    // 8 bytes without the magic in front: bad data, skip forward
    let bad: Vec<u8> = vec![0x00; 8];
    assert_eq!(Header::read(&bad, 0), Err(CodecError::BadData));

    // a well-formed header
    let good: Vec<u8> = vec![0xEC, 0xAA, 0x18, 0x00, 0x10, 0x00, 0x00, 0x00];
    match Header::read(&good, 0) {
        Ok(Some(h)) => {
            assert_eq!(h.size, 24);
            assert_eq!(h.opcode, SV_UPDATE_WORLD_OP);
        },
        _ => panic!("expected a parsed header"),
    }
}

#[test]
fn uuid_requires_sixteen_bytes() {
    assert!(Uuid::from_slice(&[0u8; 15]).is_none());
    assert!(Uuid::from_slice(&[0u8; 17]).is_none());
    let u = Uuid::from_slice(&[9u8; 16]).expect("16 bytes make an identifier");
    assert_eq!(u.as_bytes(), &[9u8; 16][..]);
}

// Garbage holding no magic sequence is kept: the decoder reports "need
// more bytes" without consuming, since a magic sequence may yet complete.
#[test]
fn garbage_without_magic_is_kept() {
    let mut codec = EternalReckoningCodec;
    let mut buf = BytesMut::new();
    buf.put_slice(&[0x55u8; 100][..]);
    match codec.decode(&mut buf) {
        Ok(None) => (),
        _ => panic!("garbage without a magic sequence must only starve"),
    }
    assert_eq!(buf.len(), 100);
}

// The synchronisation markers encode as header-only frames, but no decoder
// is assigned to their opcodes: the receiving side skips such a frame as
// unrecognised instead of decoding it.
#[test]
fn sync_frames_are_skipped_as_unassigned() {
    let mut codec = EternalReckoningCodec;
    let mut buf = BytesMut::new();
    codec.encode(Operation::ClSync(ClSync), &mut buf).unwrap();
    assert_eq!(&buf[..], &[0xEC, 0xAA, 0x00, 0x00, 0x00, 0x00, 0x00, 0x00][..]);
    match codec.decode(&mut buf) {
        Ok(None) => (),
        _ => panic!("an unassigned opcode must be skipped, not decoded"),
    }
    // the codec stepped past the frame start to resynchronise
    assert_eq!(buf.len(), 7);
}

// The encodability check: a world update whose payload exceeds the 16-bit
// size field is refused, one just within it round-trips.
#[test]
fn world_update_size_limit() {
    // each entity record with no components occupies 20 payload bytes
    let entity = |n: u8| EntityUpdate { uuid: uuid_of(&[n; 16]), data: vec![] };

    // 4 + 3276 * 20 = 65524 <= 65535
    let fitting = Operation::SvUpdateWorld(SvUpdateWorld {
        updates: (0..3276).map(|i| entity(i as u8)).collect(),
    });
    assert!(encodable(&fitting));
    let mut codec = EternalReckoningCodec;
    let mut buf = BytesMut::new();
    codec.encode(fitting, &mut buf).unwrap();
    assert_eq!(u16::from_le_bytes([buf[2], buf[3]]), 65524);
    match codec.decode(&mut buf) {
        Ok(Some(Operation::SvUpdateWorld(data))) => assert_eq!(data.updates.len(), 3276),
        _ => panic!("decoded as incorrect operation"),
    }
    assert_eq!(buf.len(), 0);

    // 4 + 3277 * 20 = 65544 > 65535
    let oversized = Operation::SvUpdateWorld(SvUpdateWorld {
        updates: (0..3277).map(|i| entity(i as u8)).collect(),
    });
    assert!(!encodable(&oversized));
}

#[test]
fn describe_names_operations() {
    assert_eq!(
        Operation::ClConnectMessage(ClConnectMessage).describe(),
        "(client) connect message"
    );
    assert_eq!(Operation::DisconnectMessage.describe(), "disconnected");
    assert_eq!(CodecError::BadData.describe(), "invalid data");
}
