//! One encode/decode pair per operation kind, each working purely on the
//! payload region of a frame (the header is read and written elsewhere).
//!
//! Every decoder distinguishes "the declared size or a tag is impossible"
//! (an error) from "the bytes have not all arrived yet" (`Ok(None)`, never
//! an error), so that the frame codec can wait for more data without
//! corrupting its parse position.
use vstd::prelude::*;

use vstd::bytes::{
    spec_u32_from_le_bytes,
    spec_u32_to_le_bytes,
    spec_u64_from_le_bytes,
    spec_u64_to_le_bytes,
    u32_from_le_bytes,
    u32_to_le_bytes,
    u64_from_le_bytes,
    u64_to_le_bytes,
};
use vstd::slice::slice_subrange;

use crate::error::CodecError;
use crate::header::Header;
use crate::operation::{
    ClConnectMessage,
    ClMoveSetPosition,
    EntityComponent,
    EntityUpdate,
    EntityUpdateView,
    Operation,
    OperationView,
    Position,
    SvConnectResponse,
    SvUpdateWorld,
    Uuid,
};

verus! {

/// Component tag for a health value: one byte, then a little-endian u64.
pub const HEALTH_COMP: u8 = 0x01;

/// Component tag for a position: one byte, then three little-endian 64-bit
/// coordinate encodings.
pub const POSITION_COMP: u8 = 0x02;

// ---------------------------------------------------------------------------
// The payload encodings, as functions from values to byte sequences.
// ---------------------------------------------------------------------------
/// The bytes of one component record: its tag, then its fixed-size body.
pub open spec fn spec_encode_component(c: EntityComponent) -> Seq<u8> {
    match c {
        EntityComponent::Health(h) => seq![HEALTH_COMP] + spec_u64_to_le_bytes(h),
        EntityComponent::Position(p) => seq![POSITION_COMP] + spec_u64_to_le_bytes(p.x)
            + spec_u64_to_le_bytes(p.y) + spec_u64_to_le_bytes(p.z),
    }
}

/// The bytes of a run of component records, in order.
pub open spec fn spec_encode_components(cs: Seq<EntityComponent>) -> Seq<u8>
    decreases cs.len(),
{
    if cs.len() == 0 {
        Seq::empty()
    } else {
        spec_encode_component(cs[0]) + spec_encode_components(cs.skip(1))
    }
}

/// The bytes of one entity record: 16 identifier bytes, a little-endian
/// 4-byte component count, then the component records.
pub open spec fn spec_encode_entity(e: EntityUpdateView) -> Seq<u8>
    recommends
        e.wf(),
{
    e.uuid + spec_u32_to_le_bytes(e.data.len() as u32) + spec_encode_components(e.data)
}

/// The bytes of a run of entity records, in order.
pub open spec fn spec_encode_entities(es: Seq<EntityUpdateView>) -> Seq<u8>
    decreases es.len(),
{
    if es.len() == 0 {
        Seq::empty()
    } else {
        spec_encode_entity(es[0]) + spec_encode_entities(es.skip(1))
    }
}

/// The payload bytes of a frame carrying the given operation.
pub open spec fn spec_payload(op: OperationView) -> Seq<u8>
    recommends
        op.wf(),
{
    match op {
        OperationView::SvConnectResponse(uuid) => uuid,
        OperationView::SvUpdateWorld(es) => spec_u32_to_le_bytes(es.len() as u32)
            + spec_encode_entities(es),
        OperationView::ClMoveSetPosition(p) => spec_u64_to_le_bytes(p.x) + spec_u64_to_le_bytes(
            p.y,
        ) + spec_u64_to_le_bytes(p.z),
        _ => Seq::empty(),
    }
}

// ---------------------------------------------------------------------------
// The payload decodings, as functions from byte sequences to outcomes.
// ---------------------------------------------------------------------------
/// What decoding one component record from the front of a byte sequence
/// yields.
pub enum ComponentOutcome {
    /// The record is not complete yet; wait for more bytes.
    Incomplete,
    /// The tag byte is not a known component tag.
    Malformed,
    /// One component, and how many bytes its record occupied.
    One(EntityComponent, nat),
}

/// What decoding a run of component records yields.
pub enum ComponentsOutcome {
    Incomplete,
    Malformed,
    /// The components, and how many bytes their records occupied.
    Done(Seq<EntityComponent>, nat),
}

/// What decoding a run of entity records yields.
pub enum EntitiesOutcome {
    Incomplete,
    Malformed,
    /// The entity updates, and how many bytes their records occupied.
    Done(Seq<EntityUpdateView>, nat),
}

/// What a payload decoder yields for one frame.
pub enum PayloadOutcome {
    /// Not all payload bytes have arrived yet; not an error.
    Incomplete,
    /// The frame is permanently unusable.
    Failed(CodecError),
    /// The decoded operation.
    Decoded(OperationView),
}

/// Decoding one component record from the front of `s`: a tag byte, then a
/// body whose size the tag fixes. An unknown tag is a hard error, since no
/// length prefix would allow skipping the record.
pub open spec fn spec_decode_component(s: Seq<u8>) -> ComponentOutcome {
    if s.len() < 1 {
        ComponentOutcome::Incomplete
    } else if s[0] == HEALTH_COMP {
        if s.len() < 9 {
            ComponentOutcome::Incomplete
        } else {
            ComponentOutcome::One(
                EntityComponent::Health(spec_u64_from_le_bytes(s.subrange(1, 9))),
                9,
            )
        }
    } else if s[0] == POSITION_COMP {
        if s.len() < 25 {
            ComponentOutcome::Incomplete
        } else {
            ComponentOutcome::One(
                EntityComponent::Position(
                    Position {
                        x: spec_u64_from_le_bytes(s.subrange(1, 9)),
                        y: spec_u64_from_le_bytes(s.subrange(9, 17)),
                        z: spec_u64_from_le_bytes(s.subrange(17, 25)),
                    },
                ),
                25,
            )
        }
    } else {
        ComponentOutcome::Malformed
    }
}

/// `r`, with `pre` prepended to its components and `off` added to its byte
/// count.
pub open spec fn spec_components_prepend(
    pre: Seq<EntityComponent>,
    off: nat,
    r: ComponentsOutcome,
) -> ComponentsOutcome {
    match r {
        ComponentsOutcome::Incomplete => ComponentsOutcome::Incomplete,
        ComponentsOutcome::Malformed => ComponentsOutcome::Malformed,
        ComponentsOutcome::Done(cs, e) => ComponentsOutcome::Done(pre + cs, off + e),
    }
}

/// Decoding `n` component records from the front of `s`.
pub open spec fn spec_decode_components(s: Seq<u8>, n: nat) -> ComponentsOutcome
    decreases n,
{
    if n == 0 {
        ComponentsOutcome::Done(Seq::empty(), 0)
    } else {
        match spec_decode_component(s) {
            ComponentOutcome::Incomplete => ComponentsOutcome::Incomplete,
            ComponentOutcome::Malformed => ComponentsOutcome::Malformed,
            ComponentOutcome::One(c, k) => spec_components_prepend(
                seq![c],
                k,
                spec_decode_components(s.skip(k as int), (n - 1) as nat),
            ),
        }
    }
}

/// `r`, with `pre` prepended to its entities and `off` added to its byte
/// count.
pub open spec fn spec_entities_prepend(
    pre: Seq<EntityUpdateView>,
    off: nat,
    r: EntitiesOutcome,
) -> EntitiesOutcome {
    match r {
        EntitiesOutcome::Incomplete => EntitiesOutcome::Incomplete,
        EntitiesOutcome::Malformed => EntitiesOutcome::Malformed,
        EntitiesOutcome::Done(es, e) => EntitiesOutcome::Done(pre + es, off + e),
    }
}

/// Decoding `n` entity records from the front of `s`. Each record is 16
/// identifier bytes, a 4-byte component count, then that many component
/// records; sufficiency is checked before every read.
pub open spec fn spec_decode_entities(s: Seq<u8>, n: nat) -> EntitiesOutcome
    decreases n,
{
    if n == 0 {
        EntitiesOutcome::Done(Seq::empty(), 0)
    } else if s.len() < 20 {
        EntitiesOutcome::Incomplete
    } else {
        let uuid = s.subrange(0, 16);
        let cc = spec_u32_from_le_bytes(s.subrange(16, 20));
        match spec_decode_components(s.skip(20), cc as nat) {
            ComponentsOutcome::Incomplete => EntitiesOutcome::Incomplete,
            ComponentsOutcome::Malformed => EntitiesOutcome::Malformed,
            ComponentsOutcome::Done(cs, ce) => spec_entities_prepend(
                seq![EntityUpdateView { uuid, data: cs }],
                20 + ce,
                spec_decode_entities(s.skip(20 + ce as int), (n - 1) as nat),
            ),
        }
    }
}

/// Prepending twice is prepending once, with the parts joined.
pub proof fn lemma_components_prepend_compose(
    pre1: Seq<EntityComponent>,
    off1: nat,
    pre2: Seq<EntityComponent>,
    off2: nat,
    r: ComponentsOutcome,
)
    ensures
        spec_components_prepend(pre1, off1, spec_components_prepend(pre2, off2, r))
            == spec_components_prepend(pre1 + pre2, off1 + off2, r),
{
    match r {
        ComponentsOutcome::Done(cs, e) => {
            assert(pre1 + (pre2 + cs) =~= (pre1 + pre2) + cs);
        },
        _ => {},
    }
}

/// Prepending twice is prepending once, with the parts joined.
pub proof fn lemma_entities_prepend_compose(
    pre1: Seq<EntityUpdateView>,
    off1: nat,
    pre2: Seq<EntityUpdateView>,
    off2: nat,
    r: EntitiesOutcome,
)
    ensures
        spec_entities_prepend(pre1, off1, spec_entities_prepend(pre2, off2, r))
            == spec_entities_prepend(pre1 + pre2, off1 + off2, r),
{
    match r {
        EntitiesOutcome::Done(es, e) => {
            assert(pre1 + (pre2 + es) =~= (pre1 + pre2) + es);
        },
        _ => {},
    }
}

/// Decoding a connect request payload: no payload bytes are allowed, and
/// none are read.
pub open spec fn spec_decode_cl_connect(size: nat) -> PayloadOutcome {
    if size != 0 {
        PayloadOutcome::Failed(CodecError::BadData)
    } else {
        PayloadOutcome::Decoded(OperationView::ClConnectMessage)
    }
}

/// Decoding a connect response payload: exactly 16 identifier bytes.
pub open spec fn spec_decode_sv_connect_response(size: nat, s: Seq<u8>) -> PayloadOutcome {
    if size != 16 {
        PayloadOutcome::Failed(CodecError::BadData)
    } else if s.len() < 16 {
        PayloadOutcome::Incomplete
    } else {
        PayloadOutcome::Decoded(OperationView::SvConnectResponse(s.take(16)))
    }
}

/// Decoding a movement payload: exactly three little-endian 64-bit
/// coordinate encodings.
pub open spec fn spec_decode_cl_move_set_position(size: nat, s: Seq<u8>) -> PayloadOutcome {
    if size != 24 {
        PayloadOutcome::Failed(CodecError::BadData)
    } else if s.len() < 24 {
        PayloadOutcome::Incomplete
    } else {
        PayloadOutcome::Decoded(
            OperationView::ClMoveSetPosition(
                Position {
                    x: spec_u64_from_le_bytes(s.subrange(0, 8)),
                    y: spec_u64_from_le_bytes(s.subrange(8, 16)),
                    z: spec_u64_from_le_bytes(s.subrange(16, 24)),
                },
            ),
        )
    }
}

/// Decoding a world update payload: a 4-byte entity count, then that many
/// entity records.
pub open spec fn spec_decode_sv_update_world(size: nat, s: Seq<u8>) -> PayloadOutcome {
    if size < 4 {
        PayloadOutcome::Failed(CodecError::BadData)
    } else if s.len() < 4 {
        PayloadOutcome::Incomplete
    } else {
        match spec_decode_entities(s.skip(4), spec_u32_from_le_bytes(s.subrange(0, 4)) as nat) {
            EntitiesOutcome::Incomplete => PayloadOutcome::Incomplete,
            EntitiesOutcome::Malformed => PayloadOutcome::Failed(CodecError::BadData),
            EntitiesOutcome::Done(es, _e) => PayloadOutcome::Decoded(
                OperationView::SvUpdateWorld(es),
            ),
        }
    }
}

/// How an executable decoder's result realises a decoding outcome.
pub open spec fn outcome_matches(
    r: Result<Option<Operation>, CodecError>,
    o: PayloadOutcome,
) -> bool {
    match o {
        PayloadOutcome::Incomplete => r == Ok::<Option<Operation>, CodecError>(None),
        PayloadOutcome::Failed(e) => r == Err::<Option<Operation>, CodecError>(e),
        PayloadOutcome::Decoded(opv) => match r {
            Ok(Some(op)) => op@ == opv,
            _ => false,
        },
    }
}

// ---------------------------------------------------------------------------
// Executable encoders. Each appends its operation's payload bytes.
// ---------------------------------------------------------------------------
/// Appends the little-endian encoding of `v`.
fn push_u32_le(buf: &mut Vec<u8>, v: u32)
    ensures
        final(buf)@ == old(buf)@ + spec_u32_to_le_bytes(v),
{
    let mut bytes = u32_to_le_bytes(v);
    buf.append(&mut bytes);
}

/// Appends the little-endian encoding of `v`.
fn push_u64_le(buf: &mut Vec<u8>, v: u64)
    ensures
        final(buf)@ == old(buf)@ + spec_u64_to_le_bytes(v),
{
    let mut bytes = u64_to_le_bytes(v);
    buf.append(&mut bytes);
}

/// Appends `bytes` to `buf`.
fn push_bytes(buf: &mut Vec<u8>, bytes: &[u8])
    ensures
        final(buf)@ == old(buf)@ + bytes@,
{
    buf.extend_from_slice(bytes);
    proof {
        assert(buf@ =~= old(buf)@ + bytes@);
    }
}

/// Encoder for the operations that carry no payload: appends nothing.
pub fn encode_no_body(op: Operation, buf: &mut Vec<u8>)
    ensures
        final(buf)@ == old(buf)@,
{
    let _ = op;
}

/// Encoder for a connect response: the 16 identifier bytes, raw.
pub fn encode_sv_connect_response(op: Operation, buf: &mut Vec<u8>)
    requires
        op@ matches OperationView::SvConnectResponse(_),
    ensures
        final(buf)@ == old(buf)@ + spec_payload(op@),
{
    match op {
        Operation::SvConnectResponse(data) => {
            push_bytes(buf, data.uuid.as_bytes());
        },
        _ => {
            proof {
                assert(false);
            }
        },
    }
}

/// Encoder for a movement operation: the three coordinate encodings, little
/// endian, x then y then z.
pub fn encode_cl_move_set_position(op: Operation, buf: &mut Vec<u8>)
    requires
        op@ matches OperationView::ClMoveSetPosition(_),
    ensures
        final(buf)@ == old(buf)@ + spec_payload(op@),
{
    match op {
        Operation::ClMoveSetPosition(data) => {
            push_u64_le(buf, data.pos.x);
            push_u64_le(buf, data.pos.y);
            push_u64_le(buf, data.pos.z);
            proof {
                assert(buf@ =~= old(buf)@ + spec_payload(op@));
            }
        },
        _ => {
            proof {
                assert(false);
            }
        },
    }
}

/// Appends one component record: its tag byte, then its body.
fn encode_entity_component(data: &EntityComponent, buf: &mut Vec<u8>)
    ensures
        final(buf)@ == old(buf)@ + spec_encode_component(*data),
{
    match data {
        EntityComponent::Health(health) => {
            buf.push(HEALTH_COMP);
            push_u64_le(buf, *health);
            proof {
                assert(buf@ =~= old(buf)@ + spec_encode_component(*data));
            }
        },
        EntityComponent::Position(position) => {
            buf.push(POSITION_COMP);
            push_u64_le(buf, position.x);
            push_u64_le(buf, position.y);
            push_u64_le(buf, position.z);
            proof {
                assert(buf@ =~= old(buf)@ + spec_encode_component(*data));
            }
        },
    }
}

/// Appending one more value extends the encoding of a run of components at
/// its end.
pub proof fn lemma_encode_components_push(cs: Seq<EntityComponent>, c: EntityComponent)
    ensures
        spec_encode_components(cs.push(c)) == spec_encode_components(cs) + spec_encode_component(
            c,
        ),
    decreases cs.len(),
{
    reveal_with_fuel(spec_encode_components, 3);
    if cs.len() == 0 {
        assert(cs.push(c)[0] == c);
        assert(cs.push(c).skip(1) =~= Seq::<EntityComponent>::empty());
        assert(spec_encode_components(cs.push(c)) =~= spec_encode_components(cs)
            + spec_encode_component(c));
    } else {
        assert(cs.push(c).skip(1) =~= cs.skip(1).push(c));
        lemma_encode_components_push(cs.skip(1), c);
        assert(cs.push(c)[0] == cs[0]);
        assert(spec_encode_components(cs.push(c)) =~= spec_encode_components(cs)
            + spec_encode_component(c));
    }
}

/// Appending one more entity extends the encoding of a run of entities at
/// its end.
pub proof fn lemma_encode_entities_push(es: Seq<EntityUpdateView>, e: EntityUpdateView)
    ensures
        spec_encode_entities(es.push(e)) == spec_encode_entities(es) + spec_encode_entity(e),
    decreases es.len(),
{
    reveal_with_fuel(spec_encode_entities, 3);
    if es.len() == 0 {
        assert(es.push(e)[0] == e);
        assert(es.push(e).skip(1) =~= Seq::<EntityUpdateView>::empty());
        assert(spec_encode_entities(es.push(e)) =~= spec_encode_entities(es) + spec_encode_entity(
            e,
        ));
    } else {
        assert(es.push(e).skip(1) =~= es.skip(1).push(e));
        lemma_encode_entities_push(es.skip(1), e);
        assert(es.push(e)[0] == es[0]);
        assert(spec_encode_entities(es.push(e)) =~= spec_encode_entities(es) + spec_encode_entity(
            e,
        ));
    }
}

/// The encoding of a run of components splits at any index.
pub proof fn lemma_encode_components_split(cs: Seq<EntityComponent>, i: int)
    requires
        0 <= i <= cs.len(),
    ensures
        spec_encode_components(cs) == spec_encode_components(cs.take(i)) + spec_encode_components(
            cs.skip(i),
        ),
    decreases i,
{
    if i == 0 {
        assert(cs.take(0) =~= Seq::<EntityComponent>::empty());
        assert(cs.skip(0) =~= cs);
        assert(spec_encode_components(cs.take(0)) + spec_encode_components(cs)
            =~= spec_encode_components(cs));
    } else {
        lemma_encode_components_split(cs, i - 1);
        assert(cs.take(i) =~= cs.take(i - 1).push(cs[i - 1]));
        lemma_encode_components_push(cs.take(i - 1), cs[i - 1]);
        assert(cs.skip(i - 1)[0] == cs[i - 1]);
        assert(cs.skip(i - 1).skip(1) =~= cs.skip(i));
        assert(spec_encode_components(cs) =~= spec_encode_components(cs.take(i))
            + spec_encode_components(cs.skip(i)));
    }
}

/// The encoding of a run of entities splits at any index.
pub proof fn lemma_encode_entities_split(es: Seq<EntityUpdateView>, i: int)
    requires
        0 <= i <= es.len(),
    ensures
        spec_encode_entities(es) == spec_encode_entities(es.take(i)) + spec_encode_entities(
            es.skip(i),
        ),
    decreases i,
{
    if i == 0 {
        assert(es.take(0) =~= Seq::<EntityUpdateView>::empty());
        assert(es.skip(0) =~= es);
        assert(spec_encode_entities(es.take(0)) + spec_encode_entities(es) =~= spec_encode_entities(
            es,
        ));
    } else {
        lemma_encode_entities_split(es, i - 1);
        assert(es.take(i) =~= es.take(i - 1).push(es[i - 1]));
        lemma_encode_entities_push(es.take(i - 1), es[i - 1]);
        assert(es.skip(i - 1)[0] == es[i - 1]);
        assert(es.skip(i - 1).skip(1) =~= es.skip(i));
        assert(spec_encode_entities(es) =~= spec_encode_entities(es.take(i)) + spec_encode_entities(
            es.skip(i),
        ));
    }
}

/// Encoder for a world update: the entity count, then each entity's
/// identifier, component count and component records, in order.
#[verifier::loop_isolation(false)]
pub fn encode_sv_update_world(op: Operation, buf: &mut Vec<u8>)
    requires
        op@ matches OperationView::SvUpdateWorld(_),
        op@.wf(),
    ensures
        final(buf)@ == old(buf)@ + spec_payload(op@),
{
    match op {
        Operation::SvUpdateWorld(data) => {
            let ghost es = data@;
            push_u32_le(buf, data.updates.len() as u32);
            let ghost after_count = buf@;
            let mut i: usize = 0;
            while i < data.updates.len()
                invariant
                    i <= data.updates.len(),
                    es == data@,
                    es.len() <= u32::MAX,
                    forall|j: int| 0 <= j < es.len() ==> (#[trigger] es[j]).wf(),
                    buf@ == after_count + spec_encode_entities(es.take(i as int)),
                decreases data.updates.len() - i,
            {
                let entity = &data.updates[i];
                proof {
                    assert(es[i as int] == entity@);
                    assert(es[i as int].wf());
                }
                let ghost before_entity = buf@;
                push_bytes(buf, entity.uuid.as_bytes());
                push_u32_le(buf, entity.data.len() as u32);
                let ghost before_comps = buf@;
                let mut k: usize = 0;
                while k < entity.data.len()
                    invariant
                        k <= entity.data.len(),
                        buf@ == before_comps + spec_encode_components(entity.data@.take(k as int)),
                    decreases entity.data.len() - k,
                {
                    encode_entity_component(&entity.data[k], buf);
                    proof {
                        assert(entity.data@.take(k + 1) =~= entity.data@.take(k as int).push(
                            entity.data@[k as int],
                        ));
                        lemma_encode_components_push(
                            entity.data@.take(k as int),
                            entity.data@[k as int],
                        );
                    }
                    k = k + 1;
                }
                proof {
                    assert(entity.data@.take(entity.data@.len() as int) =~= entity.data@);
                    assert(buf@ =~= before_entity + spec_encode_entity(es[i as int]));
                    assert(es.take(i + 1) =~= es.take(i as int).push(es[i as int]));
                    lemma_encode_entities_push(es.take(i as int), es[i as int]);
                    assert(buf@ =~= after_count + spec_encode_entities(es.take(i + 1)));
                }
                i = i + 1;
            }
            proof {
                assert(es.take(es.len() as int) =~= es);
                assert(buf@ =~= old(buf)@ + spec_payload(op@));
            }
        },
        _ => {
            proof {
                assert(false);
            }
        },
    }
}

// ---------------------------------------------------------------------------
// Executable decoders. Each reads the payload region handed to it and
// never consumes from the caller's buffer.
// ---------------------------------------------------------------------------
/// Decoder registered for every opcode that has no meaning: always fails.
pub fn decode_invalid_op(header: &Header, buf: &[u8]) -> (r: Result<Option<Operation>, CodecError>)
    ensures
        r == Err::<Option<Operation>, CodecError>(CodecError::InvalidOpcode(header.opcode)),
{
    let _ = buf;
    Err(CodecError::InvalidOpcode(header.opcode))
}

/// Decoder for a connect request: rejects a nonzero declared size and reads
/// no payload bytes.
pub fn decode_cl_connect_message(header: &Header, buf: &[u8]) -> (r: Result<
    Option<Operation>,
    CodecError,
>)
    ensures
        outcome_matches(r, spec_decode_cl_connect(header.size as nat)),
{
    let _ = buf;
    if header.size != 0 {
        return Err(CodecError::BadData);
    }
    Ok(Some(Operation::ClConnectMessage(ClConnectMessage)))
}

/// Decoder for a connect response: 16 identifier bytes, once they are all
/// buffered.
pub fn decode_sv_connect_response(header: &Header, buf: &[u8]) -> (r: Result<
    Option<Operation>,
    CodecError,
>)
    ensures
        outcome_matches(r, spec_decode_sv_connect_response(header.size as nat, buf@)),
{
    if header.size != 16 {
        return Err(CodecError::BadData);
    }
    if buf.len() < 16 {
        return Ok(None);
    }
    let uuid_bytes = slice_subrange(buf, 0, 16);
    match Uuid::from_slice(uuid_bytes) {
        Some(uuid) => Ok(Some(Operation::SvConnectResponse(SvConnectResponse { uuid }))),
        None => {
            proof {
                assert(false);
            }
            Ok(None)
        },
    }
}

/// Decoder for a movement operation: three coordinate encodings, once they
/// are all buffered.
pub fn decode_cl_move_set_position(header: &Header, buf: &[u8]) -> (r: Result<
    Option<Operation>,
    CodecError,
>)
    ensures
        outcome_matches(r, spec_decode_cl_move_set_position(header.size as nat, buf@)),
{
    if header.size != 24 {
        return Err(CodecError::BadData);
    }
    if buf.len() < 24 {
        return Ok(None);
    }
    let x = u64_from_le_bytes(slice_subrange(buf, 0, 8));
    let y = u64_from_le_bytes(slice_subrange(buf, 8, 16));
    let z = u64_from_le_bytes(slice_subrange(buf, 16, 24));
    Ok(Some(Operation::ClMoveSetPosition(ClMoveSetPosition { pos: Position { x, y, z } })))
}

/// Decoder for the end-of-stream sentinel: succeeds at once, reading
/// nothing.
pub fn decode_disconnect_message(header: &Header, buf: &[u8]) -> (r: Result<
    Option<Operation>,
    CodecError,
>)
    ensures
        outcome_matches(r, PayloadOutcome::Decoded(OperationView::DisconnectMessage)),
{
    let _ = header;
    let _ = buf;
    Ok(Some(Operation::DisconnectMessage))
}

/// Decodes one component record at offset `at`.
fn decode_entity_component(buf: &[u8], at: usize) -> (r: Result<
    Option<(usize, EntityComponent)>,
    CodecError,
>)
    requires
        at <= buf@.len(),
    ensures
        match spec_decode_component(buf@.skip(at as int)) {
            ComponentOutcome::Incomplete => r == Ok::<Option<(usize, EntityComponent)>, CodecError>(
                None,
            ),
            ComponentOutcome::Malformed => r == Err::<Option<(usize, EntityComponent)>, CodecError>(
                CodecError::BadData,
            ),
            ComponentOutcome::One(c, k) => {
                &&& r == Ok::<Option<(usize, EntityComponent)>, CodecError>(
                    Some((k as usize, c)),
                )
                &&& at + k <= buf@.len()
            },
        },
{
    let ghost s = buf@.skip(at as int);
    if buf.len() - at < 1 {
        return Ok(None);
    }
    let tag = buf[at];
    assert(tag == s[0]);
    if tag == HEALTH_COMP {
        if buf.len() - at < 9 {
            return Ok(None);
        }
        let body = slice_subrange(buf, at + 1, at + 9);
        proof {
            assert(body@ =~= s.subrange(1, 9));
        }
        let health = u64_from_le_bytes(body);
        Ok(Some((9, EntityComponent::Health(health))))
    } else if tag == POSITION_COMP {
        if buf.len() - at < 25 {
            return Ok(None);
        }
        let bx = slice_subrange(buf, at + 1, at + 9);
        let by = slice_subrange(buf, at + 9, at + 17);
        let bz = slice_subrange(buf, at + 17, at + 25);
        proof {
            assert(bx@ =~= s.subrange(1, 9));
            assert(by@ =~= s.subrange(9, 17));
            assert(bz@ =~= s.subrange(17, 25));
        }
        let x = u64_from_le_bytes(bx);
        let y = u64_from_le_bytes(by);
        let z = u64_from_le_bytes(bz);
        Ok(Some((25, EntityComponent::Position(Position { x, y, z }))))
    } else {
        Err(CodecError::BadData)
    }
}

/// Decoder for a world update: an entity count, then that many entity
/// records, each carrying its own component records. Sufficiency is checked
/// at every nested boundary, and the moment any boundary cannot be
/// satisfied the decoder reports "not yet" rather than an error.
#[verifier::loop_isolation(false)]
pub fn decode_sv_update_world(header: &Header, buf: &[u8]) -> (r: Result<
    Option<Operation>,
    CodecError,
>)
    ensures
        outcome_matches(r, spec_decode_sv_update_world(header.size as nat, buf@)),
{
    if header.size < 4 {
        return Err(CodecError::BadData);
    }
    if buf.len() < 4 {
        return Ok(None);
    }
    let data_count = u32_from_le_bytes(slice_subrange(buf, 0, 4));
    let ghost s4 = buf@.skip(4);
    let mut updates: Vec<EntityUpdate> = Vec::new();
    let mut pos: usize = 4;
    let mut i: u32 = 0;
    while i < data_count
        invariant
            4 <= pos <= buf@.len(),
            i <= data_count,
            updates@.len() == i,
            s4 == buf@.skip(4),
            data_count == spec_u32_from_le_bytes(buf@.subrange(0, 4)),
            spec_decode_entities(s4, data_count as nat) == spec_entities_prepend(
                updates@.map_values(|e: EntityUpdate| e@),
                (pos - 4) as nat,
                spec_decode_entities(buf@.skip(pos as int), (data_count - i) as nat),
            ),
        decreases data_count - i,
    {
        let ghost sp = buf@.skip(pos as int);
        if buf.len() - pos < 20 {
            return Ok(None);
        }
        let uuid_bytes = slice_subrange(buf, pos, pos + 16);
        proof {
            assert(uuid_bytes@ =~= sp.subrange(0, 16));
        }
        let uuid = match Uuid::from_slice(uuid_bytes) {
            Some(uuid) => uuid,
            None => {
                proof {
                    assert(false);
                }
                return Ok(None);
            },
        };
        let count_bytes = slice_subrange(buf, pos + 16, pos + 20);
        proof {
            assert(count_bytes@ =~= sp.subrange(16, 20));
        }
        let component_count = u32_from_le_bytes(count_bytes);
        let ghost sc = buf@.skip(pos + 20);
        proof {
            assert(sp.skip(20) =~= sc);
            assert(sp.subrange(0, 16) == uuid@);
        }
        let mut component_data: Vec<EntityComponent> = Vec::new();
        let mut cpos: usize = pos + 20;
        let mut k: u32 = 0;
        while k < component_count
            invariant
                pos + 20 <= cpos <= buf@.len(),
                k <= component_count,
                component_data@.len() == k,
                sc == buf@.skip(pos + 20),
                spec_decode_components(sc, component_count as nat) == spec_components_prepend(
                    component_data@,
                    (cpos - pos - 20) as nat,
                    spec_decode_components(buf@.skip(cpos as int), (component_count - k) as nat),
                ),
            decreases component_count - k,
        {
            match decode_entity_component(buf, cpos) {
                Ok(Some((size, component))) => {
                    proof {
                        let scur = buf@.skip(cpos as int);
                        let n = (component_count - k) as nat;
                        assert(spec_decode_component(scur) == ComponentOutcome::One(
                            component,
                            size as nat,
                        ));
                        assert(cpos + size <= buf@.len());
                        assert(scur.skip(size as int) =~= buf@.skip(cpos + size));
                        let rest = spec_decode_components(
                            buf@.skip(cpos + size),
                            (n - 1) as nat,
                        );
                        assert(spec_decode_components(scur, n) == spec_components_prepend(
                            seq![component],
                            size as nat,
                            rest,
                        ));
                        lemma_components_prepend_compose(
                            component_data@,
                            (cpos - pos - 20) as nat,
                            seq![component],
                            size as nat,
                            rest,
                        );
                        assert(component_data@.push(component) =~= component_data@ + seq![
                            component,
                        ]);
                    }
                    component_data.push(component);
                    cpos = cpos + size;
                    k = k + 1;
                },
                Ok(None) => {
                    return Ok(None);
                },
                Err(err) => {
                    return Err(err);
                },
            }
        }
        let ghost euv = EntityUpdateView { uuid: uuid@, data: component_data@ };
        let ghost prev_views = updates@.map_values(|e: EntityUpdate| e@);
        proof {
            let n = (data_count - i) as nat;
            let ce = (cpos - pos - 20) as nat;
            // The inner run of components is complete at offset cpos.
            assert(spec_decode_components(buf@.skip(cpos as int), 0) == ComponentsOutcome::Done(
                Seq::<EntityComponent>::empty(),
                0,
            ));
            assert(component_data@ + Seq::<EntityComponent>::empty() =~= component_data@);
            assert(spec_decode_components(sc, component_count as nat) == ComponentsOutcome::Done(
                component_data@,
                ce,
            ));
            // Unfold one entity record at sp.
            assert(sp.subrange(0, 16) == uuid@);
            assert(sp.skip(20) =~= sc);
            assert(sp.skip(20 + ce as int) =~= buf@.skip(cpos as int));
            let rest = spec_decode_entities(buf@.skip(cpos as int), (n - 1) as nat);
            assert(spec_decode_entities(sp, n) == spec_entities_prepend(
                seq![euv],
                (cpos - pos) as nat,
                rest,
            ));
            lemma_entities_prepend_compose(
                prev_views,
                (pos - 4) as nat,
                seq![euv],
                (cpos - pos) as nat,
                rest,
            );
            assert(prev_views.push(euv) =~= prev_views + seq![euv]);
        }
        updates.push(EntityUpdate { uuid, data: component_data });
        pos = cpos;
        i = i + 1;
        proof {
            assert(updates@.map_values(|e: EntityUpdate| e@) =~= prev_views.push(euv));
        }
    }
    proof {
        assert(spec_decode_entities(buf@.skip(pos as int), 0) == EntitiesOutcome::Done(
            Seq::<EntityUpdateView>::empty(),
            0,
        ));
        assert(updates@.map_values(|e: EntityUpdate| e@) + Seq::<EntityUpdateView>::empty()
            =~= updates@.map_values(|e: EntityUpdate| e@));
    }
    let r = Operation::SvUpdateWorld(SvUpdateWorld { updates });
    proof {
        let views = match r@ {
            OperationView::SvUpdateWorld(es) => es,
            _ => Seq::empty(),
        };
        match &r {
            Operation::SvUpdateWorld(d) => {
                assert(views =~= d.updates@.map_values(|e: EntityUpdate| e@));
            },
            _ => {},
        }
    }
    Ok(Some(r))
}

} // verus!
