//! The protocol's laws: what the codec guarantees across whole
//! encode/decode cycles, stated over the same specification functions that
//! the executable functions' contracts use.
use vstd::prelude::*;

use vstd::bytes::{
    lemma_auto_spec_u16_to_from_le_bytes,
    lemma_auto_spec_u32_to_from_le_bytes,
    lemma_auto_spec_u64_to_from_le_bytes,
    spec_u16_from_le_bytes,
    spec_u32_to_le_bytes,
    spec_u64_to_le_bytes,
};

use crate::codec::{spec_decode, spec_decode_from, spec_decode_payload, spec_frame};
use crate::encdec::{
    spec_decode_component,
    spec_decode_components,
    spec_decode_entities,
    spec_encode_component,
    spec_encode_components,
    spec_encode_entities,
    spec_encode_entity,
    spec_payload,
    ComponentOutcome,
    ComponentsOutcome,
    EntitiesOutcome,
    PayloadOutcome,
    HEALTH_COMP,
    POSITION_COMP,
};
use crate::header::{lemma_find_magic, spec_find_magic, spec_magic_at, MAGIC_0, MAGIC_1};
use crate::opcode::spec_opcode;
use crate::operation::{EntityComponent, EntityUpdateView, OperationView, Position};

verus! {

// ---------------------------------------------------------------------------
// Round trips, from single components up to whole frames.
// ---------------------------------------------------------------------------
/// Decoding one encoded component from the front of any longer byte
/// sequence yields that component back and consumes exactly its record.
proof fn lemma_component_round_trip(c: EntityComponent, rest: Seq<u8>)
    ensures
        spec_decode_component(spec_encode_component(c) + rest) == ComponentOutcome::One(
            c,
            spec_encode_component(c).len(),
        ),
        spec_encode_component(c).len() >= 1,
{
    lemma_auto_spec_u64_to_from_le_bytes();
    let s = spec_encode_component(c) + rest;
    match c {
        EntityComponent::Health(h) => {
            assert(s[0] == HEALTH_COMP);
            assert(s.subrange(1, 9) =~= spec_u64_to_le_bytes(h));
            assert(spec_encode_component(c).len() == 9);
        },
        EntityComponent::Position(p) => {
            assert(s[0] == POSITION_COMP);
            assert(s.subrange(1, 9) =~= spec_u64_to_le_bytes(p.x));
            assert(s.subrange(9, 17) =~= spec_u64_to_le_bytes(p.y));
            assert(s.subrange(17, 25) =~= spec_u64_to_le_bytes(p.z));
            assert(spec_encode_component(c).len() == 25);
            assert(Position { x: p.x, y: p.y, z: p.z } == p);
        },
    }
}

/// Decoding a run of encoded components from the front of any longer byte
/// sequence yields the run back and consumes exactly its records.
proof fn lemma_components_round_trip(cs: Seq<EntityComponent>, rest: Seq<u8>)
    ensures
        spec_decode_components(spec_encode_components(cs) + rest, cs.len()) ==
            ComponentsOutcome::Done(cs, spec_encode_components(cs).len()),
    decreases cs.len(),
{
    let s = spec_encode_components(cs) + rest;
    if cs.len() == 0 {
        assert(cs =~= Seq::<EntityComponent>::empty());
    } else {
        let c0 = cs[0];
        let k0 = spec_encode_component(c0).len();
        let tail = spec_encode_components(cs.skip(1));
        assert(s =~= spec_encode_component(c0) + (tail + rest));
        lemma_component_round_trip(c0, tail + rest);
        assert(s.skip(k0 as int) =~= tail + rest);
        lemma_components_round_trip(cs.skip(1), rest);
        assert(seq![c0] + cs.skip(1) =~= cs);
    }
}

/// Decoding a run of encoded entity records from the front of any longer
/// byte sequence yields the run back and consumes exactly its records.
proof fn lemma_entities_round_trip(es: Seq<EntityUpdateView>, rest: Seq<u8>)
    requires
        forall|i: int| 0 <= i < es.len() ==> (#[trigger] es[i]).wf(),
    ensures
        spec_decode_entities(spec_encode_entities(es) + rest, es.len()) == EntitiesOutcome::Done(
            es,
            spec_encode_entities(es).len(),
        ),
    decreases es.len(),
{
    lemma_auto_spec_u32_to_from_le_bytes();
    let s = spec_encode_entities(es) + rest;
    if es.len() == 0 {
        assert(es =~= Seq::<EntityUpdateView>::empty());
    } else {
        let e0 = es[0];
        assert(e0.wf());
        let comps = spec_encode_components(e0.data);
        let ent0 = spec_encode_entity(e0);
        let tail = spec_encode_entities(es.skip(1));
        assert(s =~= e0.uuid + spec_u32_to_le_bytes(e0.data.len() as u32) + comps + (tail
            + rest));
        assert(s.len() >= 20 + comps.len());
        assert(s.subrange(0, 16) =~= e0.uuid);
        assert(s.subrange(16, 20) =~= spec_u32_to_le_bytes(e0.data.len() as u32));
        assert(s.skip(20) =~= comps + (tail + rest));
        lemma_components_round_trip(e0.data, tail + rest);
        assert(s.skip(20 + comps.len() as int) =~= tail + rest);
        lemma_entities_round_trip(es.skip(1), rest);
        assert(EntityUpdateView { uuid: s.subrange(0, 16), data: e0.data } == e0);
        assert(seq![e0] + es.skip(1) =~= es);
        assert(ent0.len() == 20 + comps.len());
    }
}

/// Decoding an encoded payload, under its own opcode and exact declared
/// size, yields the operation back, whatever bytes follow the payload.
/// The two synchronisation markers have no registered decoder and are
/// excluded.
proof fn lemma_payload_round_trip(op: OperationView, rest: Seq<u8>)
    requires
        op.wf(),
        !(op is ClSync),
        !(op is SvSync),
    ensures
        spec_decode_payload(
            spec_opcode(op),
            spec_payload(op).len(),
            spec_payload(op) + rest,
        ) == PayloadOutcome::Decoded(op),
{
    lemma_auto_spec_u32_to_from_le_bytes();
    lemma_auto_spec_u64_to_from_le_bytes();
    let p = spec_payload(op);
    let s = p + rest;
    match op {
        OperationView::SvConnectResponse(uuid) => {
            assert(s.take(16) =~= uuid);
        },
        OperationView::SvUpdateWorld(es) => {
            assert(s.subrange(0, 4) =~= spec_u32_to_le_bytes(es.len() as u32));
            assert(s.skip(4) =~= spec_encode_entities(es) + rest);
            lemma_entities_round_trip(es, rest);
        },
        OperationView::ClMoveSetPosition(q) => {
            assert(s.subrange(0, 8) =~= spec_u64_to_le_bytes(q.x));
            assert(s.subrange(8, 16) =~= spec_u64_to_le_bytes(q.y));
            assert(s.subrange(16, 24) =~= spec_u64_to_le_bytes(q.z));
            assert(Position { x: q.x, y: q.y, z: q.z } == q);
        },
        _ => {},
    }
}

/// Where the first complete magic sequence stands, the scan finds it.
proof fn lemma_find_magic_first(s: Seq<u8>, m: int)
    requires
        0 <= m,
        m + 2 <= s.len(),
        spec_magic_at(s, m),
        forall|j: int| 0 <= j < m ==> !spec_magic_at(s, j),
    ensures
        spec_find_magic(s) == Some(m as nat),
    decreases m,
{
    if m == 0 {
    } else {
        assert(!spec_magic_at(s, 0));
        assert forall|j: int| 0 <= j < m - 1 implies !spec_magic_at(s.skip(1), j) by {
            assert(s.skip(1)[j] == s[j + 1]);
            assert(s.skip(1)[j + 1] == s[j + 2]);
            assert(!spec_magic_at(s, j + 1));
        }
        assert(s.skip(1)[m - 1] == s[m]);
        assert(s.skip(1)[m] == s[m + 1]);
        assert(spec_magic_at(s.skip(1), m - 1));
        lemma_find_magic_first(s.skip(1), m - 1);
    }
}

/// How a frame's bytes come apart: the magic, the size field holding the
/// payload's exact length, the opcode, and the payload after the header.
proof fn lemma_frame_parts(op: OperationView)
    requires
        op.wf(),
        spec_payload(op).len() <= u16::MAX,
    ensures
        spec_frame(op).len() == 8 + spec_payload(op).len(),
        spec_frame(op)[0] == MAGIC_0,
        spec_frame(op)[1] == MAGIC_1,
        spec_u16_from_le_bytes(spec_frame(op).subrange(2, 4)) == spec_payload(op).len(),
        spec_frame(op)[4] == spec_opcode(op),
        spec_frame(op).skip(8) =~= spec_payload(op),
{
    lemma_auto_spec_u16_to_from_le_bytes();
    let p = spec_payload(op);
    let f = spec_frame(op);
    assert(f.subrange(2, 4) =~= vstd::bytes::spec_u16_to_le_bytes(p.len() as u16));
    assert(f.skip(8) =~= p);
}

/// What one decode pass makes of a buffer that starts with one complete
/// frame: it decodes the frame's operation and consumes exactly the frame.
proof fn lemma_decode_from_frame(op: OperationView, s: Seq<u8>)
    requires
        op.wf(),
        !(op is ClSync),
        !(op is SvSync),
        spec_payload(op).len() <= u16::MAX,
        s == spec_frame(op),
    ensures
        spec_decode_from(s) == (Some(op), spec_frame(op).len() as nat),
{
    lemma_auto_spec_u16_to_from_le_bytes();
    lemma_frame_parts(op);
    let p = spec_payload(op);
    assert(spec_magic_at(s, 0));
    lemma_find_magic_first(s, 0);
    assert(s.skip(0) =~= s);
    lemma_payload_round_trip(op, Seq::empty());
    assert(p + Seq::<u8>::empty() =~= p);
    assert(spec_decode_payload(s[4], spec_u16_from_le_bytes(s.subrange(2, 4)) as nat, s.skip(8))
        == PayloadOutcome::Decoded(op));
}

/// Round trip: for every well-formed operation whose payload fits a
/// frame's 16-bit size field, decoding the encoding yields an equal
/// operation and consumes exactly the frame. The two synchronisation
/// markers are excluded: no opcode decoder is registered for them, so
/// their frames are deliberately skipped as unrecognised.
pub proof fn lemma_round_trip(op: OperationView)
    requires
        op.wf(),
        !(op is ClSync),
        !(op is SvSync),
        spec_payload(op).len() <= u16::MAX,
    ensures
        spec_decode(spec_frame(op)) == (Some(op), spec_frame(op).len() as nat),
{
    lemma_frame_parts(op);
    lemma_decode_from_frame(op, spec_frame(op));
}

// ---------------------------------------------------------------------------
// Starvation: truncated encodings decode to "need more bytes", never to an
// error and never to a partial value, and consume nothing.
// ---------------------------------------------------------------------------
/// Decoding a strict prefix of a run of encoded components, under the run's
/// own count, is always "not yet".
proof fn lemma_components_prefix(cs: Seq<EntityComponent>, m: int)
    requires
        0 <= m < spec_encode_components(cs).len(),
    ensures
        spec_decode_components(spec_encode_components(cs).take(m), cs.len())
            == ComponentsOutcome::Incomplete,
    decreases cs.len(),
{
    lemma_auto_spec_u64_to_from_le_bytes();
    let b = spec_encode_components(cs).take(m);
    assert(cs.len() > 0);
    let c0 = cs[0];
    let k0 = spec_encode_component(c0).len() as int;
    let tail = spec_encode_components(cs.skip(1));
    match c0 {
        EntityComponent::Health(_) => {
            assert(k0 == 9);
        },
        EntityComponent::Position(_) => {
            assert(k0 == 25);
        },
    }
    if m == 0 {
        assert(b.len() < 1);
    } else if m < k0 {
        assert(b[0] == spec_encode_component(c0)[0]);
        match c0 {
            EntityComponent::Health(_) => {
                assert(b[0] == HEALTH_COMP);
                assert(b.len() < 9);
            },
            EntityComponent::Position(_) => {
                assert(b[0] == POSITION_COMP);
                assert(b.len() < 25);
            },
        }
    } else {
        // The first record is complete in the prefix; the truncation lies
        // in the rest of the run.
        lemma_component_round_trip(c0, tail.take(m - k0));
        assert(b =~= spec_encode_component(c0) + tail.take(m - k0));
        assert(b.skip(k0) =~= tail.take(m - k0));
        lemma_components_prefix(cs.skip(1), m - k0);
    }
}

/// Decoding a strict prefix of a run of encoded entity records, under the
/// run's own count, is always "not yet".
proof fn lemma_entities_prefix(es: Seq<EntityUpdateView>, m: int)
    requires
        forall|i: int| 0 <= i < es.len() ==> (#[trigger] es[i]).wf(),
        0 <= m < spec_encode_entities(es).len(),
    ensures
        spec_decode_entities(spec_encode_entities(es).take(m), es.len())
            == EntitiesOutcome::Incomplete,
    decreases es.len(),
{
    lemma_auto_spec_u32_to_from_le_bytes();
    let b = spec_encode_entities(es).take(m);
    assert(es.len() > 0);
    let e0 = es[0];
    assert(e0.wf());
    let comps = spec_encode_components(e0.data);
    let clen = comps.len() as int;
    let ent0 = spec_encode_entity(e0);
    let tail = spec_encode_entities(es.skip(1));
    assert(ent0.len() == 20 + clen);
    assert(spec_encode_entities(es) =~= e0.uuid + spec_u32_to_le_bytes(e0.data.len() as u32)
        + comps + tail);
    if m < 20 {
        assert(b.len() < 20);
    } else {
        assert(b.subrange(0, 16) =~= e0.uuid);
        assert(b.subrange(16, 20) =~= spec_u32_to_le_bytes(e0.data.len() as u32));
        if m < 20 + clen {
            assert(b.skip(20) =~= comps.take(m - 20));
            lemma_components_prefix(e0.data, m - 20);
        } else {
            assert(b.skip(20) =~= comps + tail.take(m - 20 - clen));
            lemma_components_round_trip(e0.data, tail.take(m - 20 - clen));
            assert(b.skip(20 + clen) =~= tail.take(m - 20 - clen));
            lemma_entities_prefix(es.skip(1), m - 20 - clen);
        }
    }
}

/// Idempotent starvation, first half: decoding any strict, non-empty
/// prefix of a valid frame reports "need more bytes" and consumes nothing,
/// so the buffer stays byte-for-byte unchanged. It never errors and never
/// yields a partial operation.
pub proof fn lemma_starved_prefix(op: OperationView, k: int)
    requires
        op.wf(),
        !(op is ClSync),
        !(op is SvSync),
        spec_payload(op).len() <= u16::MAX,
        0 < k < spec_frame(op).len(),
    ensures
        spec_decode(spec_frame(op).take(k)) == (None::<OperationView>, 0nat),
{
    lemma_auto_spec_u16_to_from_le_bytes();
    lemma_auto_spec_u32_to_from_le_bytes();
    lemma_auto_spec_u64_to_from_le_bytes();
    lemma_frame_parts(op);
    let f = spec_frame(op);
    let p = spec_payload(op);
    let b = f.take(k);
    if k < 2 {
        assert(spec_find_magic(b) is None);
    } else {
        assert(spec_magic_at(b, 0));
        lemma_find_magic_first(b, 0);
        assert(b.skip(0) =~= b);
        if k < 8 {
        } else {
            assert(b.subrange(2, 4) =~= f.subrange(2, 4));
            assert(b[4] == f[4]);
            let size = p.len();
            let part = b.skip(8);
            assert(part =~= p.take(k - 8));
            assert(part.len() < size);
            match op {
                OperationView::SvConnectResponse(_) => {
                    assert(spec_decode_payload(spec_opcode(op), size, part)
                        == PayloadOutcome::Incomplete);
                },
                OperationView::ClMoveSetPosition(_) => {
                    assert(spec_decode_payload(spec_opcode(op), size, part)
                        == PayloadOutcome::Incomplete);
                },
                OperationView::SvUpdateWorld(es) => {
                    assert(size >= 4);
                    if part.len() < 4 {
                    } else {
                        assert(part.subrange(0, 4) =~= p.subrange(0, 4));
                        assert(part.subrange(0, 4) =~= spec_u32_to_le_bytes(es.len() as u32));
                        assert(part.skip(4) =~= spec_encode_entities(es).take(k - 12));
                        lemma_entities_prefix(es, k - 12);
                    }
                },
                _ => {
                    // The remaining kinds have empty payloads, so no strict
                    // prefix reaches the dispatch: their frames are 8 bytes.
                    assert(false);
                },
            }
        }
    }
}

/// Truncated world update: a world-update frame cut short anywhere — in
/// the entity count, inside an entity's identifier or component count, or
/// inside any component record — decodes to "need more bytes" at the point
/// of exhaustion, never to an error and never to a partial operation, and
/// consumes nothing.
pub proof fn lemma_truncated_world_update(es: Seq<EntityUpdateView>, k: int)
    requires
        OperationView::SvUpdateWorld(es).wf(),
        spec_payload(OperationView::SvUpdateWorld(es)).len() <= u16::MAX,
        0 < k < spec_frame(OperationView::SvUpdateWorld(es)).len(),
    ensures
        spec_decode(spec_frame(OperationView::SvUpdateWorld(es)).take(k)) == (
            None::<OperationView>,
            0nat,
        ),
{
    lemma_starved_prefix(OperationView::SvUpdateWorld(es), k);
}

/// A decode pass never accounts for more bytes than the buffer holds.
proof fn lemma_decode_from_consumed_bound(s: Seq<u8>)
    ensures
        spec_decode_from(s).1 <= s.len(),
    decreases s.len(),
{
    lemma_find_magic(s);
    match spec_find_magic(s) {
        None => {},
        Some(i) => {
            let t = s.skip(i as int);
            if t.len() < 8 {
            } else {
                let size = spec_u16_from_le_bytes(t.subrange(2, 4)) as nat;
                match spec_decode_payload(t[4], size, t.skip(8)) {
                    PayloadOutcome::Failed(_) => {
                        lemma_decode_from_consumed_bound(s.skip(i as int + 1));
                    },
                    _ => {},
                }
            }
        },
    }
}

/// Idempotent starvation, second half: once a decode call has reported
/// "need more bytes", calling it again on what it left behind, with no new
/// bytes appended, reports "need more bytes" again and consumes nothing —
/// the buffer has reached a fixed point until more data arrives.
pub proof fn lemma_insufficient_idempotent(s: Seq<u8>)
    requires
        spec_decode(s).0 is None,
    ensures
        spec_decode(s.skip(spec_decode(s).1 as int)) == (None::<OperationView>, 0nat),
    decreases s.len(),
{
    assert(s.len() > 0);
    lemma_find_magic(s);
    match spec_find_magic(s) {
        None => {
            assert(s.skip(0) =~= s);
        },
        Some(i) => {
            let t = s.skip(i as int);
            assert(t[0] == s[i as int]);
            assert(t[1] == s[i as int + 1]);
            assert(spec_magic_at(t, 0));
            lemma_find_magic_first(t, 0);
            assert(t.skip(0) =~= t);
            if t.len() < 8 {
                // The call stops at the frame start with a short header;
                // a second call stops at the same short header.
            } else {
                let size = spec_u16_from_le_bytes(t.subrange(2, 4)) as nat;
                let opcode = t[4];
                match spec_decode_payload(opcode, size, t.skip(8)) {
                    PayloadOutcome::Incomplete => {
                        // A second call sees the same header and the same
                        // starved payload.
                    },
                    PayloadOutcome::Decoded(_) => {
                        // The payload made sense but the header promises
                        // more bytes; a second call waits the same way.
                    },
                    PayloadOutcome::Failed(_) => {
                        let r = spec_decode_from(s.skip(i as int + 1));
                        let s1 = s.skip(i as int + 1);
                        assert(s1.len() > 0);
                        lemma_decode_from_consumed_bound(s1);
                        lemma_insufficient_idempotent(s1);
                        assert(s1.skip(r.1 as int) =~= s.skip(i as int + 1 + r.1 as int));
                    },
                }
            }
        },
    }
}

/// The opcode mapping is unambiguous: two operations share an opcode only
/// when they are the same kind of operation, so the registry can never
/// dispatch a frame to the wrong payload layout.
pub proof fn lemma_opcode_unambiguous(a: OperationView, b: OperationView)
    requires
        spec_opcode(a) == spec_opcode(b),
    ensures
        a is ClSync <==> b is ClSync,
        a is SvSync <==> b is SvSync,
        a is ClConnectMessage <==> b is ClConnectMessage,
        a is SvConnectResponse <==> b is SvConnectResponse,
        a is SvUpdateWorld <==> b is SvUpdateWorld,
        a is ClMoveSetPosition <==> b is ClMoveSetPosition,
        a is DisconnectMessage <==> b is DisconnectMessage,
{
}

/// Resynchronisation: any amount of garbage that holds no magic sequence,
/// followed by one complete valid frame, decodes to that frame's operation,
/// consuming the garbage and the frame. A decoder therefore recovers frame
/// alignment after arbitrary corruption, as soon as a whole frame arrives.
pub proof fn lemma_resynchronization(garbage: Seq<u8>, op: OperationView)
    requires
        op.wf(),
        !(op is ClSync),
        !(op is SvSync),
        spec_payload(op).len() <= u16::MAX,
        forall|i: int| 0 <= i && i + 2 <= garbage.len() ==> !spec_magic_at(garbage, i),
    ensures
        spec_decode(garbage + spec_frame(op)) == (
            Some(op),
            (garbage.len() + spec_frame(op).len()) as nat,
        ),
{
    lemma_auto_spec_u16_to_from_le_bytes();
    lemma_frame_parts(op);
    let f = spec_frame(op);
    let p = spec_payload(op);
    let s = garbage + f;
    let g = garbage.len() as int;
    assert(s[g] == f[0]);
    assert(s[g + 1] == f[1]);
    assert(spec_magic_at(s, g));
    assert forall|j: int| 0 <= j < g implies !spec_magic_at(s, j) by {
        if j + 2 <= g {
            assert(s[j] == garbage[j]);
            assert(s[j + 1] == garbage[j + 1]);
            assert(!spec_magic_at(garbage, j));
        } else {
            // The pair straddles the boundary: its second byte is the
            // frame's first magic byte, which is not the second magic byte.
            assert(s[j + 1] == f[0]);
        }
    }
    lemma_find_magic_first(s, g);
    let t = s.skip(g);
    assert(t =~= f);
    lemma_payload_round_trip(op, Seq::empty());
    assert(p + Seq::<u8>::empty() =~= p);
    assert(spec_decode_payload(t[4], spec_u16_from_le_bytes(t.subrange(2, 4)) as nat, t.skip(8))
        == PayloadOutcome::Decoded(op));
}

} // verus!
