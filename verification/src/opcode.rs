//! The opcode space: one fixed constant per operation kind, and the pure
//! mapping from an operation to the opcode its frame carries.
use vstd::prelude::*;

use crate::operation::{Operation, OperationView};

verus! {

pub type OpcodeType = u8;

pub const CL_SYNC_OP: OpcodeType = 0x00;

pub const SV_SYNC_OP: OpcodeType = 0x01;

pub const CL_CONNECT_MESSAGE_OP: OpcodeType = 0x02;

pub const SV_CONNECT_RESPONSE_OP: OpcodeType = 0x03;

pub const SV_UPDATE_WORLD_OP: OpcodeType = 0x10;

pub const CL_MOVE_SET_POSITION_OP: OpcodeType = 0x20;

pub const DISCONNECT_MESSAGE_OP: OpcodeType = 0xFF;

/// The opcode that a frame carrying the given operation uses.
pub open spec fn spec_opcode(op: OperationView) -> OpcodeType {
    match op {
        OperationView::ClSync => CL_SYNC_OP,
        OperationView::SvSync => SV_SYNC_OP,
        OperationView::ClConnectMessage => CL_CONNECT_MESSAGE_OP,
        OperationView::SvConnectResponse(_) => SV_CONNECT_RESPONSE_OP,
        OperationView::SvUpdateWorld(_) => SV_UPDATE_WORLD_OP,
        OperationView::ClMoveSetPosition(_) => CL_MOVE_SET_POSITION_OP,
        OperationView::DisconnectMessage => DISCONNECT_MESSAGE_OP,
    }
}

/// Pure, total mapping from each operation variant to its fixed opcode.
pub fn opcode_from_operation(op: &Operation) -> (r: OpcodeType)
    ensures
        r == spec_opcode(op@),
{
    match op {
        Operation::ClSync(_) => CL_SYNC_OP,
        Operation::SvSync(_) => SV_SYNC_OP,
        Operation::ClConnectMessage(_) => CL_CONNECT_MESSAGE_OP,
        Operation::SvConnectResponse(_) => SV_CONNECT_RESPONSE_OP,
        Operation::SvUpdateWorld(_) => SV_UPDATE_WORLD_OP,
        Operation::ClMoveSetPosition(_) => CL_MOVE_SET_POSITION_OP,
        Operation::DisconnectMessage => DISCONNECT_MESSAGE_OP,
    }
}

} // verus!
