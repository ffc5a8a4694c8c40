//! The operations carried by the wire protocol, and the mathematical views
//! that the codec's contracts are stated over.
use vstd::prelude::*;

verus! {

/// A 128-bit entity identifier, held as its 16 raw bytes in wire order.
///
/// The surrounding application may parse or format these bytes with a
/// UUID library of its choice; the codec itself only copies them.
#[derive(Clone, Debug, PartialEq, Eq)]
pub struct Uuid {
    bytes: Vec<u8>,
}

impl View for Uuid {
    type V = Seq<u8>;

    closed spec fn view(&self) -> Seq<u8> {
        self.bytes@
    }
}

impl Uuid {
    /// Copies a 16-byte slice into an identifier; any other length is refused.
    pub fn from_slice(bytes: &[u8]) -> (r: Option<Uuid>)
        ensures
            r is Some <==> bytes@.len() == 16,
            r matches Some(u) ==> u@ == bytes@,
    {
        if bytes.len() == 16 {
            Some(Uuid { bytes: vstd::slice::slice_to_vec(bytes) })
        } else {
            None
        }
    }

    /// The identifier's 16 bytes, in the order they appear on the wire.
    pub fn as_bytes(&self) -> (r: &[u8])
        ensures
            r@ == self@,
    {
        self.bytes.as_slice()
    }
}

/// A point in the game world. Each coordinate is held as the 64 raw bits of
/// an IEEE-754 binary64 value, exactly as the 8 little-endian payload bytes
/// spell them; the codec never interprets them as numbers.
#[derive(Clone, Copy, Debug, PartialEq, Eq, Structural)]
pub struct Position {
    pub x: u64,
    pub y: u64,
    pub z: u64,
}

/// Client request to open a session. Carries no payload.
#[derive(Clone, Debug, PartialEq, Eq, Structural)]
pub struct ClConnectMessage;

/// Client-side tick synchronisation marker. Carries no payload.
#[derive(Clone, Debug, PartialEq, Eq, Structural)]
pub struct ClSync;

/// Server-side tick synchronisation marker. Carries no payload.
#[derive(Clone, Debug, PartialEq, Eq, Structural)]
pub struct SvSync;

/// Server reply to a connect request: the session's identifier.
#[derive(Clone, Debug, PartialEq, Eq)]
pub struct SvConnectResponse {
    pub uuid: Uuid,
}

/// Client movement input: the player's new position.
#[derive(Clone, Debug, PartialEq, Eq)]
pub struct ClMoveSetPosition {
    pub pos: Position,
}

/// One typed piece of entity state.
#[derive(Clone, Debug, PartialEq, Eq, Structural)]
pub enum EntityComponent {
    Health(u64),
    Position(Position),
}

/// The state snapshot of one entity as of one server tick.
#[derive(Clone, Debug, PartialEq, Eq)]
pub struct EntityUpdate {
    pub uuid: Uuid,
    pub data: Vec<EntityComponent>,
}

/// Server broadcast of entity state: an ordered sequence of entity updates.
#[derive(Clone, Debug, PartialEq, Eq)]
pub struct SvUpdateWorld {
    pub updates: Vec<EntityUpdate>,
}

/// One discrete application message, as carried by one frame.
#[derive(Clone, Debug, PartialEq, Eq)]
pub enum Operation {
    ClSync(ClSync),
    SvSync(SvSync),
    ClConnectMessage(ClConnectMessage),
    SvConnectResponse(SvConnectResponse),
    SvUpdateWorld(SvUpdateWorld),
    ClMoveSetPosition(ClMoveSetPosition),
    DisconnectMessage,
}

/// Mathematical view of an [`EntityUpdate`].
pub struct EntityUpdateView {
    pub uuid: Seq<u8>,
    pub data: Seq<EntityComponent>,
}

impl EntityUpdateView {
    /// An update is well formed when its identifier has the 16 bytes the wire
    /// format reserves for it and its component count fits the 4-byte field.
    pub open spec fn wf(self) -> bool {
        &&& self.uuid.len() == 16
        &&& self.data.len() <= u32::MAX
    }
}

impl View for EntityUpdate {
    type V = EntityUpdateView;

    open spec fn view(&self) -> EntityUpdateView {
        EntityUpdateView { uuid: self.uuid@, data: self.data@ }
    }
}

impl View for SvConnectResponse {
    type V = Seq<u8>;

    open spec fn view(&self) -> Seq<u8> {
        self.uuid@
    }
}

impl View for SvUpdateWorld {
    type V = Seq<EntityUpdateView>;

    open spec fn view(&self) -> Seq<EntityUpdateView> {
        self.updates@.map_values(|e: EntityUpdate| e@)
    }
}

/// Mathematical view of an [`Operation`].
pub enum OperationView {
    ClSync,
    SvSync,
    ClConnectMessage,
    SvConnectResponse(Seq<u8>),
    SvUpdateWorld(Seq<EntityUpdateView>),
    ClMoveSetPosition(Position),
    DisconnectMessage,
}

impl OperationView {
    /// An operation is well formed when every length that the wire format
    /// stores in a fixed-width field fits that field.
    pub open spec fn wf(self) -> bool {
        match self {
            OperationView::SvConnectResponse(uuid) => uuid.len() == 16,
            OperationView::SvUpdateWorld(updates) => {
                &&& updates.len() <= u32::MAX
                &&& forall|i: int| 0 <= i < updates.len() ==> (#[trigger] updates[i]).wf()
            },
            _ => true,
        }
    }
}

impl View for Operation {
    type V = OperationView;

    open spec fn view(&self) -> OperationView {
        match self {
            Operation::ClSync(_) => OperationView::ClSync,
            Operation::SvSync(_) => OperationView::SvSync,
            Operation::ClConnectMessage(_) => OperationView::ClConnectMessage,
            Operation::SvConnectResponse(d) => OperationView::SvConnectResponse(d@),
            Operation::SvUpdateWorld(d) => OperationView::SvUpdateWorld(d@),
            Operation::ClMoveSetPosition(d) => OperationView::ClMoveSetPosition(d.pos),
            Operation::DisconnectMessage => OperationView::DisconnectMessage,
        }
    }
}

impl Operation {
    /// A short human-readable name for the operation, for the caller's logs.
    pub fn describe(&self) -> (r: &'static str)
        ensures
            r@ == match self@ {
                OperationView::ClSync => "(client) sync"@,
                OperationView::SvSync => "(server) sync"@,
                OperationView::ClConnectMessage => "(client) connect message"@,
                OperationView::SvConnectResponse(_) => "(server) connect response"@,
                OperationView::SvUpdateWorld(_) => "(server) world update"@,
                OperationView::ClMoveSetPosition(_) => "(client) player movement"@,
                OperationView::DisconnectMessage => "disconnected"@,
            },
    {
        match self {
            Operation::ClSync(_) => "(client) sync",
            Operation::SvSync(_) => "(server) sync",
            Operation::ClConnectMessage(_) => "(client) connect message",
            Operation::SvConnectResponse(_) => "(server) connect response",
            Operation::SvUpdateWorld(_) => "(server) world update",
            Operation::ClMoveSetPosition(_) => "(client) player movement",
            Operation::DisconnectMessage => "disconnected",
        }
    }
}

} // verus!
