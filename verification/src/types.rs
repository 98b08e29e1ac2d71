use vstd::prelude::*;

verus! {

/// Lifecycle classification of an entity record inside an update message.
#[derive(Clone, Copy, Debug, PartialEq, Eq, Structural)]
pub enum UpdateType {
    /// Partial field delta or pure reference to already-known state.
    Preserve,
    /// Full state for a new or resurrected object.
    Enter,
    /// The object left the interest set but keeps its known state.
    Leave,
    /// The object is destroyed for good.
    Delete,
}

/// Value carried by one networked field.
///
/// Integer values are the only ones the editing rules inspect; every
/// other wire value is carried through untouched under a caller-chosen
/// handle.
#[derive(Clone, Copy, Debug, PartialEq, Eq, Structural)]
pub enum SendPropValue {
    Integer(i64),
    Opaque(u64),
}

/// One (field identifier, value) pair of an entity update.
#[derive(Clone, Copy, Debug, PartialEq, Eq, Structural)]
pub struct SendProp {
    pub index: u32,
    pub identifier: u64,
    pub value: SendPropValue,
}

/// One entity record inside an update message.
#[derive(Clone, Debug, PartialEq)]
pub struct PacketEntity {
    pub entity_index: u32,
    pub server_class: u16,
    pub serial_number: u32,
    pub update_type: UpdateType,
    pub props: Vec<SendProp>,
    pub in_pvs: bool,
    pub delay: Option<u32>,
    pub delta_tick: Option<u32>,
    pub baseline_second: bool,
}

/// Mathematical image of a [`PacketEntity`], with the field list as a sequence.
pub struct EntityRec {
    pub entity_index: u32,
    pub server_class: u16,
    pub serial_number: u32,
    pub update_type: UpdateType,
    pub props: Seq<SendProp>,
    pub in_pvs: bool,
    pub delay: Option<u32>,
    pub delta_tick: Option<u32>,
    pub baseline_second: bool,
}

impl PacketEntity {
    pub open spec fn rec(self) -> EntityRec {
        EntityRec {
            entity_index: self.entity_index,
            server_class: self.server_class,
            serial_number: self.serial_number,
            update_type: self.update_type,
            props: self.props@,
            in_pvs: self.in_pvs,
            delay: self.delay,
            delta_tick: self.delta_tick,
            baseline_second: self.baseline_second,
        }
    }
}

/// A batch of entity updates, either a full baseline-style update
/// (`delta` absent) or a delta against the given server tick.
#[derive(Clone, Debug, PartialEq)]
pub struct PacketEntitiesMessage {
    pub entities: Vec<PacketEntity>,
    pub removed_entities: Vec<u32>,
    pub max_entries: u16,
    pub delta: Option<u32>,
    pub base_line_second: bool,
    pub updated_base_line: bool,
}

impl PacketEntitiesMessage {
    /// Entities stand in strictly ascending id order; decoders rely on
    /// this for compact indexing.
    pub open spec fn sorted(self) -> bool {
        forall|i: int, j: int|
            0 <= i < j < self.entities@.len() ==> #[trigger] self.entities@[i].entity_index
                < #[trigger] self.entities@[j].entity_index
    }
}

/// Time synchronisation message carrying the current server tick.
#[derive(Clone, Copy, Debug, PartialEq)]
pub struct NetTickMessage {
    pub tick: u32,
    pub frame_time: u16,
    pub std_dev: u16,
}

/// Session description message; only the fields the editing rules touch
/// are held as plain values, the rest rides along under `rest`.
#[derive(Clone, Debug, PartialEq)]
pub struct ServerInfoMessage {
    pub player_slot: u8,
    pub stv: bool,
    pub server_name: String,
    pub rest: u64,
}

/// Kind tag of a user message; only the kinds the editing rules inspect
/// get a tag of their own.
#[derive(Clone, Copy, Debug, PartialEq, Eq, Structural)]
pub enum UserMessageKind {
    CloseCaption,
    VGuiMenu,
    Other,
}

/// One decoded network message.
///
/// Messages the editing rules never look inside are carried through
/// under a caller-chosen handle.
#[derive(Clone, Debug, PartialEq)]
pub enum Message {
    PacketEntities(PacketEntitiesMessage),
    NetTick(NetTickMessage),
    ServerInfo(ServerInfoMessage),
    SetView(u64),
    UserMessage(UserMessageKind, u64),
    UpdateStringTable(u64),
    Other(u64),
}

/// View angles recorded in a message packet's metadata: either cleared
/// to the neutral default or the original value under a handle.
#[derive(Clone, Copy, Debug, PartialEq, Eq, Structural)]
pub enum ViewAngles {
    Cleared,
    Original(u64),
}

/// Metadata of a message packet.
#[derive(Clone, Copy, Debug, PartialEq, Eq, Structural)]
pub struct MessagePacketMeta {
    pub view_angles: ViewAngles,
    pub rest: u64,
}

/// A message-bearing packet of the stream.
#[derive(Clone, Debug, PartialEq)]
pub struct MessagePacket {
    pub tick: u32,
    pub messages: Vec<Message>,
    pub meta: MessagePacketMeta,
}

/// One container-level packet.
///
/// Packet kinds whose payload the editing rules never read carry the
/// payload under a handle.
#[derive(Clone, Debug, PartialEq)]
pub enum Packet {
    Signon(MessagePacket),
    Message(MessagePacket),
    SyncTick(u32),
    ConsoleCmd(u32, u64),
    UserCmd(u32, u64),
    DataTables(u32, u64),
    StringTables(u32, u64),
    Stop(u32),
}

impl Packet {
    pub open spec fn spec_tick(&self) -> u32 {
        match *self {
            Packet::Signon(p) => p.tick,
            Packet::Message(p) => p.tick,
            Packet::SyncTick(t) => t,
            Packet::ConsoleCmd(t, _) => t,
            Packet::UserCmd(t, _) => t,
            Packet::DataTables(t, _) => t,
            Packet::StringTables(t, _) => t,
            Packet::Stop(t) => t,
        }
    }

    #[verifier::when_used_as_spec(spec_tick)]
    pub fn tick(&self) -> (t: u32)
        ensures
            t == self.spec_tick(),
    {
        match self {
            Packet::Signon(p) => p.tick,
            Packet::Message(p) => p.tick,
            Packet::SyncTick(t) => *t,
            Packet::ConsoleCmd(t, _) => *t,
            Packet::UserCmd(t, _) => *t,
            Packet::DataTables(t, _) => *t,
            Packet::StringTables(t, _) => *t,
            Packet::Stop(t) => *t,
        }
    }

    pub fn set_tick(&mut self, tick: u32)
        ensures
            final(self).spec_tick() == tick,
            tick_change_only(*old(self), *final(self)),
    {
        match self {
            Packet::Signon(p) => p.tick = tick,
            Packet::Message(p) => p.tick = tick,
            Packet::SyncTick(t) => *t = tick,
            Packet::ConsoleCmd(t, _) => *t = tick,
            Packet::UserCmd(t, _) => *t = tick,
            Packet::DataTables(t, _) => *t = tick,
            Packet::StringTables(t, _) => *t = tick,
            Packet::Stop(t) => *t = tick,
        }
    }

    /// Packets buffered verbatim during replay: handshake, schema
    /// tables, string-table definitions and time synchronisation.
    pub open spec fn spec_is_preserve(&self) -> bool {
        *self is Signon || *self is DataTables || *self is StringTables || *self is SyncTick
    }

    #[verifier::when_used_as_spec(spec_is_preserve)]
    pub fn is_preserve(&self) -> (r: bool)
        ensures
            r == self.spec_is_preserve(),
    {
        match self {
            Packet::Signon(_) => true,
            Packet::DataTables(_, _) => true,
            Packet::StringTables(_, _) => true,
            Packet::SyncTick(_) => true,
            _ => false,
        }
    }
}

/// Everything of two packets but the tick agrees.
pub open spec fn tick_change_only(a: Packet, b: Packet) -> bool {
    match (a, b) {
        (Packet::Signon(x), Packet::Signon(y)) => x.messages@ == y.messages@ && x.meta == y.meta,
        (Packet::Message(x), Packet::Message(y)) => x.messages@ == y.messages@ && x.meta == y.meta,
        (Packet::SyncTick(_), Packet::SyncTick(_)) => true,
        (Packet::ConsoleCmd(_, x), Packet::ConsoleCmd(_, y)) => x == y,
        (Packet::UserCmd(_, x), Packet::UserCmd(_, y)) => x == y,
        (Packet::DataTables(_, x), Packet::DataTables(_, y)) => x == y,
        (Packet::StringTables(_, x), Packet::StringTables(_, y)) => x == y,
        (Packet::Stop(_), Packet::Stop(_)) => true,
        _ => false,
    }
}

/// Container header fields the editing rules read or write; everything
/// else rides along under `rest`.
#[derive(Clone, Copy, Debug, PartialEq, Eq, Structural)]
pub struct Header {
    pub ticks: u32,
    pub rest: u64,
}

/// One player entry of the session's user table, as far as the
/// spectator search reads it.
#[derive(Clone, Debug, PartialEq)]
pub struct UserEntry {
    pub entity_id: u32,
    pub steam_id: String,
}

/// Requested cut range, in demo ticks.
#[derive(Clone, Copy, Debug, PartialEq, Eq, Structural)]
pub struct TickRange {
    pub from: u32,
    pub to: u32,
}

/// Per-condition strip request: the targeted entity id (zero for every
/// entity) and the mask of condition bits to keep.
#[derive(Clone, Copy, Debug, PartialEq, Eq, Structural)]
pub struct CondOptions {
    pub entity: u32,
    pub mask: u32,
}

/// Options of a single edit run.
#[derive(Clone, Debug)]
pub struct EditOptions {
    pub unlock_pov: bool,
    pub remove_conditions: Vec<CondOptions>,
    pub cut: Option<TickRange>,
}

} // verus!
