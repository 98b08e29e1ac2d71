pub mod entity;

use vstd::prelude::*;

use crate::cut::entity::{observe_message, ActiveEntities, TrackerState};
use crate::mutate::{msg_sorted, packet_sorted, MutatorList};
use crate::store::IdSet;
use crate::types::{
    EditOptions, Header, Message, MessagePacket, MessagePacketMeta, NetTickMessage, Packet,
    PacketEntitiesMessage, PacketEntity, TickRange, ViewAngles,
};

verus! {

/// What one forward scan of the original stream accumulates: the
/// tracker's world state, the last server tick seen, the last delta
/// reference seen, and the largest entry count seen.
pub struct ReplayState {
    pub tracker: TrackerState,
    pub server_tick: u32,
    pub last_delta: u32,
    pub entity_max: u16,
}

impl ReplayState {
    pub open spec fn initial() -> ReplayState {
        ReplayState {
            tracker: TrackerState::initial(),
            server_tick: 0,
            last_delta: 0,
            entity_max: 0,
        }
    }
}

/// One message folded into the replay state.
pub open spec fn observe_replay_message(r: ReplayState, m: Message, tick: u32) -> ReplayState {
    match m {
        Message::PacketEntities(em) => ReplayState {
            tracker: observe_message(r.tracker, em, tick),
            last_delta: if em.delta is Some {
                em.delta->0
            } else {
                r.last_delta
            },
            entity_max: em.max_entries,
            ..r
        },
        Message::NetTick(nt) => ReplayState { server_tick: nt.tick, ..r },
        _ => r,
    }
}

pub open spec fn observe_replay_messages(r: ReplayState, msgs: Seq<Message>, tick: u32) -> ReplayState
    decreases msgs.len(),
{
    if msgs.len() == 0 {
        r
    } else {
        observe_replay_messages(observe_replay_message(r, msgs[0], tick), msgs.drop_first(), tick)
    }
}

pub proof fn lemma_observe_replay_messages_push(r: ReplayState, msgs: Seq<Message>, m: Message, tick: u32)
    ensures
        observe_replay_messages(r, msgs.push(m), tick) == observe_replay_message(
            observe_replay_messages(r, msgs, tick),
            m,
            tick,
        ),
    decreases msgs.len(),
{
    if msgs.len() == 0 {
        let u1 = msgs.push(m);
        assert(u1[0] == m);
        assert(u1.drop_first() =~= Seq::<Message>::empty());
        assert(observe_replay_messages(observe_replay_message(r, m, tick), u1.drop_first(), tick)
            == observe_replay_message(r, m, tick));
    } else {
        assert(msgs.push(m)[0] == msgs[0]);
        assert(msgs.push(m).drop_first() =~= msgs.drop_first().push(m));
        lemma_observe_replay_messages_push(observe_replay_message(r, msgs[0], tick), msgs.drop_first(), m, tick);
    }
}

/// One packet folded into the replay state: only ordinary message
/// packets are observed.
pub open spec fn observe_replay_packet(r: ReplayState, p: Packet) -> ReplayState {
    match p {
        Packet::Message(mp) => observe_replay_messages(r, mp.messages@, mp.tick),
        _ => r,
    }
}

pub open spec fn replay_fold(r: ReplayState, packets: Seq<Packet>) -> ReplayState
    decreases packets.len(),
{
    if packets.len() == 0 {
        r
    } else {
        replay_fold(observe_replay_packet(r, packets[0]), packets.drop_first())
    }
}

pub proof fn lemma_replay_fold_push(r: ReplayState, packets: Seq<Packet>, p: Packet)
    ensures
        replay_fold(r, packets.push(p)) == observe_replay_packet(replay_fold(r, packets), p),
    decreases packets.len(),
{
    if packets.len() == 0 {
        let u1 = packets.push(p);
        assert(u1[0] == p);
        assert(u1.drop_first() =~= Seq::<Packet>::empty());
        assert(replay_fold(observe_replay_packet(r, p), u1.drop_first())
            == observe_replay_packet(r, p));
    } else {
        assert(packets.push(p)[0] == packets[0]);
        assert(packets.push(p).drop_first() =~= packets.drop_first().push(p));
        lemma_replay_fold_push(observe_replay_packet(r, packets[0]), packets.drop_first(), p);
    }
}

/// A packet the replay observes and the continuation check looks at:
/// neither buffered verbatim nor a dropped console command.
pub open spec fn is_ordinary(p: Packet) -> bool {
    !p.spec_is_preserve() && !(p is ConsoleCmd)
}

/// Whether a record survives the guard over the given live-id set:
/// anything but a removal, and removals of ids that were live at the
/// cut point.
pub open spec fn keeps_by(current: Set<u32>, e: PacketEntity) -> bool {
    !(e.update_type is Delete || e.update_type is Leave) || current.contains(e.entity_index)
}

/// How the guard relates a message to its rewritten form, over the
/// captured live-id set and the last synthesized delta tick.
pub open spec fn msg_guarded(current: Set<u32>, till: u32, before: Message, after: Message) -> bool {
    match (before, after) {
        (Message::PacketEntities(b), Message::PacketEntities(a)) => {
            if b.delta is Some && b.delta->0 < till {
                &&& a.entities@ == b.entities@.filter(|e: PacketEntity| keeps_by(current, e))
                &&& forall|i: int|
                    0 <= i < a.entities@.len() && ((#[trigger] a.entities@[i]).update_type
                        is Delete || a.entities@[i].update_type is Leave) ==> current.contains(
                        a.entities@[i].entity_index,
                    )
                &&& a.removed_entities@ == b.removed_entities@
                &&& a.max_entries == b.max_entries
                &&& a.delta == b.delta
                &&& a.base_line_second == b.base_line_second
                &&& a.updated_base_line == b.updated_base_line
            } else {
                after == before
            }
        },
        _ => after == before,
    }
}

/// How the guard relates a whole packet to its rewritten form.
pub open spec fn packet_guarded(current: Set<u32>, till: u32, x: Packet, y: Packet) -> bool {
    match (x, y) {
        (Packet::Message(b), Packet::Message(a)) => a.tick == b.tick && a.meta == b.meta
            && a.messages@.len() == b.messages@.len() && (forall|t: int|
            0 <= t < b.messages@.len() ==> msg_guarded(
                current,
                till,
                b.messages@[t],
                #[trigger] a.messages@[t],
            )),
        (Packet::Signon(b), Packet::Signon(a)) => a.tick == b.tick && a.meta == b.meta
            && a.messages@.len() == b.messages@.len() && (forall|t: int|
            0 <= t < b.messages@.len() ==> msg_guarded(
                current,
                till,
                b.messages@[t],
                #[trigger] a.messages@[t],
            )),
        _ => y == x,
    }
}

/// The stale-reference guard: in continuation messages whose delta
/// reference predates the last synthesized delta tick, removals of
/// entities the synthetic prefix never declared are dropped.
pub struct DeleteFilter {
    current_entities: IdSet,
    till_delta: u32,
}

impl DeleteFilter {
    pub closed spec fn wf(&self) -> bool {
        self.current_entities.wf()
    }

    /// The live-id set captured at the cut point.
    pub closed spec fn current(&self) -> Set<u32> {
        self.current_entities@
    }

    /// The last synthesized delta tick.
    pub closed spec fn till(&self) -> u32 {
        self.till_delta
    }

    pub fn new(current_entities: IdSet, till_delta: u32) -> (r: DeleteFilter)
        requires
            current_entities.wf(),
        ensures
            r.wf(),
            r.current() == current_entities@,
            r.till() == till_delta,
    {
        DeleteFilter { current_entities, till_delta }
    }

    /// Whether a record survives the guard: anything but a removal,
    /// and removals of ids that were live at the cut point.
    pub open spec fn keeps(&self, e: PacketEntity) -> bool {
        keeps_by(self.current(), e)
    }

    /// How the guard relates a message to its rewritten form.
    pub open spec fn guarded(&self, before: Message, after: Message) -> bool {
        msg_guarded(self.current(), self.till(), before, after)
    }

    /// Guard one message: messages at or past the last synthesized
    /// delta tick pass unmodified.
    pub fn mutate_message(&self, message: &mut Message)
        requires
            self.wf(),
        ensures
            self.guarded(*old(message), *final(message)),
            msg_sorted(*old(message)) ==> msg_sorted(*final(message)),
    {
        match message {
            Message::PacketEntities(em) => {
                let apply = match em.delta {
                    Some(d) => d < self.till_delta,
                    None => false,
                };
                if !apply {
                    return ;
                }
                let ghost orig = em.entities@;
                let ghost beforemsg = *em;
                let ghost pred = |e: PacketEntity| keeps_by(self.current(), e);
                let n: usize = em.entities.len();
                let mut kept: Vec<PacketEntity> = Vec::new();
                let ghost mut srcidx: Seq<int> = Seq::empty();
                let mut i: usize = 0;
                while em.entities.len() > 0
                    invariant
                        em.removed_entities@ == beforemsg.removed_entities@,
                        em.max_entries == beforemsg.max_entries,
                        em.delta == beforemsg.delta,
                        em.base_line_second == beforemsg.base_line_second,
                        em.updated_base_line == beforemsg.updated_base_line,
                        orig.len() == n,
                        i + em.entities@.len() == orig.len(),
                        em.entities@ == orig.skip(i as int),
                        kept@ == orig.take(i as int).filter(pred),
                        srcidx.len() == kept@.len(),
                        forall|t: int|
                            0 <= t < srcidx.len() ==> 0 <= #[trigger] srcidx[t] < i && kept@[t]
                                == orig[srcidx[t]],
                        forall|t: int, u: int| 0 <= t < u < srcidx.len() ==> srcidx[t] < srcidx[u],
                        self.wf(),
                    decreases em.entities@.len(),
                {
                    let e = em.entities.remove(0);
                    proof {
                        assert(e == orig[i as int]);
                        assert(orig.skip(i as int).drop_first() =~= orig.skip(i + 1));
                    }
                    let is_removal = matches!(
                        e.update_type,
                        crate::types::UpdateType::Delete
                    ) || matches!(e.update_type, crate::types::UpdateType::Leave);
                    let keep = if is_removal {
                        self.current_entities.contains(e.entity_index)
                    } else {
                        true
                    };
                    proof {
                        reveal(Seq::filter);
                        assert(orig.take(i + 1) =~= orig.take(i as int).push(orig[i as int]));
                        assert(orig.take(i + 1).drop_last() =~= orig.take(i as int));
                        assert(orig.take(i + 1).last() == orig[i as int]);
                        assert(keep == pred(orig[i as int]));
                    }
                    if keep {
                        kept.push(e);
                        proof {
                            srcidx = srcidx.push(i as int);
                        }
                    }
                    i = i + 1;
                }
                proof {
                    assert(orig.take(i as int) =~= orig);
                }
                em.entities = kept;
                proof {
                    assert forall|t: int|
                        0 <= t < em.entities@.len() && ((#[trigger] em.entities@[t]).update_type
                            is Delete || em.entities@[t].update_type is Leave)
                            implies self.current().contains(em.entities@[t].entity_index) by {
                        orig.lemma_filter_pred(pred, t);
                    }
                    if msg_sorted(*old(message)) {
                        assert forall|a: int, b: int|
                            0 <= a < b < em.entities@.len() implies em.entities@[a].entity_index
                            < em.entities@[b].entity_index by {
                            assert(srcidx[a] < srcidx[b]);
                            assert(em.entities@[a] == orig[srcidx[a]]);
                            assert(em.entities@[b] == orig[srcidx[b]]);
                        }
                    }
                }
            },
            _ => {},
        }
    }

    /// Guard every message of a packet.
    pub fn mutate_packet(&self, packet: &mut Packet)
        requires
            self.wf(),
        ensures
            final(packet).spec_tick() == old(packet).spec_tick(),
            packet_sorted(*old(packet)) ==> packet_sorted(*final(packet)),
            *old(packet) is ConsoleCmd <==> *final(packet) is ConsoleCmd,
            *old(packet) is Stop <==> *final(packet) is Stop,
            packet_guarded(self.current(), self.till(), *old(packet), *final(packet)),
    {
        match packet {
            Packet::Message(mp) => {
                self.guard_messages(&mut mp.messages);
            },
            Packet::Signon(mp) => {
                self.guard_messages(&mut mp.messages);
            },
            _ => {},
        }
    }

    /// Guard every message of a list, in order.
    fn guard_messages(&self, messages: &mut Vec<Message>)
        requires
            self.wf(),
        ensures
            final(messages)@.len() == old(messages)@.len(),
            forall|t: int|
                0 <= t < old(messages)@.len() ==> self.guarded(
                    old(messages)@[t],
                    #[trigger] final(messages)@[t],
                ),
            (forall|t: int|
                0 <= t < old(messages)@.len() ==> msg_sorted(#[trigger] old(messages)@[t])) ==> (
            forall|t: int|
                0 <= t < final(messages)@.len() ==> msg_sorted(#[trigger] final(messages)@[t])),
    {
        let mut i: usize = 0;
        while i < messages.len()
            invariant
                i <= messages@.len(),
                messages@.len() == old(messages)@.len(),
                self.wf(),
                forall|t: int|
                    0 <= t < i ==> self.guarded(old(messages)@[t], #[trigger] messages@[t]),
                (forall|t: int|
                    0 <= t < old(messages)@.len() ==> msg_sorted(#[trigger] old(messages)@[t]))
                    ==> (forall|t: int| 0 <= t < i ==> msg_sorted(#[trigger] messages@[t])),
                forall|t: int| i <= t < messages@.len() ==> messages@[t] == old(messages)@[t],
            decreases messages@.len() - i,
        {
            let ghost prev = messages@;
            let mut m = messages.remove(i);
            self.mutate_message(&mut m);
            messages.insert(i, m);
            proof {
                vstd::seq_lib::lemma_update_is_remove_insert(prev, i as int, m);
                assert(messages@ == prev.update(i as int, m));
            }
            i = i + 1;
        }
    }
}

/// A synthesized message packet: tick zero, neutral metadata.
pub fn msg_packet(messages: Vec<Message>) -> (r: Packet)
    ensures
        r == Packet::Message(MessagePacket {
            tick: 0,
            messages,
            meta: MessagePacketMeta { view_angles: ViewAngles::Cleared, rest: 0 },
        }),
{
    Packet::Message(MessagePacket {
        tick: 0,
        messages,
        meta: MessagePacketMeta { view_angles: ViewAngles::Cleared, rest: 0 },
    })
}

/// A synthetic time-reference message for the given server tick.
pub fn net_tick(tick: u32) -> (r: Message)
    ensures
        r == Message::NetTick(NetTickMessage { tick, frame_time: 1881, std_dev: 263 }),
{
    Message::NetTick(NetTickMessage { tick, frame_time: 1881, std_dev: 263 })
}

/// The start tick after clamping: never closer than ten ticks to the
/// recording's end.
pub open spec fn clamped_start(total: u32, from: u32) -> int {
    let margin: int = if total >= 10 {
        total - 10
    } else {
        0
    };
    if from > margin {
        margin
    } else {
        from as int
    }
}

/// The end tick after clamping: never past the recording's length and
/// never before the clamped start.
pub open spec fn clamped_end(total: u32, from: u32, to: u32) -> int {
    let s = clamped_start(total, from);
    let e: int = if to > total {
        total as int
    } else {
        to as int
    };
    if e < s {
        s
    } else {
        e
    }
}

/// Clamp a requested cut range to the bounds of a recording.
pub fn clamp_range(total_ticks: u32, from: u32, to: u32) -> (r: (u32, u32))
    ensures
        r.0 == clamped_start(total_ticks, from),
        r.1 == clamped_end(total_ticks, from, to),
        r.0 <= r.1 <= total_ticks,
{
    let margin: u32 = if total_ticks >= 10 {
        total_ticks - 10
    } else {
        0
    };
    let start: u32 = if from > margin {
        margin
    } else {
        from
    };
    let mut end: u32 = if to > total_ticks {
        total_ticks
    } else {
        to
    };
    if end < start {
        end = start;
    }
    (start, end)
}

/// What the replay pass hands the prefix synthesis: the tracker, the
/// buffered preserve-category packets, and the tick bookkeeping.
pub struct StartState {
    pub entities: ActiveEntities,
    pub start_packets: Vec<Packet>,
    pub server_tick: u32,
    pub entity_max: u16,
    pub last_delta: u32,
    pub consumed: Ghost<int>,
}

/// Replay the stream up to the cut point without emitting: buffer
/// preserve-category packets verbatim, drop console commands, observe
/// every other packet, and stop once an observed packet's tick reaches
/// the start tick.
fn skip_start(packets: &mut Vec<Packet>, start_tick: u32) -> (r: StartState)
    requires
        forall|i: int| 0 <= i < old(packets)@.len() ==> packet_sorted(#[trigger] old(packets)@[i]),
    ensures
        r.entities.wf(),
        0 <= r.consumed@ <= old(packets)@.len(),
        final(packets)@ == old(packets)@.skip(r.consumed@),
        ({
            let rs = replay_fold(ReplayState::initial(), old(packets)@.take(r.consumed@));
            &&& r.entities@ == rs.tracker
            &&& r.server_tick == rs.server_tick
            &&& r.last_delta == rs.last_delta
            &&& r.entity_max == rs.entity_max
        }),
        r.start_packets@ == old(packets)@.take(r.consumed@).filter(
            |p: Packet| p.spec_is_preserve(),
        ),
        forall|j: int|
            0 <= j < r.start_packets@.len() ==> (#[trigger] r.start_packets@[j]).spec_is_preserve()
                && packet_sorted(r.start_packets@[j]),
        forall|j: int|
            0 <= j < r.consumed@ - 1 && is_ordinary(#[trigger] old(packets)@[j]) ==> old(
                packets,
            )@[j].spec_tick() < start_tick,
        r.consumed@ == old(packets)@.len() || (r.consumed@ >= 1 && is_ordinary(
            old(packets)@[r.consumed@ - 1],
        ) && old(packets)@[r.consumed@ - 1].spec_tick() >= start_tick),
{
    let ghost orig = packets@;
    let n0: usize = packets.len();
    let mut entities = ActiveEntities::new();
    let mut start_packets: Vec<Packet> = Vec::new();
    let mut server_tick: u32 = 0;
    let mut entity_max: u16 = 0;
    let mut last_delta: u32 = 0;
    let mut consumed: usize = 0;
    let mut done = false;
    while !done && packets.len() > 0
        invariant
            orig.len() == n0,
            consumed + packets@.len() == orig.len(),
            packets@ == orig.skip(consumed as int),
            entities.wf(),
            ({
                let rs = replay_fold(ReplayState::initial(), orig.take(consumed as int));
                &&& entities@ == rs.tracker
                &&& server_tick == rs.server_tick
                &&& last_delta == rs.last_delta
                &&& entity_max == rs.entity_max
            }),
            forall|j: int|
                0 <= j < start_packets@.len() ==> (
                #[trigger] start_packets@[j]).spec_is_preserve() && packet_sorted(
                    start_packets@[j],
                ),
            start_packets@ == orig.take(consumed as int).filter(
                |p: Packet| p.spec_is_preserve(),
            ),
            forall|j: int|
                0 <= j < (if done {
                    consumed - 1
                } else {
                    consumed as int
                }) && is_ordinary(#[trigger] orig[j]) ==> orig[j].spec_tick() < start_tick,
            done ==> consumed >= 1 && is_ordinary(orig[consumed - 1]) && orig[
                consumed - 1
            ].spec_tick() >= start_tick,
            forall|i: int| 0 <= i < orig.len() ==> packet_sorted(#[trigger] orig[i]),
        decreases packets@.len(),
    {
        let ghost rs_before = replay_fold(ReplayState::initial(), orig.take(consumed as int));
        let p = packets.remove(0);
        proof {
            assert(p == orig[consumed as int]);
            assert(orig.skip(consumed as int).drop_first() =~= orig.skip(consumed + 1));
            assert(orig.take(consumed + 1) =~= orig.take(consumed as int).push(
                orig[consumed as int]));
            lemma_replay_fold_push(ReplayState::initial(), orig.take(consumed as int), orig[consumed as int]);
        }
        let ptick = p.tick();
        proof {
            reveal(Seq::filter);
            assert(orig.take(consumed + 1).drop_last() =~= orig.take(consumed as int));
            assert(orig.take(consumed + 1).last() == orig[consumed as int]);
        }
        if p.is_preserve() {
            start_packets.push(p);
        } else if matches!(p, Packet::ConsoleCmd(_, _)) {
            // dropped from observation and from the output alike
        } else {
            match &p {
                Packet::Message(mp) => {
                    let ghost rs0 = ReplayState {
                        tracker: entities@,
                        server_tick,
                        last_delta,
                        entity_max,
                    };
                    let mut k: usize = 0;
                    while k < mp.messages.len()
                        invariant
                            k <= mp.messages@.len(),
                            entities.wf(),
                            (ReplayState {
                                tracker: entities@,
                                server_tick,
                                last_delta,
                                entity_max,
                            }) == observe_replay_messages(
                                rs0,
                                mp.messages@.take(k as int),
                                mp.tick,
                            ),
                        decreases mp.messages@.len() - k,
                    {
                        let ghost before = ReplayState {
                            tracker: entities@,
                            server_tick,
                            last_delta,
                            entity_max,
                        };
                        match &mp.messages[k] {
                            Message::PacketEntities(em) => {
                                match em.delta {
                                    Some(d) => {
                                        last_delta = d;
                                    },
                                    None => {},
                                }
                                entity_max = em.max_entries;
                                entities.handle_message(em, mp.tick);
                            },
                            Message::NetTick(nt) => {
                                server_tick = nt.tick;
                            },
                            _ => {},
                        }
                        proof {
                            assert(ReplayState {
                                tracker: entities@,
                                server_tick,
                                last_delta,
                                entity_max,
                            } == observe_replay_message(before, mp.messages@[k as int], mp.tick));
                            assert(mp.messages@.take(k + 1) =~= mp.messages@.take(k as int).push(
                                mp.messages@[k as int]));
                            lemma_observe_replay_messages_push(rs0, mp.messages@.take(k as int), mp.messages@[k as int], mp.tick);
                        }
                        k = k + 1;
                    }
                    proof {
                        assert(mp.messages@.take(mp.messages@.len() as int) =~= mp.messages@);
                    }
                },
                _ => {},
            }
            if ptick >= start_tick {
                done = true;
            }
        }
        consumed = consumed + 1;
    }
    StartState {
        entities,
        start_packets,
        server_tick,
        entity_max,
        last_delta,
        consumed: Ghost(consumed as int),
    }
}

/// The synthetic time-reference message for a tick, as a value.
pub open spec fn net_tick_msg(tick: u32) -> Message {
    Message::NetTick(NetTickMessage { tick, frame_time: 1881, std_dev: 263 })
}

/// A synthesized packet pairing a time reference with one carried
/// message.
pub open spec fn note_packet(p: Packet, tick: u32, m: Message) -> bool {
    p matches Packet::Message(mp) && mp.tick == 0 && mp.messages@.len() == 2 && mp.messages@[0]
        == net_tick_msg(tick) && mp.messages@[1] == m
}

/// A synthesized packet carrying one refreshed baseline slot.
pub open spec fn baseline_note(
    p: Packet,
    d2: u32,
    slot: Map<u32, crate::types::EntityRec>,
    second: bool,
    max_entries: u16,
) -> bool {
    p matches Packet::Message(mp) && mp.tick == 0 && mp.messages@.len() == 2 && mp.messages@[0]
        == net_tick_msg(d2) && (mp.messages@[1] matches Message::PacketEntities(b) && b.sorted()
        && crate::store::ent_map(b.entities@) == slot && b.delta is None && b.updated_base_line
        && b.base_line_second == second && b.max_entries == max_entries
        && b.removed_entities@.len() == 0)
}

/// The synthesized packet carrying the full snapshot delta.
pub open spec fn snapshot_note(p: Packet, d2: u32, d1: u32, t: TrackerState) -> bool {
    p matches Packet::Message(mp) && mp.tick == 0 && mp.messages@.len() == 2 && mp.messages@[0]
        == net_tick_msg(d1) && (mp.messages@[1] matches Message::PacketEntities(m) && m.sorted()
        && crate::store::ent_map(m.entities@) == crate::cut::entity::snapshot_map(t) && m.delta
        == Some(d2) && m.max_entries == t.max_entries && m.removed_entities@.len() == 0
        && !m.base_line_second && !m.updated_base_line)
}

/// The synthesized packet carrying the replay's explicit removals.
pub open spec fn removal_note(p: Packet, d2: u32, last_delta: u32, t: TrackerState) -> bool {
    p matches Packet::Message(mp) && mp.tick == 0 && mp.messages@.len() == 2 && mp.messages@[0]
        == net_tick_msg(last_delta) && (mp.messages@[1] matches Message::PacketEntities(m)
        && m.entities@.len() == 0 && m.delta == Some((d2 + 1) as u32)
        && crate::store::u32s_sorted(m.removed_entities@) && (forall|id: u32|
        m.removed_entities@.contains(id) == t.removed.contains(id)) && m.max_entries
        == t.max_entries)
}

/// One synthetic time-reference filler: a tick bridge paired with an
/// empty delta update against the established baseline tick.
pub open spec fn filler_note(p: Packet, tick: u32, d1: u32, entity_max: u16) -> bool {
    p matches Packet::Message(mp) && mp.tick == 0 && mp.messages@.len() == 2 && mp.messages@[0]
        == net_tick_msg(tick) && (mp.messages@[1] matches Message::PacketEntities(m)
        && m.entities@.len() == 0 && m.removed_entities@.len() == 0 && m.delta == Some(d1)
        && m.max_entries == entity_max && !m.base_line_second && !m.updated_base_line)
}

/// One continuation packet's image in the output: the packet after
/// the options pipeline, the stale-reference guard and the tick
/// rebase.
pub open spec fn continuation_image(
    current: Set<u32>,
    till: u32,
    start: u32,
    y: Packet,
    z: Packet,
) -> bool {
    exists|z0: Packet|
        #[trigger] packet_guarded(current, till, y, z0) && crate::types::tick_change_only(z0, z)
            && z.spec_tick() == (if y.spec_tick() >= start {
            (y.spec_tick() - start) as u32
        } else {
            0u32
        })
}

/// The continuation threaded over the consumed remainder: every
/// packet through the options pipeline once, then the guard, then the
/// tick rebase; console commands and packets past the end tick are
/// dropped after processing, everything else is emitted in order.
pub open spec fn continued(
    us0: Seq<crate::mutate::PacketMutator>,
    us1: Seq<crate::mutate::PacketMutator>,
    current: Set<u32>,
    till: u32,
    start: u32,
    end: u32,
    input: Seq<Packet>,
    out: Seq<Packet>,
) -> bool
    decreases input.len(),
{
    if input.len() == 0 {
        us1 == us0 && out.len() == 0
    } else {
        exists|mid: Seq<crate::mutate::PacketMutator>, y: Packet|
            #[trigger] crate::mutate::pipeline_applied(mid, us1, input.last(), y) && (
            if y is ConsoleCmd || input.last().spec_tick() > end {
                continued(us0, mid, current, till, start, end, input.drop_last(), out)
            } else {
                out.len() >= 1 && continuation_image(current, till, start, y, out.last())
                    && continued(
                    us0,
                    mid,
                    current,
                    till,
                    start,
                    end,
                    input.drop_last(),
                    out.drop_last(),
                )
            })
    }
}

/// How many packets the synthesized prefix spans.
pub open spec fn prefix_len(input: Seq<Packet>, n: int, tables: Seq<Message>) -> int {
    let rs = replay_fold(ReplayState::initial(), input.take(n));
    let pres = input.take(n).filter(|p: Packet| p.spec_is_preserve());
    let fills: int = if rs.last_delta < rs.server_tick {
        rs.server_tick - rs.last_delta
    } else {
        0
    };
    pres.len() + tables.len() + 4 + fills
}

/// Everything the splice writes before the continuation, in order:
/// the preserve-category prefix verbatim, one note per string-table
/// update, the two refreshed baselines (oldest written first), the
/// snapshot delta, the closing removals, and one filler per bridged
/// server tick.
pub open spec fn synthesized_prefix(
    out: Seq<Packet>,
    input: Seq<Packet>,
    n: int,
    tables: Seq<Message>,
) -> bool {
    let rs = replay_fold(ReplayState::initial(), input.take(n));
    let pres = input.take(n).filter(|p: Packet| p.spec_is_preserve());
    let t = tables.len() as int;
    let d2: u32 = if rs.last_delta >= 2 {
        (rs.last_delta - 2) as u32
    } else {
        0u32
    };
    let d1: u32 = if rs.last_delta >= 1 {
        (rs.last_delta - 1) as u32
    } else {
        0u32
    };
    let fills: int = if rs.last_delta < rs.server_tick {
        rs.server_tick - rs.last_delta
    } else {
        0
    };
    &&& out.len() >= pres.len() + t + 4 + fills
    &&& (forall|j: int| 0 <= j < pres.len() ==> out[j] == #[trigger] pres[j])
    &&& (forall|k: int|
        0 <= k < t ==> note_packet(#[trigger] out[pres.len() + k], d2, tables[k]))
    &&& baseline_note(out[pres.len() + t], d2, rs.tracker.base1, true, rs.tracker.max_entries)
    &&& baseline_note(
        out[pres.len() + t + 1],
        d2,
        rs.tracker.base0,
        false,
        rs.tracker.max_entries,
    )
    &&& snapshot_note(out[pres.len() + t + 2], d2, d1, rs.tracker)
    &&& removal_note(out[pres.len() + t + 3], d2, rs.last_delta, rs.tracker)
    &&& (forall|k: int|
        0 <= k < fills ==> filler_note(
            #[trigger] out[pres.len() + t + 4 + k],
            (rs.last_delta + 1 + k) as u32,
            d1,
            rs.entity_max,
        ))
}

/// The mid-stream splice: replay the original stream to the cut
/// point, synthesize a self-consistent prefix from the captured
/// snapshot, then stream the remainder with its ticks rebased and the
/// stale-reference guard applied.
///
/// The returned header carries the clamped tick count. The returned
/// packet list opens with the synthesized prefix built from the
/// replay of the consumed input prefix, ends with the stream-stop
/// marker, carries no console commands, keeps every snapshot-bearing
/// message in ascending id order, and gives no packet but the
/// buffered preserve-category ones a tick past the new tick count.
#[verifier::rlimit(100)]
pub fn cut(
    header: &Header,
    packets: Vec<Packet>,
    options: &EditOptions,
    spectator_id: u32,
    table_updates: Vec<Message>,
) -> (r: (Header, Vec<Packet>))
    requires
        options.cut is Some,
        forall|i: int| 0 <= i < packets@.len() ==> packet_sorted(#[trigger] packets@[i]),
        forall|i: int|
            0 <= i < table_updates@.len() ==> (#[trigger] table_updates@[i]) is UpdateStringTable,
    ensures
        r.0.ticks == clamped_end(header.ticks, options.cut->0.from, options.cut->0.to)
            - clamped_start(header.ticks, options.cut->0.from),
        r.0.rest == header.rest,
        r.1@.len() >= 1,
        r.1@.last() == Packet::Stop(r.0.ticks),
        forall|i: int| 0 <= i < r.1@.len() ==> !((#[trigger] r.1@[i]) is ConsoleCmd),
        forall|i: int| 0 <= i < r.1@.len() ==> packet_sorted(#[trigger] r.1@[i]),
        forall|i: int|
            0 <= i < r.1@.len() && !(#[trigger] r.1@[i]).spec_is_preserve() ==> r.1@[i].spec_tick()
                <= r.0.ticks,
        exists|n: int, m: int, us0: Seq<crate::mutate::PacketMutator>, us1: Seq<
            crate::mutate::PacketMutator,
        >|
            {
                let rs = replay_fold(ReplayState::initial(), packets@.take(n));
                let start = clamped_start(header.ticks, options.cut->0.from);
                let end = clamped_end(header.ticks, options.cut->0.from, options.cut->0.to);
                &&& 0 <= n <= n + m <= packets@.len()
                &&& (forall|j: int|
                    0 <= j < n - 1 && is_ordinary(#[trigger] packets@[j]) ==> packets@[
                        j
                    ].spec_tick() < start)
                &&& (n == packets@.len() || (n >= 1 && is_ordinary(packets@[n - 1]) && packets@[
                    n - 1
                ].spec_tick() >= start))
                &&& synthesized_prefix(r.1@, packets@, n, table_updates@)
                &&& (forall|j: int|
                    n <= j < n + m - 1 ==> (#[trigger] packets@[j]).spec_tick() < end)
                &&& (n + m == packets@.len() || (m >= 1 && packets@[n + m - 1].spec_tick() >= end))
                &&& options.pipeline_spec(spectator_id, us0)
                &&& #[trigger] continued(
                    us0,
                    us1,
                    replay_fold(
                        ReplayState::initial(),
                        packets@.take(n),
                    ).tracker.ents.dom(),
                    replay_fold(ReplayState::initial(), packets@.take(n)).server_tick,
                    clamped_start(header.ticks, options.cut->0.from) as u32,
                    clamped_end(header.ticks, options.cut->0.from, options.cut->0.to) as u32,
                    packets@.subrange(n, n + m),
                    r.1@.subrange(prefix_len(packets@, n, table_updates@), r.1@.len() - 1),
                )
            },
{
    let range = match options.cut {
        Some(range) => range,
        None => TickRange { from: 0, to: 0 },
    };
    let (start_tick, end_tick) = clamp_range(header.ticks, range.from, range.to);
    let out_ticks = end_tick - start_tick;
    let out_header = Header { ticks: out_ticks, rest: header.rest };
    let mut mutators = options.as_mutator(spectator_id);

    let ghost input = packets@;
    let mut stream = packets;
    let len0: usize = stream.len();
    let start_state = skip_start(&mut stream, start_tick);
    let ghost n = start_state.consumed@;
    let ghost rs = replay_fold(ReplayState::initial(), input.take(n));
    let StartState { entities, start_packets, server_tick, entity_max, last_delta, consumed: _ } =
        start_state;
    let ghost pres = input.take(n).filter(|p: Packet| p.spec_is_preserve());

    // The buffered preserve-category packets, verbatim.
    let mut out: Vec<Packet> = start_packets;

    // Prefix synthesis from the captured snapshot.
    let delta_tick = last_delta;
    let d2: u32 = if delta_tick >= 2 {
        delta_tick - 2
    } else {
        0
    };
    let d1: u32 = if delta_tick >= 1 {
        delta_tick - 1
    } else {
        0
    };
    let live_ids = entities.entity_ids();
    let current = IdSet { v: live_ids };
    let (baselines, entity_update, removed_update) = entities.encode(d2);

    let ghost tables = table_updates@;
    let mut tu = table_updates;
    let mut notes: Vec<Packet> = Vec::new();
    while tu.len() > 0
        invariant
            notes@.len() + tu@.len() == tables.len(),
            tu@ == tables.skip(notes@.len() as int),
            forall|k: int|
                0 <= k < notes@.len() ==> note_packet(#[trigger] notes@[k], d2, tables[k])
                    && packet_sorted(notes@[k]) && !(notes@[k] is ConsoleCmd) && notes@[
                    k
                ].spec_tick() == 0,
            forall|i: int| 0 <= i < tu@.len() ==> (#[trigger] tu@[i]) is UpdateStringTable,
        decreases tu@.len(),
    {
        let ghost done = notes@.len() as int;
        let m = tu.remove(0);
        proof {
            assert(m == tables[done]);
            assert(tables.skip(done).drop_first() =~= tables.skip(done + 1));
        }
        let mut msgs: Vec<Message> = Vec::new();
        msgs.push(net_tick(d2));
        msgs.push(m);
        let p = msg_packet(msgs);
        proof {
            assert(packet_sorted(p));
            assert(note_packet(p, d2, tables[done]));
        }
        notes.push(p);
    }
    out.append(&mut notes);

    let mut bl = baselines;
    let b0_msg = bl.remove(0);
    let b1_msg = bl.remove(0);
    let mut msgs_b0: Vec<Message> = Vec::new();
    msgs_b0.push(net_tick(d2));
    msgs_b0.push(Message::PacketEntities(b0_msg));
    let pb0 = msg_packet(msgs_b0);
    let mut msgs_b1: Vec<Message> = Vec::new();
    msgs_b1.push(net_tick(d2));
    msgs_b1.push(Message::PacketEntities(b1_msg));
    let pb1 = msg_packet(msgs_b1);
    proof {
        assert(baseline_note(pb0, d2, rs.tracker.base1, true, rs.tracker.max_entries));
        assert(baseline_note(pb1, d2, rs.tracker.base0, false, rs.tracker.max_entries));
    }
    out.push(pb0);
    out.push(pb1);

    let mut msgs1: Vec<Message> = Vec::new();
    msgs1.push(net_tick(d1));
    msgs1.push(Message::PacketEntities(entity_update));
    let p1 = msg_packet(msgs1);
    proof {
        assert(snapshot_note(p1, d2, d1, rs.tracker));
    }
    out.push(p1);

    let mut msgs2: Vec<Message> = Vec::new();
    msgs2.push(net_tick(delta_tick));
    msgs2.push(Message::PacketEntities(removed_update));
    let p2 = msg_packet(msgs2);
    proof {
        assert(removal_note(p2, d2, rs.last_delta, rs.tracker));
    }
    out.push(p2);

    // Synthetic time-reference fillers bridging every server tick up
    // to the last one observed.
    let ghost fills: int = if rs.last_delta < rs.server_tick {
        rs.server_tick - rs.last_delta
    } else {
        0
    };
    let mut fill_pkts: Vec<Packet> = Vec::new();
    let mut t: u32 = delta_tick;
    while t < server_tick
        invariant
            t >= delta_tick,
            t <= server_tick || fill_pkts@.len() == 0,
            fill_pkts@.len() == t - delta_tick,
            forall|k: int|
                0 <= k < fill_pkts@.len() ==> filler_note(
                    #[trigger] fill_pkts@[k],
                    (delta_tick + 1 + k) as u32,
                    d1,
                    entity_max,
                ) && packet_sorted(fill_pkts@[k]) && !(fill_pkts@[k] is ConsoleCmd) && fill_pkts@[
                    k
                ].spec_tick() == 0,
        decreases server_tick - t,
    {
        t = t + 1;
        let mut msgs: Vec<Message> = Vec::new();
        msgs.push(net_tick(t));
        msgs.push(Message::PacketEntities(PacketEntitiesMessage {
            entities: Vec::new(),
            removed_entities: Vec::new(),
            max_entries: entity_max,
            delta: Some(d1),
            base_line_second: false,
            updated_base_line: false,
        }));
        let p = msg_packet(msgs);
        proof {
            assert(packet_sorted(p));
            assert(filler_note(p, t, d1, entity_max));
        }
        fill_pkts.push(p);
    }
    out.append(&mut fill_pkts);

    let ghost synth = out@;
    proof {
        assert(synthesized_prefix(synth, input, n, tables));
        assert(synth.len() == prefix_len(input, n, tables));
        assert(forall|i: int| 0 <= i < synth.len() ==> !((#[trigger] synth[i]) is ConsoleCmd));
        assert(forall|i: int| 0 <= i < synth.len() ==> packet_sorted(#[trigger] synth[i]));
        assert(forall|i: int|
            0 <= i < synth.len() && !(#[trigger] synth[i]).spec_is_preserve() ==> synth[
                i
            ].spec_tick() <= out_ticks);
    }

    // Continuation: rebase ticks, run the pipeline and the guard, drop
    // console commands, stop once the original tick reaches the end.
    let delete_filter = DeleteFilter::new(current, server_tick);
    let ghost us_cont0 = mutators@;
    let ghost curset = delete_filter.current();
    proof {
        assert(curset =~= rs.tracker.ents.dom());
        assert(input.subrange(n, n as int) =~= Seq::<Packet>::empty());
        assert(out@.subrange(synth.len() as int, out@.len() as int) =~= Seq::<Packet>::empty());
    }
    let mut done = false;
    let mut ci: usize = 0;
    while !done && stream.len() > 0
        invariant
            mutators.inv(),
            delete_filter.wf(),
            delete_filter.current() == curset,
            delete_filter.till() == server_tick,
            input.len() == len0,
            n + ci + stream@.len() == input.len(),
            stream@ == input.skip(n + ci as int),
            continued(
                us_cont0,
                mutators@,
                curset,
                server_tick,
                start_tick,
                end_tick,
                input.subrange(n, n + ci as int),
                out@.subrange(synth.len() as int, out@.len() as int),
            ),
            !done ==> (forall|j: int|
                n <= j < n + ci as int ==> (#[trigger] input[j]).spec_tick() < end_tick),
            done ==> (forall|j: int|
                n <= j < n + ci - 1 ==> (#[trigger] input[j]).spec_tick() < end_tick),
            done ==> ci >= 1 && input[n + ci - 1].spec_tick() >= end_tick,
            out@.len() >= synth.len(),
            forall|j: int| 0 <= j < synth.len() ==> out@[j] == #[trigger] synth[j],
            forall|i: int| 0 <= i < stream@.len() ==> packet_sorted(#[trigger] stream@[i]),
            forall|i: int| 0 <= i < out@.len() ==> !((#[trigger] out@[i]) is ConsoleCmd),
            forall|i: int| 0 <= i < out@.len() ==> packet_sorted(#[trigger] out@[i]),
            forall|i: int|
                0 <= i < out@.len() && !(#[trigger] out@[i]).spec_is_preserve() ==> out@[
                    i
                ].spec_tick() <= out_ticks,
        decreases stream@.len(),
    {
        let ghost units_before = mutators@;
        let ghost out_before = out@;
        let mut p = stream.remove(0);
        proof {
            assert(p == input[n + ci as int]);
            assert(input.skip(n + ci as int).drop_first() =~= input.skip(n + ci + 1));
        }
        let original_tick = p.tick();
        proof {
            assert(input[n + ci as int].spec_tick() == original_tick);
        }
        mutators.mutate_packet(&mut p);
        let ghost y = p;
        delete_filter.mutate_packet(&mut p);
        let ghost z0 = p;
        let shifted: u32 = if original_tick >= start_tick {
            original_tick - start_tick
        } else {
            0
        };
        let ghost before_shift = p;
        p.set_tick(shifted);
        let ghost z = p;
        proof {
            assert(packet_sorted(before_shift) ==> packet_sorted(p));
        }
        let is_console = matches!(p, Packet::ConsoleCmd(_, _));
        let emitted = !is_console && original_tick <= end_tick;
        if emitted {
            out.push(p);
        }
        proof {
            assert(input.subrange(n, n + ci + 1).drop_last() =~= input.subrange(
                n,
                n + ci as int,
            ));
            assert(input.subrange(n, n + ci + 1).last() == input[n + ci as int]);
            assert(crate::mutate::pipeline_applied(
                units_before,
                mutators@,
                input.subrange(n, n + ci + 1).last(),
                y,
            ));
            if emitted {
                assert(packet_guarded(curset, server_tick, y, z0));
                assert(crate::types::tick_change_only(z0, z));
                assert(continuation_image(curset, server_tick, start_tick, y, z));
                assert(out@.subrange(synth.len() as int, out@.len() as int).drop_last()
                    =~= out_before.subrange(synth.len() as int, out_before.len() as int));
                assert(out@.subrange(synth.len() as int, out@.len() as int).last() == z);
            } else {
                assert(out@.subrange(synth.len() as int, out@.len() as int) =~= out_before.subrange(
                    synth.len() as int,
                    out_before.len() as int,
                ));
            }
            assert(continued(
                us_cont0,
                mutators@,
                curset,
                server_tick,
                start_tick,
                end_tick,
                input.subrange(n, n + ci + 1),
                out@.subrange(synth.len() as int, out@.len() as int),
            ));
        }
        if original_tick >= end_tick {
            done = true;
        }
        ci = ci + 1;
    }

    let ghost cont_out = out@.subrange(synth.len() as int, out@.len() as int);
    out.push(Packet::Stop(out_ticks));
    proof {
        assert(out@.subrange(synth.len() as int, out@.len() - 1) =~= cont_out);
        assert(options.pipeline_spec(spectator_id, us_cont0));
        assert(continued(
            us_cont0,
            mutators@,
            curset,
            server_tick,
            start_tick,
            end_tick,
            input.subrange(n, n + ci as int),
            out@.subrange(prefix_len(input, n, tables), out@.len() - 1),
        ));
        assert(curset == replay_fold(
            ReplayState::initial(),
            packets@.take(n),
        ).tracker.ents.dom());
        assert(server_tick == replay_fold(ReplayState::initial(), packets@.take(n)).server_tick);
        assert(start_tick == clamped_start(header.ticks, options.cut->0.from) as u32);
        assert(end_tick == clamped_end(
            header.ticks,
            options.cut->0.from,
            options.cut->0.to,
        ) as u32);
        assert(continued(
            us_cont0,
            mutators@,
            replay_fold(ReplayState::initial(), packets@.take(n)).tracker.ents.dom(),
            replay_fold(ReplayState::initial(), packets@.take(n)).server_tick,
            clamped_start(header.ticks, options.cut->0.from) as u32,
            clamped_end(header.ticks, options.cut->0.from, options.cut->0.to) as u32,
            packets@.subrange(n, n + ci as int),
            out@.subrange(prefix_len(packets@, n, table_updates@), out@.len() - 1),
        ));
        let pd2: u32 = if rs.last_delta >= 2 {
            (rs.last_delta - 2) as u32
        } else {
            0u32
        };
        let pd1: u32 = if rs.last_delta >= 1 {
            (rs.last_delta - 1) as u32
        } else {
            0u32
        };
        let pt = tables.len() as int;
        assert(out@.len() >= synth.len());
        assert forall|j: int| 0 <= j < synth.len() implies out@[j] == synth[j] by {}
        assert forall|j: int| 0 <= j < pres.len() implies out@[j] == #[trigger] pres[j] by {
            assert(out@[j] == synth[j]);
        }
        assert forall|k: int| 0 <= k < pt implies note_packet(
            #[trigger] out@[pres.len() + k],
            pd2,
            tables[k],
        ) by {
            assert(out@[pres.len() + k] == synth[pres.len() + k]);
            assert(note_packet(synth[pres.len() + k], pd2, tables[k]));
        }
        assert(out@[pres.len() + pt] == synth[pres.len() + pt]);
        assert(out@[pres.len() + pt + 1] == synth[pres.len() + pt + 1]);
        assert(out@[pres.len() + pt + 2] == synth[pres.len() + pt + 2]);
        assert(out@[pres.len() + pt + 3] == synth[pres.len() + pt + 3]);
        assert forall|k: int| 0 <= k < fills implies filler_note(
            #[trigger] out@[pres.len() + pt + 4 + k],
            (rs.last_delta + 1 + k) as u32,
            pd1,
            rs.entity_max,
        ) by {
            assert(out@[pres.len() + pt + 4 + k] == synth[pres.len() + pt + 4 + k]);
            assert(filler_note(
                synth[pres.len() + pt + 4 + k],
                (rs.last_delta + 1 + k) as u32,
                pd1,
                rs.entity_max,
            ));
        }
        assert(synthesized_prefix(out@, input, n, tables));
    }
    (out_header, out)
}

} // verus!