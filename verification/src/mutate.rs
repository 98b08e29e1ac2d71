use vstd::prelude::*;

use crate::cond::CondMask;
use crate::missing_preserve::RemoveInvalidPreserveEntity;
use crate::pov::AddStvEntity;
use crate::types::{Message, MessagePacketMeta, Packet, UserMessageKind, ViewAngles};

verus! {

/// Whether a message respects the ascending-id invariant of
/// snapshot-bearing messages.
pub open spec fn msg_sorted(m: Message) -> bool {
    match m {
        Message::PacketEntities(em) => em.sorted(),
        _ => true,
    }
}

/// Whether every snapshot-bearing message of a packet respects the
/// ascending-id invariant.
pub open spec fn packet_sorted(p: Packet) -> bool {
    match p {
        Packet::Signon(mp) => forall|i: int|
            0 <= i < mp.messages@.len() ==> msg_sorted(#[trigger] mp.messages@[i]),
        Packet::Message(mp) => forall|i: int|
            0 <= i < mp.messages@.len() ==> msg_sorted(#[trigger] mp.messages@[i]),
        _ => true,
    }
}

/// One message-level rewrite of the closed set the pipeline knows.
pub enum MessageMutator {
    /// Tags the advertised server name as edited.
    ServerNameTag,
    /// Drops removals of entities that were never declared.
    RemoveInvalidPreserve(RemoveInvalidPreserveEntity),
    /// Masks condition bits out of player records.
    CondMask(CondMask),
    /// Points the session description at the spectator slot.
    PovServerInfo(u32),
    /// Marks the session description as a spectator recording.
    StvFlag,
    /// Declares the spectator entity once.
    AddStvEntity(AddStvEntity),
}

/// How one rewrite relates its state and a message to their
/// rewritten forms: the concrete relation of whichever rewrite it is.
pub open spec fn message_rewritten(
    before: MessageMutator,
    after: MessageMutator,
    x: Message,
    y: Message,
) -> bool {
    match before {
        MessageMutator::ServerNameTag => after == before && crate::options::name_tagged(x, y),
        MessageMutator::RemoveInvalidPreserve(r0) => (after matches
            MessageMutator::RemoveInvalidPreserve(r1) && r0.preserve_guarded(r1, x, y)),
        MessageMutator::CondMask(m) => after == before && m.cond_masked(x, y),
        MessageMutator::PovServerInfo(id) => after == before && crate::pov::pov_slot_set(x, y, id),
        MessageMutator::StvFlag => after == before && crate::pov::stv_flagged(x, y),
        MessageMutator::AddStvEntity(a0) => (after matches MessageMutator::AddStvEntity(a1)
            && a0.stv_spliced(a1, x, y)),
    }
}

impl MessageMutator {
    /// The internal invariant a rewrite's state keeps.
    pub open spec fn inv(&self) -> bool {
        match *self {
            MessageMutator::RemoveInvalidPreserve(m) => m.wf(),
            _ => true,
        }
    }

    /// Apply this rewrite to one message.
    pub fn mutate_message(&mut self, message: &mut Message)
        requires
            old(self).inv(),
        ensures
            final(self).inv(),
            message_rewritten(*old(self), *final(self), *old(message), *final(message)),
            msg_sorted(*old(message)) ==> msg_sorted(*final(message)),
    {
        match self {
            MessageMutator::ServerNameTag => {
                crate::options::tag_server_name(message);
            },
            MessageMutator::RemoveInvalidPreserve(m) => {
                m.mutate_message(message);
            },
            MessageMutator::CondMask(m) => {
                m.mutate_message(message);
            },
            MessageMutator::PovServerInfo(spectator_id) => {
                let id = *spectator_id;
                crate::pov::set_pov_slot(message, id);
            },
            MessageMutator::StvFlag => {
                crate::pov::set_stv_flag(message);
            },
            MessageMutator::AddStvEntity(m) => {
                m.mutate_message(message);
            },
        }
    }
}

/// One message filter of the closed set the pipeline knows.
pub enum MessageFilter {
    /// Drops closed-caption user messages.
    DropCloseCaption,
    /// Drops view-binding messages.
    DropSetView,
    /// Drops menu user messages.
    DropVGuiMenu,
}

impl MessageFilter {
    /// Whether this filter keeps a message.
    pub open spec fn keeps(&self, m: Message) -> bool {
        match *self {
            MessageFilter::DropCloseCaption => !(m matches Message::UserMessage(
                UserMessageKind::CloseCaption,
                _,
            )),
            MessageFilter::DropSetView => !(m is SetView),
            MessageFilter::DropVGuiMenu => !(m matches Message::UserMessage(
                UserMessageKind::VGuiMenu,
                _,
            )),
        }
    }

    pub fn filter(&self, message: &Message) -> (keep: bool)
        ensures
            keep == self.keeps(*message),
    {
        match self {
            MessageFilter::DropCloseCaption => !matches!(
                message,
                Message::UserMessage(UserMessageKind::CloseCaption, _)
            ),
            MessageFilter::DropSetView => !matches!(message, Message::SetView(_)),
            MessageFilter::DropVGuiMenu => !matches!(
                message,
                Message::UserMessage(UserMessageKind::VGuiMenu, _)
            ),
        }
    }
}

/// A message-level rewrite lifted to whole packets.
pub struct PacketMessageMutator {
    pub mutator: MessageMutator,
}

/// A message filter lifted to whole packets.
pub struct PacketMessageFilter {
    pub filter: MessageFilter,
}

/// One packet-level rewrite of the closed set the pipeline knows.
pub enum PacketMutator {
    /// Applies a message rewrite to every message of the packet.
    Message(PacketMessageMutator),
    /// Drops the messages a filter rejects.
    Filter(PacketMessageFilter),
    /// Clears the recorded view angles of message packets.
    ClearViewAngles,
}

/// A message rewrite threaded over a message list, in order: each
/// message rewritten once, each step observing the state the earlier
/// ones left.
pub open spec fn messages_rewritten(
    m0: MessageMutator,
    m1: MessageMutator,
    before: Seq<Message>,
    after: Seq<Message>,
) -> bool
    decreases before.len(),
{
    if before.len() == 0 {
        m1 == m0 && after.len() == 0
    } else {
        after.len() == before.len() && exists|mid: MessageMutator|
            messages_rewritten(m0, mid, before.drop_last(), after.drop_last())
                && #[trigger] message_rewritten(mid, m1, before.last(), after.last())
    }
}

/// Apply a message rewrite to every message of a list, in order.
fn mutate_messages(mutator: &mut MessageMutator, messages: &mut Vec<Message>)
    requires
        old(mutator).inv(),
    ensures
        final(mutator).inv(),
        messages_rewritten(*old(mutator), *final(mutator), old(messages)@, final(messages)@),
        final(messages)@.len() == old(messages)@.len(),
        (forall|t: int|
            0 <= t < old(messages)@.len() ==> msg_sorted(#[trigger] old(messages)@[t])) ==> (
        forall|t: int|
            0 <= t < final(messages)@.len() ==> msg_sorted(#[trigger] final(messages)@[t])),
{
    let mut i: usize = 0;
    while i < messages.len()
        invariant
            i <= messages@.len(),
            mutator.inv(),
            messages@.len() == old(messages)@.len(),
            messages_rewritten(
                *old(mutator),
                *mutator,
                old(messages)@.take(i as int),
                messages@.take(i as int),
            ),
            (forall|t: int|
                0 <= t < old(messages)@.len() ==> msg_sorted(#[trigger] old(messages)@[t]))
                ==> (forall|t: int| 0 <= t < i ==> msg_sorted(#[trigger] messages@[t])),
            forall|t: int| i <= t < messages@.len() ==> messages@[t] == old(messages)@[t],
        decreases messages@.len() - i,
    {
        let ghost prev = messages@;
        let ghost mut_before = *mutator;
        let mut m = messages.remove(i);
        mutator.mutate_message(&mut m);
        messages.insert(i, m);
        proof {
            vstd::seq_lib::lemma_update_is_remove_insert(prev, i as int, m);
            assert(messages@ == prev.update(i as int, m));
            assert(old(messages)@.take(i + 1).drop_last() =~= old(messages)@.take(i as int));
            assert(messages@.take(i + 1).drop_last() =~= prev.take(i as int));
            assert(old(messages)@.take(i + 1).last() == old(messages)@[i as int]);
            assert(messages@.take(i + 1).last() == m);
            assert(messages_rewritten(
                *old(mutator),
                mut_before,
                old(messages)@.take(i + 1).drop_last(),
                messages@.take(i + 1).drop_last(),
            ));
            assert(message_rewritten(
                mut_before,
                *mutator,
                old(messages)@.take(i + 1).last(),
                messages@.take(i + 1).last(),
            ));
            assert(messages_rewritten(
                *old(mutator),
                *mutator,
                old(messages)@.take(i + 1),
                messages@.take(i + 1),
            ));
        }
        i = i + 1;
    }
    proof {
        assert(old(messages)@.take(old(messages)@.len() as int) =~= old(messages)@);
        assert(messages@.take(messages@.len() as int) =~= messages@);
    }
}

/// Keep only the messages a filter accepts, in order.
fn filter_messages(filter: &MessageFilter, messages: &mut Vec<Message>)
    ensures
        final(messages)@ == old(messages)@.filter(|m: Message| filter.keeps(m)),
        forall|t: int|
            0 <= t < final(messages)@.len() ==> old(messages)@.contains(
                #[trigger] final(messages)@[t],
            ),
{
    let ghost orig = messages@;
    let ghost pred = |m: Message| filter.keeps(m);
    let n: usize = messages.len();
    let mut out: Vec<Message> = Vec::new();
    let mut i: usize = 0;
    while messages.len() > 0
        invariant
            orig.len() == n,
            i + messages@.len() == orig.len(),
            messages@ == orig.skip(i as int),
            out@ == orig.take(i as int).filter(pred),
            forall|t: int| 0 <= t < out@.len() ==> orig.contains(#[trigger] out@[t]),
        decreases messages@.len(),
    {
        let m = messages.remove(0);
        proof {
            assert(m == orig[i as int]);
            assert(orig.skip(i as int).drop_first() =~= orig.skip(i + 1));
        }
        let keep = filter.filter(&m);
        proof {
            reveal(Seq::filter);
            assert(orig.take(i + 1) =~= orig.take(i as int).push(orig[i as int]));
            assert(orig.take(i + 1).drop_last() =~= orig.take(i as int));
            assert(orig.take(i + 1).last() == orig[i as int]);
        }
        if keep {
            out.push(m);
            proof {
                assert(orig.contains(orig[i as int]));
            }
        }
        i = i + 1;
    }
    proof {
        assert(orig.take(i as int) =~= orig);
    }
    *messages = out;
}

/// How one packet-level rewrite relates its state and a packet to
/// their rewritten forms.
pub open spec fn unit_applied(u0: PacketMutator, u1: PacketMutator, x: Packet, y: Packet) -> bool {
    match u0 {
        PacketMutator::Message(pm0) => (u1 matches PacketMutator::Message(pm1) && (match (x, y) {
            (Packet::Message(b), Packet::Message(a)) => a.tick == b.tick && a.meta == b.meta
                && messages_rewritten(pm0.mutator, pm1.mutator, b.messages@, a.messages@),
            (Packet::Signon(b), Packet::Signon(a)) => a.tick == b.tick && a.meta == b.meta
                && messages_rewritten(pm0.mutator, pm1.mutator, b.messages@, a.messages@),
            _ => y == x && pm1 == pm0 && !(x is Message) && !(x is Signon),
        })),
        PacketMutator::Filter(pf) => u1 == u0 && (match (x, y) {
            (Packet::Message(b), Packet::Message(a)) => a.tick == b.tick && a.meta == b.meta
                && a.messages@ == b.messages@.filter(|m: Message| pf.filter.keeps(m)),
            (Packet::Signon(b), Packet::Signon(a)) => a.tick == b.tick && a.meta == b.meta
                && a.messages@ == b.messages@.filter(|m: Message| pf.filter.keeps(m)),
            _ => y == x && !(x is Message) && !(x is Signon),
        }),
        PacketMutator::ClearViewAngles => u1 == u0 && (match (x, y) {
            (Packet::Message(b), Packet::Message(a)) => a.tick == b.tick && a.messages@
                == b.messages@ && a.meta == (MessagePacketMeta {
                view_angles: ViewAngles::Cleared,
                rest: b.meta.rest,
            }),
            _ => y == x && !(x is Message),
        }),
    }
}

impl PacketMutator {
    /// The internal invariant a rewrite's state keeps.
    pub open spec fn inv(&self) -> bool {
        match *self {
            PacketMutator::Message(pm) => pm.mutator.inv(),
            _ => true,
        }
    }

    /// Apply this rewrite to one packet. Every rewrite of the closed
    /// set leaves the packet's tick alone and keeps the ascending-id
    /// invariant of its snapshot-bearing messages.
    pub fn mutate_packet(&mut self, packet: &mut Packet)
        requires
            old(self).inv(),
        ensures
            final(self).inv(),
            unit_applied(*old(self), *final(self), *old(packet), *final(packet)),
            final(packet).spec_tick() == old(packet).spec_tick(),
            packet_sorted(*old(packet)) ==> packet_sorted(*final(packet)),
            *old(packet) is ConsoleCmd <==> *final(packet) is ConsoleCmd,
            *old(packet) is UserCmd <==> *final(packet) is UserCmd,
            *old(packet) is Stop <==> *final(packet) is Stop,
    {
        match self {
            PacketMutator::Message(pm) => {
                match packet {
                    Packet::Message(mp) => {
                        mutate_messages(&mut pm.mutator, &mut mp.messages);
                    },
                    Packet::Signon(mp) => {
                        mutate_messages(&mut pm.mutator, &mut mp.messages);
                    },
                    _ => {},
                }
            },
            PacketMutator::Filter(pf) => {
                match packet {
                    Packet::Message(mp) => {
                        filter_messages(&pf.filter, &mut mp.messages);
                        proof {
                            assert forall|t: int|
                                0 <= t < mp.messages@.len() && packet_sorted(*old(packet))
                                    implies msg_sorted(#[trigger] mp.messages@[t]) by {
                                let m = mp.messages@[t];
                                let j = choose|j: int|
                                    0 <= j < old(packet)->Message_0.messages@.len()
                                        && #[trigger] old(packet)->Message_0.messages@[j] == m;
                            }
                        }
                    },
                    Packet::Signon(mp) => {
                        filter_messages(&pf.filter, &mut mp.messages);
                        proof {
                            assert forall|t: int|
                                0 <= t < mp.messages@.len() && packet_sorted(*old(packet))
                                    implies msg_sorted(#[trigger] mp.messages@[t]) by {
                                let m = mp.messages@[t];
                                let j = choose|j: int|
                                    0 <= j < old(packet)->Signon_0.messages@.len()
                                        && #[trigger] old(packet)->Signon_0.messages@[j] == m;
                            }
                        }
                    },
                    _ => {},
                }
            },
            PacketMutator::ClearViewAngles => {
                match packet {
                    Packet::Message(mp) => {
                        mp.meta.view_angles = ViewAngles::Cleared;
                    },
                    _ => {},
                }
            },
        }
    }
}

/// A whole pipeline threaded over one packet: every unit applied
/// once, in registration order, each observing the packet and unit
/// states the earlier ones left.
pub open spec fn pipeline_applied(
    us0: Seq<PacketMutator>,
    us1: Seq<PacketMutator>,
    x: Packet,
    y: Packet,
) -> bool
    decreases us0.len(),
{
    if us0.len() == 0 {
        us1.len() == 0 && y == x
    } else {
        us1.len() == us0.len() && exists|mid: Packet|
            pipeline_applied(us0.drop_last(), us1.drop_last(), x, mid) && #[trigger] unit_applied(
                us0.last(),
                us1.last(),
                mid,
                y,
            )
    }
}

/// A pipeline threaded over a whole stream: every packet through the
/// pipeline once, in order; console commands — and, where asked, user
/// commands — are dropped after rewriting, everything else is kept in
/// order.
pub open spec fn stream_rewritten(
    us0: Seq<PacketMutator>,
    us1: Seq<PacketMutator>,
    input: Seq<Packet>,
    out: Seq<Packet>,
    drop_usercmd: bool,
) -> bool
    decreases input.len(),
{
    if input.len() == 0 {
        us1 == us0 && out.len() == 0
    } else {
        exists|mid: Seq<PacketMutator>, y: Packet|
            #[trigger] pipeline_applied(mid, us1, input.last(), y) && (if y is ConsoleCmd || (
            drop_usercmd && y is UserCmd) {
                stream_rewritten(us0, mid, input.drop_last(), out, drop_usercmd)
            } else {
                out.len() >= 1 && out.last() == y && stream_rewritten(
                    us0,
                    mid,
                    input.drop_last(),
                    out.drop_last(),
                    drop_usercmd,
                )
            })
    }
}

/// The transformation pipeline: an ordered list of packet-level
/// rewrites, applied to every packet exactly once, in registration
/// order, each observing the state the earlier ones left.
pub struct MutatorList {
    mutators: Vec<PacketMutator>,
}

impl MutatorList {
    /// The registered rewrites, in application order.
    pub closed spec fn view(&self) -> Seq<PacketMutator> {
        self.mutators@
    }

    /// The internal invariant of every registered rewrite holds.
    pub closed spec fn inv(&self) -> bool {
        forall|i: int| 0 <= i < self.mutators@.len() ==> (#[trigger] self.mutators@[i]).inv()
    }

    pub fn new() -> (r: MutatorList)
        ensures
            r.inv(),
            r@ == Seq::<PacketMutator>::empty(),
    {
        let r = MutatorList { mutators: Vec::new() };
        proof {
            assert(r@ =~= Seq::<PacketMutator>::empty());
        }
        r
    }

    pub fn push_packet_mutator(&mut self, mutator: PacketMutator)
        requires
            old(self).inv(),
            mutator.inv(),
        ensures
            final(self).inv(),
            final(self)@ == old(self)@.push(mutator),
    {
        self.mutators.push(mutator);
    }

    pub fn push_message_mutator(&mut self, mutator: MessageMutator)
        requires
            old(self).inv(),
            mutator.inv(),
        ensures
            final(self).inv(),
            final(self)@ == old(self)@.push(
                PacketMutator::Message(PacketMessageMutator { mutator }),
            ),
    {
        self.mutators.push(PacketMutator::Message(PacketMessageMutator { mutator }));
    }

    pub fn push_message_filter(&mut self, filter: MessageFilter)
        requires
            old(self).inv(),
        ensures
            final(self).inv(),
            final(self)@ == old(self)@.push(PacketMutator::Filter(PacketMessageFilter { filter })),
    {
        self.mutators.push(PacketMutator::Filter(PacketMessageFilter { filter }));
    }

    /// Run every registered rewrite over one packet, in order.
    pub fn mutate_packet(&mut self, packet: &mut Packet)
        requires
            old(self).inv(),
        ensures
            final(self).inv(),
            pipeline_applied(old(self)@, final(self)@, *old(packet), *final(packet)),
            final(packet).spec_tick() == old(packet).spec_tick(),
            packet_sorted(*old(packet)) ==> packet_sorted(*final(packet)),
            *old(packet) is ConsoleCmd <==> *final(packet) is ConsoleCmd,
            *old(packet) is UserCmd <==> *final(packet) is UserCmd,
            *old(packet) is Stop <==> *final(packet) is Stop,
    {
        let mut i: usize = 0;
        while i < self.mutators.len()
            invariant
                self.inv(),
                self.mutators@.len() == old(self).mutators@.len(),
                pipeline_applied(
                    old(self).mutators@.take(i as int),
                    self.mutators@.take(i as int),
                    *old(packet),
                    *packet,
                ),
                forall|t: int|
                    i <= t < self.mutators@.len() ==> #[trigger] self.mutators@[t] == old(
                        self,
                    ).mutators@[t],
                packet.spec_tick() == old(packet).spec_tick(),
                packet_sorted(*old(packet)) ==> packet_sorted(*packet),
                *old(packet) is ConsoleCmd <==> *packet is ConsoleCmd,
                *old(packet) is UserCmd <==> *packet is UserCmd,
                *old(packet) is Stop <==> *packet is Stop,
                i <= self.mutators@.len(),
            decreases self.mutators@.len() - i,
        {
            let ghost prevm = self.mutators@;
            let ghost packet_before = *packet;
            let mut m = self.mutators.remove(i);
            proof {
                assert(prevm[i as int].inv());
            }
            m.mutate_packet(packet);
            self.mutators.insert(i, m);
            proof {
                vstd::seq_lib::lemma_update_is_remove_insert(prevm, i as int, m);
                assert(self.mutators@ == prevm.update(i as int, m));
                assert(old(self).mutators@.take(i + 1).drop_last() =~= old(
                    self,
                ).mutators@.take(i as int));
                assert(self.mutators@.take(i + 1).drop_last() =~= prevm.take(i as int));
                assert(old(self).mutators@.take(i + 1).last() == old(self).mutators@[i as int]);
                assert(self.mutators@.take(i + 1).last() == m);
                assert(pipeline_applied(
                    old(self).mutators@.take(i + 1).drop_last(),
                    self.mutators@.take(i + 1).drop_last(),
                    *old(packet),
                    packet_before,
                ));
                assert(unit_applied(
                    old(self).mutators@.take(i + 1).last(),
                    self.mutators@.take(i + 1).last(),
                    packet_before,
                    *packet,
                ));
                assert(pipeline_applied(
                    old(self).mutators@.take(i + 1),
                    self.mutators@.take(i + 1),
                    *old(packet),
                    *packet,
                ));
            }
            i = i + 1;
        }
        proof {
            assert(old(self).mutators@.take(old(self).mutators@.len() as int) =~= old(
                self,
            ).mutators@);
            assert(self.mutators@.take(self.mutators@.len() as int) =~= self.mutators@);
        }
    }
}

} // verus!
