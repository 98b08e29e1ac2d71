use vstd::prelude::*;

use crate::idents::{team_num_ident, team_num_identifier};
use crate::mutate::{msg_sorted, MessageFilter, MessageMutator, MutatorList, PacketMutator};
use crate::store::{lemma_prop_find, prop_find};
use crate::types::{Message, PacketEntity, SendProp, SendPropValue, UpdateType};

verus! {

/// Index of the first record of a player entity (an id between 1 and
/// 254), `-1` if none.
pub open spec fn first_player(s: Seq<PacketEntity>) -> int
    decreases s.len(),
{
    if s.len() == 0 {
        -1
    } else if 1 <= s[0].entity_index < 255 {
        0
    } else {
        let r = first_player(s.drop_first());
        if r < 0 {
            -1
        } else {
            r + 1
        }
    }
}

pub proof fn lemma_first_player(s: Seq<PacketEntity>)
    ensures
        first_player(s) < s.len(),
        first_player(s) == -1 <==> (forall|j: int|
            0 <= j < s.len() ==> !(1 <= (#[trigger] s[j]).entity_index < 255)),
        first_player(s) >= 0 ==> 1 <= s[first_player(s)].entity_index < 255 && (forall|j: int|
            0 <= j < first_player(s) ==> !(1 <= (#[trigger] s[j]).entity_index < 255)),
    decreases s.len(),
{
    if s.len() > 0 && !(1 <= s[0].entity_index < 255) {
        lemma_first_player(s.drop_first());
        assert(forall|j: int| 1 <= j < s.len() ==> #[trigger] s[j] == s.drop_first()[j - 1]);
    }
}

/// The place an id would take to keep a list ascending: the first
/// index holding an id that is not smaller.
pub open spec fn insert_pos(s: Seq<PacketEntity>, id: u32) -> int
    decreases s.len(),
{
    if s.len() == 0 {
        0
    } else if s[0].entity_index >= id {
        0
    } else {
        1 + insert_pos(s.drop_first(), id)
    }
}

pub proof fn lemma_insert_pos(s: Seq<PacketEntity>, id: u32)
    ensures
        0 <= insert_pos(s, id) <= s.len(),
        forall|j: int| 0 <= j < insert_pos(s, id) ==> (#[trigger] s[j]).entity_index < id,
        insert_pos(s, id) < s.len() ==> s[insert_pos(s, id)].entity_index >= id,
    decreases s.len(),
{
    if s.len() > 0 && s[0].entity_index < id {
        lemma_insert_pos(s.drop_first(), id);
        assert(forall|j: int| 1 <= j < s.len() ==> #[trigger] s[j] == s.drop_first()[j - 1]);
    }
}

/// The spectator record that is spliced into the first full update:
/// the player's class under the spectator id, carrying only the team
/// field forced to the spectator team.
pub open spec fn stv_entity_rec(id: u32, player: PacketEntity, team_prop: SendProp) -> crate::types::EntityRec {
    crate::types::EntityRec {
        entity_index: id,
        server_class: player.server_class,
        serial_number: 1234567,
        update_type: UpdateType::Enter,
        props: seq![
            SendProp {
                index: team_prop.index,
                identifier: team_prop.identifier,
                value: SendPropValue::Integer(1),
            }
        ],
        in_pvs: false,
        delay: None,
        delta_tick: None,
        baseline_second: false,
    }
}

/// Declares the spectator entity once, in the first full
/// snapshot-bearing message that carries a player to copy the class
/// and team shape from.
pub struct AddStvEntity {
    added: bool,
    entity_index: u32,
}

impl AddStvEntity {
    pub closed spec fn spec_added(&self) -> bool {
        self.added
    }

    pub closed spec fn target(&self) -> u32 {
        self.entity_index
    }

    pub fn new(entity_index: u32) -> (r: AddStvEntity)
        ensures
            !r.spec_added(),
            r.target() == entity_index,
    {
        AddStvEntity { added: false, entity_index }
    }

    /// How this rewrite relates its state and a message to their
    /// rewritten forms: the spectator record spliced in once, at its
    /// ordered place, into the first eligible full update; anything
    /// else untouched.
    pub open spec fn stv_spliced(&self, after_state: AddStvEntity, x: Message, y: Message) -> bool {
        &&& after_state.target() == self.target()
        &&& (self.spec_added() ==> y == x && after_state.spec_added())
        &&& match (x, y) {
            (Message::PacketEntities(before), Message::PacketEntities(after)) => {
                if !self.spec_added() && !before.base_line_second && first_player(
                    before.entities@,
                ) >= 0 && before.entities@[first_player(before.entities@)].entity_index
                    != self.target() && prop_find(
                    before.entities@[first_player(before.entities@)].props@,
                    team_num_ident(),
                ) >= 0 && (insert_pos(before.entities@, self.target())
                    == before.entities@.len() || before.entities@[insert_pos(
                    before.entities@,
                    self.target(),
                )].entity_index != self.target()) {
                    let player = before.entities@[first_player(before.entities@)];
                    let tp = player.props@[prop_find(player.props@, team_num_ident())];
                    let pos = insert_pos(before.entities@, self.target());
                    &&& after_state.spec_added()
                    &&& after.entities@.len() == before.entities@.len() + 1
                    &&& after.entities@[pos].rec() == stv_entity_rec(self.target(), player, tp)
                    &&& forall|j: int| 0 <= j < pos ==> after.entities@[j] == before.entities@[j]
                    &&& forall|j: int|
                        pos < j < after.entities@.len() ==> after.entities@[j]
                            == before.entities@[j - 1]
                    &&& after.removed_entities@ == before.removed_entities@
                    &&& after.delta == before.delta
                    &&& after.max_entries == before.max_entries
                } else {
                    y == x && after_state.spec_added() == self.spec_added()
                }
            },
            _ => y == x && after_state.spec_added() == self.spec_added(),
        }
    }

    /// Splice the spectator record into the first eligible full
    /// update, at its ordered place. A message that offers no player
    /// record to copy from, or that already carries the spectator id,
    /// is left alone.
    pub fn mutate_message(&mut self, message: &mut Message)
        ensures
            old(self).stv_spliced(*final(self), *old(message), *final(message)),
            msg_sorted(*old(message)) ==> msg_sorted(*final(message)),
    {
        if self.added {
            return ;
        }
        match message {
            Message::PacketEntities(em) => {
                if em.base_line_second {
                    return ;
                }
                let ghost before = em.entities@;
                // Find the first player record.
                let mut i: usize = 0;
                let mut found = false;
                while i < em.entities.len() && !found
                    invariant
                        i <= em.entities@.len(),
                        em.entities@ == before,
                        !found ==> forall|j: int|
                            0 <= j < i ==> !(1 <= (#[trigger] em.entities@[j]).entity_index
                                < 255),
                        found ==> i < em.entities@.len() && 1 <= em.entities@[
                            i as int
                        ].entity_index < 255 && (forall|j: int|
                            0 <= j < i ==> !(1 <= (#[trigger] em.entities@[j]).entity_index
                                < 255)),
                    decreases em.entities@.len() - i + (if found { 0int } else { 1int }),
                {
                    let id = em.entities[i].entity_index;
                    if 1 <= id && id < 255 {
                        found = true;
                    } else {
                        i = i + 1;
                    }
                }
                proof {
                    lemma_first_player(before);
                }
                if !found {
                    return ;
                }
                proof {
                    assert(first_player(before) == i as int);
                }
                let player_id = em.entities[i].entity_index;
                let player_class = em.entities[i].server_class;
                if player_id == self.entity_index {
                    return ;
                }
                // Copy the team field from the player record.
                let team_ident = team_num_identifier();
                let ghost pprops = em.entities@[i as int].props@;
                let mut t: usize = 0;
                let mut tp_found = false;
                while t < em.entities[i].props.len() && !tp_found
                    invariant
                        i < em.entities@.len(),
                        em.entities@ == before,
                        t <= em.entities@[i as int].props@.len(),
                        team_ident == team_num_ident(),
                        !tp_found ==> forall|j: int|
                            0 <= j < t ==> (#[trigger] em.entities@[i as int].props@[j]).identifier
                                != team_num_ident(),
                        tp_found ==> t < em.entities@[i as int].props@.len() && em.entities@[
                            i as int
                        ].props@[t as int].identifier == team_num_ident() && (forall|j: int|
                            0 <= j < t ==> (#[trigger] em.entities@[i as int].props@[j]).identifier
                                != team_num_ident()),
                    decreases em.entities@[i as int].props@.len() - t + (
                    if tp_found {
                        0int
                    } else {
                        1int
                    }),
                {
                    if em.entities[i].props[t].identifier == team_ident {
                        tp_found = true;
                    } else {
                        t = t + 1;
                    }
                }
                proof {
                    lemma_prop_find(pprops, team_num_ident());
                }
                if !tp_found {
                    return ;
                }
                proof {
                    assert(prop_find(pprops, team_num_ident()) == t as int);
                }
                let team_prop = em.entities[i].props[t];
                let mut props: Vec<SendProp> = Vec::new();
                props.push(SendProp {
                    index: team_prop.index,
                    identifier: team_prop.identifier,
                    value: SendPropValue::Integer(1),
                });
                let stv = PacketEntity {
                    entity_index: self.entity_index,
                    server_class: player_class,
                    serial_number: 1234567,
                    update_type: UpdateType::Enter,
                    props,
                    in_pvs: false,
                    delay: None,
                    delta_tick: None,
                    baseline_second: false,
                };
                proof {
                    assert(stv.props@ =~= seq![
                        SendProp {
                            index: team_prop.index,
                            identifier: team_prop.identifier,
                            value: SendPropValue::Integer(1),
                        }
                    ]);
                }
                // Find the ordered place for the spectator id.
                let mut pos: usize = 0;
                while pos < em.entities.len() && em.entities[pos].entity_index
                    < self.entity_index
                    invariant
                        pos <= em.entities@.len(),
                        em.entities@ == before,
                        forall|j: int|
                            0 <= j < pos ==> (#[trigger] em.entities@[j]).entity_index
                                < self.entity_index,
                    decreases em.entities@.len() - pos,
                {
                    pos = pos + 1;
                }
                proof {
                    lemma_insert_pos(before, self.entity_index);
                    if (insert_pos(before, self.entity_index) as int) < pos as int {
                        assert(before[insert_pos(before, self.entity_index)].entity_index
                            < self.entity_index);
                    }
                    if pos < em.entities@.len() && (pos as int) < insert_pos(before, self.entity_index) {
                        assert(before[pos as int].entity_index < self.entity_index);
                    }
                    assert(pos as int == insert_pos(before, self.entity_index));
                }
                if pos < em.entities.len() && em.entities[pos].entity_index == self.entity_index {
                    return ;
                }
                em.entities.insert(pos, stv);
                self.added = true;
                proof {
                    assert(forall|j: int| 0 <= j < pos ==> em.entities@[j] == before[j]);
                    assert(em.entities@[pos as int] == stv);
                    assert(forall|j: int|
                        pos < j < em.entities@.len() ==> em.entities@[j] == before[j - 1]);
                    if msg_sorted(*old(message)) {
                        assert forall|a: int, b: int|
                            0 <= a < b < em.entities@.len() implies em.entities@[a].entity_index
                            < em.entities@[b].entity_index by {
                            lemma_insert_pos(before, stv.entity_index);
                            if a < pos as int && b == pos as int {
                                assert(before[a].entity_index < stv.entity_index);
                            }
                            if a == pos as int && b > pos as int {
                                assert(before[b - 1].entity_index >= before[
                                    pos as int
                                ].entity_index);
                                assert(before[pos as int].entity_index >= stv.entity_index);
                                assert(before[pos as int].entity_index != stv.entity_index);
                            }
                        }
                    }
                }
            },
            _ => {},
        }
    }
}

/// How the slot rewrite relates a message to its rewritten form.
pub open spec fn pov_slot_set(x: Message, y: Message, spectator_id: u32) -> bool {
    match (x, y) {
        (Message::ServerInfo(before), Message::ServerInfo(after)) => {
            &&& after.player_slot == (if spectator_id % 256 > 0 {
                (spectator_id % 256 - 1) as u8
            } else {
                0u8
            })
            &&& after.stv == before.stv
            &&& after.server_name == before.server_name
            &&& after.rest == before.rest
        },
        _ => y == x,
    }
}

/// Point the session description at the spectator slot.
pub fn set_pov_slot(message: &mut Message, spectator_id: u32)
    ensures
        pov_slot_set(*old(message), *final(message), spectator_id),
        msg_sorted(*old(message)) ==> msg_sorted(*final(message)),
{
    match message {
        Message::ServerInfo(info) => {
            let low: u8 = (spectator_id % 256) as u8;
            info.player_slot = if low > 0 {
                low - 1
            } else {
                0
            };
        },
        _ => {},
    }
}

/// How the spectator flag relates a message to its rewritten form.
pub open spec fn stv_flagged(x: Message, y: Message) -> bool {
    match (x, y) {
        (Message::ServerInfo(before), Message::ServerInfo(after)) => {
            &&& after.stv
            &&& after.player_slot == before.player_slot
            &&& after.server_name == before.server_name
            &&& after.rest == before.rest
        },
        _ => y == x,
    }
}

/// Mark the session description as a spectator recording.
pub fn set_stv_flag(message: &mut Message)
    ensures
        stv_flagged(*old(message), *final(message)),
        msg_sorted(*old(message)) ==> msg_sorted(*final(message)),
{
    match message {
        Message::ServerInfo(info) => {
            info.stv = true;
        },
        _ => {},
    }
}

/// Register the viewpoint-unlock rewrites: repoint the session at the
/// spectator slot, drop view bindings and menus, flag the recording as
/// a spectator one, clear recorded view angles, and declare the
/// spectator entity.
pub fn unlock_pov(mutators: &mut MutatorList, spectator_id: u32)
    requires
        old(mutators).inv(),
    ensures
        final(mutators).inv(),
        final(mutators)@.len() == old(mutators)@.len() + 6,
        final(mutators)@.subrange(0, old(mutators)@.len() as int) == old(mutators)@,
        ({
            let n = old(mutators)@.len() as int;
            &&& final(mutators)@[n] == PacketMutator::Message(
                crate::mutate::PacketMessageMutator {
                    mutator: MessageMutator::PovServerInfo(spectator_id),
                },
            )
            &&& final(mutators)@[n + 1] == PacketMutator::Filter(
                crate::mutate::PacketMessageFilter { filter: MessageFilter::DropSetView },
            )
            &&& final(mutators)@[n + 2] == PacketMutator::Filter(
                crate::mutate::PacketMessageFilter { filter: MessageFilter::DropVGuiMenu },
            )
            &&& final(mutators)@[n + 3] == PacketMutator::Message(
                crate::mutate::PacketMessageMutator { mutator: MessageMutator::StvFlag },
            )
            &&& final(mutators)@[n + 4] == PacketMutator::ClearViewAngles
            &&& (final(mutators)@[n + 5] matches PacketMutator::Message(pm) && pm.mutator matches
                MessageMutator::AddStvEntity(a) && !a.spec_added() && a.target() == spectator_id)
        }),
{
    mutators.push_message_mutator(MessageMutator::PovServerInfo(spectator_id));
    mutators.push_message_filter(MessageFilter::DropSetView);
    mutators.push_message_filter(MessageFilter::DropVGuiMenu);
    mutators.push_message_mutator(MessageMutator::StvFlag);
    mutators.push_packet_mutator(PacketMutator::ClearViewAngles);
    mutators.push_message_mutator(MessageMutator::AddStvEntity(AddStvEntity::new(spectator_id)));
    proof {
        assert(mutators@.subrange(0, old(mutators)@.len() as int) =~= old(mutators)@);
    }
}

} // verus!
