use vstd::prelude::*;

use crate::idents::{player_cond_ident, player_cond_identifier};
use crate::mutate::{MessageMutator, MutatorList};
use crate::types::{EntityRec, Message, PacketEntity, SendProp, SendPropValue};

verus! {

/// Player conditions whose bit can be masked out of a recording.
#[derive(Clone, Copy, Debug, PartialEq, Eq, Structural)]
pub enum Cond {
    Uber,
    UberDecay,
    Quickfix,
    Kritz,
    Jarate,
    Bleed,
}

impl Cond {
    /// The bit the condition occupies in the condition field.
    pub open spec fn spec_bit(&self) -> u8 {
        match *self {
            Cond::Uber => 5,
            Cond::UberDecay => 8,
            Cond::Quickfix => 28,
            Cond::Kritz => 11,
            Cond::Jarate => 24,
            Cond::Bleed => 25,
        }
    }

    #[verifier::when_used_as_spec(spec_bit)]
    pub fn bit(&self) -> (r: u8)
        ensures
            r == self.spec_bit(),
    {
        match self {
            Cond::Uber => 5,
            Cond::UberDecay => 8,
            Cond::Quickfix => 28,
            Cond::Kritz => 11,
            Cond::Jarate => 24,
            Cond::Bleed => 25,
        }
    }
}

/// One field after masking: an integer-valued condition field keeps
/// only the mask's bits, everything else is untouched.
pub open spec fn masked_prop(p: SendProp, mask: i64, apply: bool) -> SendProp {
    if apply && p.identifier == player_cond_ident() && p.value is Integer {
        SendProp { value: SendPropValue::Integer(p.value->Integer_0 & mask), ..p }
    } else {
        p
    }
}

/// Strips condition bits out of the records of one entity, or of every
/// entity when no target is given.
pub struct CondMask {
    cond: i64,
    entity: Option<u32>,
}

impl CondMask {
    /// The mask of condition bits that are kept.
    pub closed spec fn mask(&self) -> i64 {
        self.cond
    }

    /// The targeted entity, if any.
    pub closed spec fn target(&self) -> Option<u32> {
        self.entity
    }

    /// Whether the mask applies to records of the given entity.
    pub open spec fn applies_to(&self, id: u32) -> bool {
        self.target() is None || self.target() == Some(id)
    }

    pub fn new(entity: Option<u32>) -> (r: CondMask)
        ensures
            r.mask() == i64::MAX,
            r.target() == entity,
    {
        CondMask { cond: i64::MAX, entity }
    }

    /// Take one condition's bit out of the kept set.
    pub fn remove_cond(&mut self, cond: Cond)
        ensures
            final(self).mask() == old(self).mask() & !(1i64 << cond.spec_bit()),
            final(self).target() == old(self).target(),
    {
        self.cond = self.cond & !(1i64 << cond.bit());
    }

    /// Mask the condition field of one entity record.
    fn mutate_entity(&self, entity: &mut PacketEntity)
        ensures
            final(entity).rec() == (EntityRec {
                props: Seq::new(
                    old(entity).props@.len(),
                    |j: int|
                        masked_prop(
                            old(entity).props@[j],
                            self.mask(),
                            self.applies_to(old(entity).entity_index),
                        ),
                ),
                ..old(entity).rec()
            }),
    {
        let apply = match self.entity {
            Some(id) => id == entity.entity_index,
            None => true,
        };
        let cond_ident = player_cond_identifier();
        let mut j: usize = 0;
        while j < entity.props.len()
            invariant
                j <= entity.props@.len(),
                entity.props@.len() == old(entity).props@.len(),
                apply == self.applies_to(old(entity).entity_index),
                cond_ident == player_cond_ident(),
                forall|t: int|
                    0 <= t < j ==> #[trigger] entity.props@[t] == masked_prop(
                        old(entity).props@[t],
                        self.mask(),
                        apply,
                    ),
                forall|t: int|
                    j <= t < entity.props@.len() ==> #[trigger] entity.props@[t] == old(
                        entity,
                    ).props@[t],
                entity.entity_index == old(entity).entity_index,
                entity.server_class == old(entity).server_class,
                entity.serial_number == old(entity).serial_number,
                entity.update_type == old(entity).update_type,
                entity.in_pvs == old(entity).in_pvs,
                entity.delay == old(entity).delay,
                entity.delta_tick == old(entity).delta_tick,
                entity.baseline_second == old(entity).baseline_second,
            decreases entity.props@.len() - j,
        {
            let p = entity.props[j];
            if apply && p.identifier == cond_ident {
                match p.value {
                    SendPropValue::Integer(value) => {
                        entity.props.set(j, SendProp {
                            index: p.index,
                            identifier: p.identifier,
                            value: SendPropValue::Integer(value & self.cond),
                        });
                    },
                    SendPropValue::Opaque(_) => {},
                }
            }
            j = j + 1;
        }
        proof {
            assert(entity.props@ =~= Seq::new(
                old(entity).props@.len(),
                |j: int|
                    masked_prop(
                        old(entity).props@[j],
                        self.mask(),
                        self.applies_to(old(entity).entity_index),
                    ),
            ));
        }
    }

    /// How this mask relates a message to its rewritten form: every
    /// record of a snapshot-bearing message has its condition field
    /// masked, any other message is untouched.
    pub open spec fn cond_masked(&self, x: Message, y: Message) -> bool {
        match (x, y) {
            (Message::PacketEntities(before), Message::PacketEntities(after)) => {
                &&& after.entities@.len() == before.entities@.len()
                &&& forall|i: int|
                    0 <= i < before.entities@.len()
                        ==> (#[trigger] after.entities@[i]).rec() == (EntityRec {
                        props: Seq::new(
                            before.entities@[i].props@.len(),
                            |j: int|
                                masked_prop(
                                    before.entities@[i].props@[j],
                                    self.mask(),
                                    self.applies_to(before.entities@[i].entity_index),
                                ),
                        ),
                        ..before.entities@[i].rec()
                    })
                &&& after.removed_entities@ == before.removed_entities@
                &&& after.max_entries == before.max_entries
                &&& after.delta == before.delta
                &&& after.base_line_second == before.base_line_second
                &&& after.updated_base_line == before.updated_base_line
            },
            _ => y == x,
        }
    }

    /// Mask the condition field of every entity record of a
    /// snapshot-bearing message; any other message is untouched.
    pub fn mutate_message(&self, message: &mut Message)
        ensures
            self.cond_masked(*old(message), *final(message)),
            crate::mutate::msg_sorted(*old(message)) ==> crate::mutate::msg_sorted(
                *final(message),
            ),
    {
        match message {
            Message::PacketEntities(em) => {
                let ghost before = em.entities@;
                let ghost beforemsg = *em;
                let mut i: usize = 0;
                while i < em.entities.len()
                    invariant
                        i <= em.entities@.len(),
                        em.entities@.len() == before.len(),
                        em.removed_entities@ == beforemsg.removed_entities@,
                        em.max_entries == beforemsg.max_entries,
                        em.delta == beforemsg.delta,
                        em.base_line_second == beforemsg.base_line_second,
                        em.updated_base_line == beforemsg.updated_base_line,
                        forall|t: int|
                            0 <= t < i ==> (#[trigger] em.entities@[t]).rec() == (EntityRec {
                                props: Seq::new(
                                    before[t].props@.len(),
                                    |j: int|
                                        masked_prop(
                                            before[t].props@[j],
                                            self.mask(),
                                            self.applies_to(before[t].entity_index),
                                        ),
                                ),
                                ..before[t].rec()
                            }),
                        forall|t: int| i <= t < before.len() ==> em.entities@[t] == before[t],
                    decreases em.entities@.len() - i,
                {
                    let ghost prev = em.entities@;
                    let mut e = em.entities.remove(i);
                    self.mutate_entity(&mut e);
                    em.entities.insert(i, e);
                    proof {
                        vstd::seq_lib::lemma_update_is_remove_insert(prev, i as int, e);
                        assert(em.entities@ == prev.update(i as int, e));
                    }
                    i = i + 1;
                }
                proof {
                    assert forall|t: int| 0 <= t < em.entities@.len() implies
                        #[trigger] em.entities@[t].entity_index == before[t].entity_index by {
                        assert(em.entities@[t].rec().entity_index == before[t].rec().entity_index);
                    }
                }
            },
            _ => {},
        }
    }
}

/// Whether a pipeline entry is exactly the condition strip for the
/// given mask and target.
pub open spec fn is_cond_strip(
    p: crate::mutate::PacketMutator,
    mask: u32,
    entity: Option<u32>,
) -> bool {
    p matches crate::mutate::PacketMutator::Message(pm) && pm.mutator matches
        MessageMutator::CondMask(m) && m.mask() == mask as i64 && m.target() == entity
}

/// Register a condition strip over the pipeline: a mask over one
/// entity's condition field, or over every entity's when none is
/// given.
pub fn strip_cond(mutators: &mut MutatorList, entity: Option<u32>, mask: u32)
    requires
        old(mutators).inv(),
    ensures
        final(mutators).inv(),
        final(mutators)@.len() == old(mutators)@.len() + 1,
        final(mutators)@.subrange(0, old(mutators)@.len() as int) == old(mutators)@,
        is_cond_strip(final(mutators)@.last(), mask, entity),
{
    mutators.push_message_mutator(MessageMutator::CondMask(CondMask {
        entity,
        cond: mask as i64,
    }));
    proof {
        assert(mutators@.subrange(0, old(mutators)@.len() as int) =~= old(mutators)@);
    }
}

} // verus!
