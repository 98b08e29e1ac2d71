use vstd::prelude::*;

use crate::clean::clean_demo;
use crate::mutate::{
    msg_sorted, MessageFilter, MessageMutator, MutatorList, PacketMessageFilter,
    PacketMessageMutator, PacketMutator,
};
use crate::pov::unlock_pov;
use crate::types::{EditOptions, Message};

verus! {

/// How the name tag relates a message to its rewritten form: the
/// edited suffix appended to the advertised name, everything else
/// untouched.
pub open spec fn name_tagged(x: Message, y: Message) -> bool {
    match (x, y) {
        (Message::ServerInfo(before), Message::ServerInfo(after)) => {
            &&& after.server_name@ == before.server_name@ + " - Edited"@
            &&& after.player_slot == before.player_slot
            &&& after.stv == before.stv
            &&& after.rest == before.rest
        },
        _ => y == x,
    }
}

/// Tag the advertised server name as edited.
pub fn tag_server_name(message: &mut Message)
    ensures
        name_tagged(*old(message), *final(message)),
        msg_sorted(*old(message)) ==> msg_sorted(*final(message)),
{
    match message {
        Message::ServerInfo(info) => {
            let name = info.server_name.clone();
            info.server_name = <String as vstd::string::StringExecFns>::concat(name, " - Edited");
        },
        _ => {},
    }
}

impl EditOptions {
    /// What the pipeline built for these options holds, unit by unit:
    /// the edited-name tag, the caption filter, a fresh preserve
    /// guard, one condition strip per request, and — when the
    /// viewpoint unlock is asked for — its six units, in that order.
    pub open spec fn pipeline_spec(&self, spectator_id: u32, us: Seq<PacketMutator>) -> bool {
        let n = self.remove_conditions@.len() as int;
        &&& us.len() == 3 + n + (if self.unlock_pov {
            6int
        } else {
            0int
        })
        &&& us[0] == PacketMutator::Message(
            PacketMessageMutator { mutator: MessageMutator::ServerNameTag },
        )
        &&& us[1] == PacketMutator::Filter(
            PacketMessageFilter { filter: MessageFilter::DropCloseCaption },
        )
        &&& (us[2] matches PacketMutator::Message(pm) && pm.mutator matches
            MessageMutator::RemoveInvalidPreserve(m) && m.known() == Set::<u32>::empty())
        &&& forall|k: int|
            0 <= k < n ==> crate::cond::is_cond_strip(
                #[trigger] us[3 + k],
                self.remove_conditions@[k].mask,
                if self.remove_conditions@[k].entity > 0 {
                    Some(self.remove_conditions@[k].entity)
                } else {
                    None
                },
            )
        &&& (self.unlock_pov ==> {
            &&& us[3 + n] == PacketMutator::Message(
                PacketMessageMutator { mutator: MessageMutator::PovServerInfo(spectator_id) },
            )
            &&& us[4 + n] == PacketMutator::Filter(
                PacketMessageFilter { filter: MessageFilter::DropSetView },
            )
            &&& us[5 + n] == PacketMutator::Filter(
                PacketMessageFilter { filter: MessageFilter::DropVGuiMenu },
            )
            &&& us[6 + n] == PacketMutator::Message(
                PacketMessageMutator { mutator: MessageMutator::StvFlag },
            )
            &&& us[7 + n] == PacketMutator::ClearViewAngles
            &&& (us[8 + n] matches PacketMutator::Message(pm) && pm.mutator matches
                MessageMutator::AddStvEntity(a) && !a.spec_added() && a.target() == spectator_id)
        })
    }

    pub fn as_mutator(&self, spectator_id: u32) -> (r: MutatorList)
        ensures
            r.inv(),
            self.pipeline_spec(spectator_id, r@),
    {
        let mut mutators = MutatorList::new();
        mutators.push_message_mutator(MessageMutator::ServerNameTag);
        let ghost after_tag = mutators@;
        clean_demo(&mut mutators);
        proof {
            assert forall|k: int| 0 <= k < after_tag.len() implies mutators@[k] == after_tag[k] by {
                assert(mutators@.subrange(0, after_tag.len() as int)[k] == mutators@[k]);
            }
            assert(mutators@[0] == after_tag[0]);
            assert(mutators@[1] == PacketMutator::Filter(
                PacketMessageFilter { filter: MessageFilter::DropCloseCaption },
            ));
            assert(mutators@.last() == mutators@[2]);
        }
        let mut i: usize = 0;
        while i < self.remove_conditions.len()
            invariant
                mutators.inv(),
                i <= self.remove_conditions@.len(),
                mutators@.len() == 3 + i,
                mutators@[0] == PacketMutator::Message(
                    PacketMessageMutator { mutator: MessageMutator::ServerNameTag },
                ),
                mutators@[1] == PacketMutator::Filter(
                    PacketMessageFilter { filter: MessageFilter::DropCloseCaption },
                ),
                (mutators@[2] matches PacketMutator::Message(pm) && pm.mutator matches
                    MessageMutator::RemoveInvalidPreserve(m) && m.known()
                    == Set::<u32>::empty()),
                forall|k: int|
                    0 <= k < i ==> crate::cond::is_cond_strip(
                        #[trigger] mutators@[3 + k],
                        self.remove_conditions@[k].mask,
                        if self.remove_conditions@[k].entity > 0 {
                            Some(self.remove_conditions@[k].entity)
                        } else {
                            None
                        },
                    ),
            decreases self.remove_conditions@.len() - i,
        {
            let cond_options = self.remove_conditions[i];
            let entity = if cond_options.entity > 0 {
                Some(cond_options.entity)
            } else {
                None
            };
            let ghost prevm = mutators@;
            crate::cond::strip_cond(&mut mutators, entity, cond_options.mask);
            proof {
                assert forall|k: int| 0 <= k < prevm.len() implies mutators@[k] == prevm[k] by {
                    assert(mutators@.subrange(0, prevm.len() as int)[k] == mutators@[k]);
                }
                assert(mutators@[3 + i as int] == mutators@.last());
                assert(crate::cond::is_cond_strip(
                    mutators@[3 + i as int],
                    self.remove_conditions@[i as int].mask,
                    if self.remove_conditions@[i as int].entity > 0 {
                        Some(self.remove_conditions@[i as int].entity)
                    } else {
                        None
                    },
                ));
                assert forall|k: int| 0 <= k < i implies crate::cond::is_cond_strip(
                    #[trigger] mutators@[3 + k],
                    self.remove_conditions@[k].mask,
                    if self.remove_conditions@[k].entity > 0 {
                        Some(self.remove_conditions@[k].entity)
                    } else {
                        None
                    },
                ) by {
                    assert(mutators@[3 + k] == prevm[3 + k]);
                }
            }
            i = i + 1;
        }
        if self.unlock_pov {
            let ghost prevm = mutators@;
            unlock_pov(&mut mutators, spectator_id);
            proof {
                assert forall|k: int| 0 <= k < prevm.len() implies mutators@[k] == prevm[k] by {
                    assert(mutators@.subrange(0, prevm.len() as int)[k] == mutators@[k]);
                }
                assert forall|k: int|
                    0 <= k < self.remove_conditions@.len() implies crate::cond::is_cond_strip(
                    #[trigger] mutators@[3 + k],
                    self.remove_conditions@[k].mask,
                    if self.remove_conditions@[k].entity > 0 {
                        Some(self.remove_conditions@[k].entity)
                    } else {
                        None
                    },
                ) by {
                    assert(mutators@[3 + k] == prevm[3 + k]);
                }
            }
        }
        mutators
    }
}

} // verus!
