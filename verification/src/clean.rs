use vstd::prelude::*;

use crate::missing_preserve::RemoveInvalidPreserveEntity;
use crate::mutate::{
    MessageFilter, MessageMutator, MutatorList, PacketMessageFilter, PacketMessageMutator,
    PacketMutator,
};

verus! {

/// Register the cleanup every edit wants: drop closed captions and
/// drop explicit removals of entities that are still declared.
pub fn clean_demo(mutators: &mut MutatorList)
    requires
        old(mutators).inv(),
    ensures
        final(mutators).inv(),
        final(mutators)@.len() == old(mutators)@.len() + 2,
        final(mutators)@.subrange(0, old(mutators)@.len() as int) == old(mutators)@,
        final(mutators)@[old(mutators)@.len() as int] == PacketMutator::Filter(
            PacketMessageFilter { filter: MessageFilter::DropCloseCaption },
        ),
        final(mutators)@.last() matches PacketMutator::Message(pm)
            && pm.mutator matches MessageMutator::RemoveInvalidPreserve(m)
            && m.known() == Set::<u32>::empty(),
{
    mutators.push_message_filter(MessageFilter::DropCloseCaption);
    mutators.push_message_mutator(MessageMutator::RemoveInvalidPreserve(
        RemoveInvalidPreserveEntity::new(),
    ));
    proof {
        assert(mutators@.subrange(0, old(mutators)@.len() as int) =~= old(mutators)@);
    }
}

} // verus!
