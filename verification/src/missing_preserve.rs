use vstd::prelude::*;

use crate::store::{ids_sorted_le, sort_entities, sort_ids, u32s_sorted_le, IdSet};
use crate::types::{Message, PacketEntity, UpdateType};

verus! {

/// How the known-entity set evolves over the records of one message:
/// an `Enter` declares the id, a `Delete` retires it.
pub open spec fn fold_known(known: Set<u32>, s: Seq<PacketEntity>) -> Set<u32>
    decreases s.len(),
{
    if s.len() == 0 {
        known
    } else {
        let k1 = if s[0].update_type is Enter {
            known.insert(s[0].entity_index)
        } else if s[0].update_type is Delete {
            known.remove(s[0].entity_index)
        } else {
            known
        };
        fold_known(k1, s.drop_first())
    }
}

pub proof fn lemma_fold_known_push(known: Set<u32>, s: Seq<PacketEntity>, e: PacketEntity)
    ensures
        fold_known(known, s.push(e)) == {
            let k = fold_known(known, s);
            if e.update_type is Enter {
                k.insert(e.entity_index)
            } else if e.update_type is Delete {
                k.remove(e.entity_index)
            } else {
                k
            }
        },
    decreases s.len(),
{
    if s.len() == 0 {
        let u1 = s.push(e);
        assert(u1[0] == e);
        assert(u1.drop_first() =~= Seq::<PacketEntity>::empty());
        let k1 = if e.update_type is Enter {
            known.insert(e.entity_index)
        } else if e.update_type is Delete {
            known.remove(e.entity_index)
        } else {
            known
        };
        assert(fold_known(known, u1) == fold_known(k1, u1.drop_first()));
        assert(fold_known(k1, u1.drop_first()) == k1);
    } else {
        assert(s.push(e)[0] == s[0]);
        assert(s.push(e).drop_first() =~= s.drop_first().push(e));
        let k1 = if s[0].update_type is Enter {
            known.insert(s[0].entity_index)
        } else if s[0].update_type is Delete {
            known.remove(s[0].entity_index)
        } else {
            known
        };
        lemma_fold_known_push(k1, s.drop_first(), e);
    }
}

/// Drops explicit removals of ids that are still declared: retiring a
/// declared entity through the side list would leave playback with a
/// record it cannot resolve.
pub struct RemoveInvalidPreserveEntity {
    known_entities: IdSet,
}

impl RemoveInvalidPreserveEntity {
    pub closed spec fn wf(&self) -> bool {
        self.known_entities.wf()
    }

    /// The ids declared so far.
    pub closed spec fn known(&self) -> Set<u32> {
        self.known_entities@
    }

    pub fn new() -> (r: RemoveInvalidPreserveEntity)
        ensures
            r.wf(),
            r.known() == Set::<u32>::empty(),
    {
        RemoveInvalidPreserveEntity { known_entities: IdSet::new() }
    }

    /// How this rewrite relates its state and a message to their
    /// rewritten forms: the known set evolves by the message's
    /// declarations and retirements; removals of still-declared ids
    /// are dropped; both lists come out ascending, already ascending
    /// input coming through unchanged. Any other message is untouched.
    pub open spec fn preserve_guarded(&self, after_state: RemoveInvalidPreserveEntity, x: Message, y: Message) -> bool {
        match (x, y) {
                (Message::PacketEntities(before), Message::PacketEntities(after)) => {
                    &&& after_state.known() == fold_known(self.known(), before.entities@)
                    &&& ids_sorted_le(after.entities@)
                    &&& after.entities@.to_multiset() == before.entities@.to_multiset()
                    &&& after.entities@.len() == before.entities@.len()
                    &&& (ids_sorted_le(before.entities@) ==> after.entities@ == before.entities@)
                    &&& u32s_sorted_le(after.removed_entities@)
                    &&& after.removed_entities@.to_multiset() == before.removed_entities@.filter(
                        |id: u32| !fold_known(self.known(), before.entities@).contains(id),
                    ).to_multiset()
                    &&& (u32s_sorted_le(
                        before.removed_entities@.filter(
                            |id: u32| !fold_known(self.known(), before.entities@).contains(id),
                        ),
                    ) ==> after.removed_entities@ == before.removed_entities@.filter(
                        |id: u32| !fold_known(self.known(), before.entities@).contains(id),
                    ))
                    &&& after.max_entries == before.max_entries
                    &&& after.delta == before.delta
                    &&& after.base_line_second == before.base_line_second
                    &&& after.updated_base_line == before.updated_base_line
                },
                _ => y == x && after_state.known() == self.known(),
            }
    }

    /// Track declarations and retirements over one snapshot-bearing
    /// message, then keep only the explicit removals whose id is not
    /// still declared. Any other message is untouched.
    pub fn mutate_message(&mut self, message: &mut Message)
        requires
            old(self).wf(),
        ensures
            final(self).wf(),
            old(self).preserve_guarded(*final(self), *old(message), *final(message)),
            crate::mutate::msg_sorted(*old(message)) ==> crate::mutate::msg_sorted(
                *final(message),
            ),
    {
        match message {
            Message::PacketEntities(em) => {
                let ghost known0 = self.known_entities@;
                let mut i: usize = 0;
                while i < em.entities.len()
                    invariant
                        i <= em.entities@.len(),
                        self.known_entities.wf(),
                        self.known_entities@ == fold_known(known0, em.entities@.take(i as int)),
                    decreases em.entities@.len() - i,
                {
                    let e = &em.entities[i];
                    if matches!(e.update_type, UpdateType::Enter) {
                        self.known_entities.insert(e.entity_index);
                    } else if matches!(e.update_type, UpdateType::Delete) {
                        self.known_entities.remove(e.entity_index);
                    }
                    proof {
                        assert(em.entities@.take(i + 1) =~= em.entities@.take(i as int).push(
                            em.entities@[i as int]));
                        lemma_fold_known_push(known0, em.entities@.take(i as int), em.entities@[i as int]);
                    }
                    i = i + 1;
                }
                proof {
                    assert(em.entities@.take(em.entities@.len() as int) =~= em.entities@);
                }
                let ghost pred = |id: u32| !fold_known(known0, em.entities@).contains(id);
                let ghost origr = em.removed_entities@;
                let mut kept: Vec<u32> = Vec::new();
                let mut k: usize = 0;
                while k < em.removed_entities.len()
                    invariant
                        k <= origr.len(),
                        em.removed_entities@ == origr,
                        kept@ == origr.take(k as int).filter(pred),
                        self.known_entities.wf(),
                        self.known_entities@ == fold_known(known0, em.entities@),
                    decreases origr.len() - k,
                {
                    let id = em.removed_entities[k];
                    let declared = self.known_entities.contains(id);
                    proof {
                        reveal(Seq::filter);
                        assert(origr.take(k + 1) =~= origr.take(k as int).push(origr[k as int]));
                        assert(origr.take(k + 1).drop_last() =~= origr.take(k as int));
                        assert(origr.take(k + 1).last() == origr[k as int]);
                    }
                    if !declared {
                        kept.push(id);
                    }
                    k = k + 1;
                }
                proof {
                    assert(origr.take(origr.len() as int) =~= origr);
                }
                sort_ids(&mut kept);
                em.removed_entities = kept;
                sort_entities(&mut em.entities);
            },
            _ => {},
        }
    }
}

} // verus!
