use vstd::map::*;
use vstd::prelude::*;

use crate::idents::{sim_time_ident, simulation_time_identifier};
use crate::store::{
    apply_update_s, ent_find, ent_map, ids_sorted, lemma_ent_find, lemma_ent_find_same_ids,
    u32s_sorted, EntityStore, IdSet, TickIndex,
};
use crate::types::{
    EntityRec, PacketEntitiesMessage, PacketEntity, SendProp, UpdateType,
};

verus! {

/// The abstract state of the entity tracker: the live entities, the
/// last-simulated-at-tick index, the explicitly deleted and removed id
/// sets, the largest entry count seen, and the two round-robin
/// baseline slots shadowed from the stream.
pub struct TrackerState {
    pub ents: Map<u32, EntityRec>,
    pub sim: Map<u32, u32>,
    pub deleted: Set<u32>,
    pub removed: Set<u32>,
    pub max_entries: u16,
    pub base0: Map<u32, EntityRec>,
    pub base1: Map<u32, EntityRec>,
}

impl TrackerState {
    pub open spec fn initial() -> TrackerState {
        TrackerState {
            ents: Map::empty(),
            sim: Map::empty(),
            deleted: Set::empty(),
            removed: Set::empty(),
            max_entries: 0,
            base0: Map::empty(),
            base1: Map::empty(),
        }
    }
}

/// Merge rule for one incoming entity record, keyed by id: a new id is
/// inserted as-is; a slot reused under a different generation and
/// class is replaced whole; a respawn under the same class keeps the
/// record but forces `Enter`; otherwise the fields are folded in.
pub open spec fn merge_entity(m: Map<u32, EntityRec>, e: PacketEntity) -> Map<u32, EntityRec> {
    let id = e.entity_index;
    if !m.dom().contains(id) {
        m.insert(id, e.rec())
    } else {
        let ex = m[id];
        if ex.serial_number != e.serial_number && ex.server_class != e.server_class {
            m.insert(id, EntityRec { props: apply_update_s(e.props@, e.props@), ..e.rec() })
        } else if ex.serial_number != e.serial_number {
            m.insert(
                id,
                EntityRec {
                    serial_number: e.serial_number,
                    update_type: UpdateType::Enter,
                    props: apply_update_s(ex.props, e.props@),
                    ..ex
                },
            )
        } else {
            m.insert(id, EntityRec { props: apply_update_s(ex.props, e.props@), ..ex })
        }
    }
}

/// Whether a record carries the simulation-time field.
pub open spec fn has_sim_prop(props: Seq<SendProp>) -> bool {
    exists|j: int| 0 <= j < props.len() && props[j].identifier == sim_time_ident()
}

/// One entity record folded into the tracker state.
pub open spec fn observe_entity(t: TrackerState, e: PacketEntity, tick: u32) -> TrackerState {
    let id = e.entity_index;
    let removed = t.removed.remove(id);
    let deleted = if e.update_type is Delete {
        t.deleted.insert(id)
    } else {
        t.deleted.remove(id)
    };
    if e.update_type is Delete || e.update_type is Leave {
        TrackerState { removed, deleted, ents: t.ents.remove(id), ..t }
    } else {
        TrackerState {
            removed,
            deleted,
            ents: merge_entity(t.ents, e),
            sim: if has_sim_prop(e.props@) {
                t.sim.insert(id, tick)
            } else {
                t.sim
            },
            ..t
        }
    }
}

pub open spec fn observe_entities(t: TrackerState, s: Seq<PacketEntity>, tick: u32) -> TrackerState
    decreases s.len(),
{
    if s.len() == 0 {
        t
    } else {
        observe_entities(observe_entity(t, s[0], tick), s.drop_first(), tick)
    }
}

pub proof fn lemma_observe_entities_push(t: TrackerState, s: Seq<PacketEntity>, e: PacketEntity, tick: u32)
    ensures
        observe_entities(t, s.push(e), tick) == observe_entity(observe_entities(t, s, tick), e, tick),
    decreases s.len(),
{
    if s.len() == 0 {
        let u1 = s.push(e);
        assert(u1[0] == e);
        assert(u1.drop_first() =~= Seq::<PacketEntity>::empty());
        assert(observe_entities(observe_entity(t, e, tick), u1.drop_first(), tick)
            == observe_entity(t, e, tick));
    } else {
        assert(s.push(e)[0] == s[0]);
        assert(s.push(e).drop_first() =~= s.drop_first().push(e));
        lemma_observe_entities_push(observe_entity(t, s[0], tick), s.drop_first(), e, tick);
    }
}

/// One explicit removal folded into the tracker state.
pub open spec fn observe_removal(t: TrackerState, id: u32) -> TrackerState {
    TrackerState { ents: t.ents.remove(id), removed: t.removed.insert(id), ..t }
}

pub open spec fn observe_removals(t: TrackerState, ids: Seq<u32>) -> TrackerState
    decreases ids.len(),
{
    if ids.len() == 0 {
        t
    } else {
        observe_removals(observe_removal(t, ids[0]), ids.drop_first())
    }
}

pub proof fn lemma_observe_removals_push(t: TrackerState, ids: Seq<u32>, id: u32)
    ensures
        observe_removals(t, ids.push(id)) == observe_removal(observe_removals(t, ids), id),
    decreases ids.len(),
{
    if ids.len() == 0 {
        let u1 = ids.push(id);
        assert(u1[0] == id);
        assert(u1.drop_first() =~= Seq::<u32>::empty());
        assert(observe_removals(observe_removal(t, id), u1.drop_first())
            == observe_removal(t, id));
    } else {
        assert(ids.push(id)[0] == ids[0]);
        assert(ids.push(id).drop_first() =~= ids.drop_first().push(id));
        lemma_observe_removals_push(observe_removal(t, ids[0]), ids.drop_first(), id);
    }
}

/// A record as a baseline slot keeps it: known fields under a neutral
/// lifecycle shape.
pub open spec fn baseline_rec(e: PacketEntity) -> EntityRec {
    EntityRec {
        update_type: UpdateType::Enter,
        in_pvs: false,
        delay: None,
        delta_tick: None,
        baseline_second: false,
        ..e.rec()
    }
}

/// One entering entity folded into a refreshed baseline slot: a slot
/// entry of the same class under a delta update is brought forward and
/// patched, anything else is replaced by the incoming record.
pub open spec fn baseline_enter(
    acc: Map<u32, EntityRec>,
    e: PacketEntity,
    old_slot: Map<u32, EntityRec>,
    is_delta: bool,
) -> Map<u32, EntityRec> {
    if e.update_type is Enter {
        let id = e.entity_index;
        if old_slot.dom().contains(id) && old_slot[id].server_class == e.server_class && is_delta {
            acc.insert(
                id,
                EntityRec { props: apply_update_s(old_slot[id].props, e.props@), ..old_slot[id] },
            )
        } else {
            acc.insert(id, baseline_rec(e))
        }
    } else {
        acc
    }
}

pub open spec fn baseline_fold(
    acc: Map<u32, EntityRec>,
    s: Seq<PacketEntity>,
    old_slot: Map<u32, EntityRec>,
    is_delta: bool,
) -> Map<u32, EntityRec>
    decreases s.len(),
{
    if s.len() == 0 {
        acc
    } else {
        baseline_fold(baseline_enter(acc, s[0], old_slot, is_delta), s.drop_first(), old_slot, is_delta)
    }
}

pub proof fn lemma_baseline_fold_push(
    acc: Map<u32, EntityRec>,
    s: Seq<PacketEntity>,
    e: PacketEntity,
    old_slot: Map<u32, EntityRec>,
    is_delta: bool,
)
    ensures
        baseline_fold(acc, s.push(e), old_slot, is_delta) == baseline_enter(
            baseline_fold(acc, s, old_slot, is_delta),
            e,
            old_slot,
            is_delta,
        ),
    decreases s.len(),
{
    if s.len() == 0 {
        let u1 = s.push(e);
        assert(u1[0] == e);
        assert(u1.drop_first() =~= Seq::<PacketEntity>::empty());
        assert(baseline_fold(baseline_enter(acc, e, old_slot, is_delta), u1.drop_first(), old_slot, is_delta)
            == baseline_enter(acc, e, old_slot, is_delta));
    } else {
        assert(s.push(e)[0] == s[0]);
        assert(s.push(e).drop_first() =~= s.drop_first().push(e));
        lemma_baseline_fold_push(baseline_enter(acc, s[0], old_slot, is_delta), s.drop_first(), e, old_slot, is_delta);
    }
}

/// The two baseline slots after one update message: a message flagged
/// as refreshing a baseline copies the flagged slot over the other one
/// and folds its entering entities in.
pub open spec fn observe_baselines(
    b0: Map<u32, EntityRec>,
    b1: Map<u32, EntityRec>,
    msg: PacketEntitiesMessage,
) -> (Map<u32, EntityRec>, Map<u32, EntityRec>) {
    if !msg.updated_base_line {
        (b0, b1)
    } else if msg.base_line_second {
        (baseline_fold(b1, msg.entities@, b1, msg.delta is Some), b1)
    } else {
        (b0, baseline_fold(b0, msg.entities@, b0, msg.delta is Some))
    }
}

/// A whole update message folded into the tracker state: the entry
/// count, each entity record in order, each explicit removal in order,
/// then the baseline refresh.
pub open spec fn observe_message(t: TrackerState, msg: PacketEntitiesMessage, tick: u32) -> TrackerState {
    let t0 = TrackerState {
        max_entries: if msg.max_entries > t.max_entries {
            msg.max_entries
        } else {
            t.max_entries
        },
        ..t
    };
    let t1 = observe_entities(t0, msg.entities@, tick);
    let t2 = observe_removals(t1, msg.removed_entities@);
    let bs = observe_baselines(t2.base0, t2.base1, msg);
    TrackerState { base0: bs.0, base1: bs.1, ..t2 }
}

/// The set of currently-entered ids.
pub open spec fn active_id_set(t: TrackerState) -> Set<u32> {
    t.ents.dom()
}

/// The entity snapshot tracker: a faithful shadow of the world state
/// at the current point of the scan.
pub struct ActiveEntities {
    entities: EntityStore,
    simulation_updates: TickIndex,
    max_entities: u16,
    deleted_entities: IdSet,
    removed_entities: IdSet,
    baseline0: EntityStore,
    baseline1: EntityStore,
}

impl ActiveEntities {
    pub closed spec fn wf(&self) -> bool {
        &&& self.entities.wf()
        &&& self.simulation_updates.wf()
        &&& self.deleted_entities.wf()
        &&& self.removed_entities.wf()
        &&& self.baseline0.wf()
        &&& self.baseline1.wf()
    }

    pub closed spec fn view(&self) -> TrackerState {
        TrackerState {
            ents: self.entities@,
            sim: self.simulation_updates@,
            deleted: self.deleted_entities@,
            removed: self.removed_entities@,
            max_entries: self.max_entities,
            base0: self.baseline0@,
            base1: self.baseline1@,
        }
    }

    pub fn new() -> (r: ActiveEntities)
        ensures
            r.wf(),
            r@ == TrackerState::initial(),
    {
        ActiveEntities {
            entities: EntityStore::new(),
            simulation_updates: TickIndex::new(),
            max_entities: 0,
            deleted_entities: IdSet::new(),
            removed_entities: IdSet::new(),
            baseline0: EntityStore::new(),
            baseline1: EntityStore::new(),
        }
    }

    /// Fold one entity record into the live mapping and the
    /// simulation-time index, by the merge rule.
    fn handle_entity(&mut self, entity: &PacketEntity, tick: u32, sim_ident: u64)
        requires
            old(self).wf(),
            sim_ident == sim_time_ident(),
        ensures
            final(self).wf(),
            final(self)@ == (TrackerState {
                ents: merge_entity(old(self)@.ents, *entity),
                sim: if has_sim_prop(entity.props@) {
                    old(self)@.sim.insert(entity.entity_index, tick)
                } else {
                    old(self)@.sim
                },
                ..old(self)@
            }),
    {
        let (i, found) = self.entities.position(entity.entity_index);
        proof {
            lemma_ent_find(self.entities.v@, entity.entity_index);
        }
        if found {
            let same_serial = self.entities.v[i].serial_number == entity.serial_number;
            let same_class = self.entities.v[i].server_class == entity.server_class;
            if !same_serial && !same_class {
                let mut fresh = entity.duplicate();
                let incoming = entity.duplicate();
                fresh.apply_update(&incoming.props);
                self.entities.set_at(i, fresh);
            } else {
                let mut existing = self.entities.v[i].duplicate();
                if !same_serial {
                    existing.serial_number = entity.serial_number;
                    existing.update_type = UpdateType::Enter;
                }
                let incoming = entity.duplicate();
                existing.apply_update(&incoming.props);
                self.entities.set_at(i, existing);
            }
        } else {
            self.entities.insert_at(i, entity.duplicate());
        }
        let mut k: usize = 0;
        let mut has_sim = false;
        while k < entity.props.len()
            invariant
                k <= entity.props@.len(),
                has_sim == (exists|j: int|
                    0 <= j < k && entity.props@[j].identifier == sim_time_ident()),
                sim_ident == sim_time_ident(),
            decreases entity.props@.len() - k,
        {
            if entity.props[k].identifier == sim_ident {
                has_sim = true;
            }
            k = k + 1;
        }
        if has_sim {
            self.simulation_updates.set(entity.entity_index, tick);
        }
    }

    /// Fold a whole update message into the tracker: entity records in
    /// order, explicit removals, the entry count, and the baseline
    /// refresh the message may carry.
    pub fn handle_message(&mut self, msg: &PacketEntitiesMessage, tick: u32)
        requires
            old(self).wf(),
        ensures
            final(self).wf(),
            final(self)@ == observe_message(old(self)@, *msg, tick),
    {
        let sim_ident = simulation_time_identifier();
        if msg.max_entries > self.max_entities {
            self.max_entities = msg.max_entries;
        }
        let ghost t0 = self@;
        let mut i: usize = 0;
        while i < msg.entities.len()
            invariant
                i <= msg.entities@.len(),
                self.wf(),
                self@ == observe_entities(t0, msg.entities@.take(i as int), tick),
                sim_ident == sim_time_ident(),
            decreases msg.entities@.len() - i,
        {
            let ghost before = self@;
            let entity = &msg.entities[i];
            self.removed_entities.remove(entity.entity_index);
            if matches!(entity.update_type, UpdateType::Delete) {
                self.deleted_entities.insert(entity.entity_index);
            } else {
                self.deleted_entities.remove(entity.entity_index);
            }
            if matches!(entity.update_type, UpdateType::Delete)
                || matches!(entity.update_type, UpdateType::Leave) {
                self.entities.remove_id(entity.entity_index);
            } else {
                self.handle_entity(entity, tick, sim_ident);
            }
            proof {
                assert(self@ == observe_entity(before, msg.entities@[i as int], tick));
                assert(msg.entities@.take(i + 1) =~= msg.entities@.take(i as int).push(
                    msg.entities@[i as int]));
                lemma_observe_entities_push(t0, msg.entities@.take(i as int), msg.entities@[i as int], tick);
            }
            i = i + 1;
        }
        proof {
            assert(msg.entities@.take(msg.entities@.len() as int) =~= msg.entities@);
        }
        let ghost t1 = self@;
        let mut k: usize = 0;
        while k < msg.removed_entities.len()
            invariant
                k <= msg.removed_entities@.len(),
                self.wf(),
                self@ == observe_removals(t1, msg.removed_entities@.take(k as int)),
            decreases msg.removed_entities@.len() - k,
        {
            let ghost before = self@;
            let id = msg.removed_entities[k];
            self.entities.remove_id(id);
            self.removed_entities.insert(id);
            proof {
                assert(self@ == observe_removal(before, msg.removed_entities@[k as int]));
                assert(msg.removed_entities@.take(k + 1) =~= msg.removed_entities@.take(
                    k as int).push(msg.removed_entities@[k as int]));
                lemma_observe_removals_push(t1, msg.removed_entities@.take(k as int), msg.removed_entities@[k as int]);
            }
            k = k + 1;
        }
        proof {
            assert(msg.removed_entities@.take(msg.removed_entities@.len() as int)
                =~= msg.removed_entities@);
        }
        self.handle_baselines(msg);
    }

    /// Fold the baseline refresh a message may carry into the two
    /// shadowed baseline slots.
    fn handle_baselines(&mut self, msg: &PacketEntitiesMessage)
        requires
            old(self).wf(),
        ensures
            final(self).wf(),
            final(self)@ == (TrackerState {
                base0: observe_baselines(old(self)@.base0, old(self)@.base1, *msg).0,
                base1: observe_baselines(old(self)@.base0, old(self)@.base1, *msg).1,
                ..old(self)@
            }),
    {
        if !msg.updated_base_line {
            return ;
        }
        let is_delta = msg.delta.is_some();
        if msg.base_line_second {
            let old_slot = self.baseline1.duplicate();
            let mut acc = self.baseline1.duplicate();
            Self::fold_baselines(&mut acc, msg, &old_slot, is_delta);
            self.baseline0 = acc;
        } else {
            let old_slot = self.baseline0.duplicate();
            let mut acc = self.baseline0.duplicate();
            Self::fold_baselines(&mut acc, msg, &old_slot, is_delta);
            self.baseline1 = acc;
        }
    }

    /// Fold the entering entities of a message into a baseline slot.
    fn fold_baselines(
        acc: &mut EntityStore,
        msg: &PacketEntitiesMessage,
        old_slot: &EntityStore,
        is_delta: bool,
    )
        requires
            old(acc).wf(),
            old_slot.wf(),
            is_delta == (msg.delta is Some),
        ensures
            final(acc).wf(),
            final(acc)@ == baseline_fold(old(acc)@, msg.entities@, old_slot@, is_delta),
    {
        let mut i: usize = 0;
        while i < msg.entities.len()
            invariant
                i <= msg.entities@.len(),
                acc.wf(),
                old_slot.wf(),
                is_delta == (msg.delta is Some),
                acc@ == baseline_fold(old(acc)@, msg.entities@.take(i as int), old_slot@, is_delta),
            decreases msg.entities@.len() - i,
        {
            let ghost before = acc@;
            let e = &msg.entities[i];
            if matches!(e.update_type, UpdateType::Enter) {
                let (bi, bfound) = old_slot.position(e.entity_index);
                proof {
                    lemma_ent_find(old_slot.v@, e.entity_index);
                }
                let fresh: PacketEntity = if bfound && old_slot.v[bi].server_class
                    == e.server_class && is_delta {
                    let mut upd = old_slot.v[bi].duplicate();
                    let incoming = e.duplicate();
                    upd.apply_update(&incoming.props);
                    upd
                } else {
                    let mut b = e.duplicate();
                    b.update_type = UpdateType::Enter;
                    b.in_pvs = false;
                    b.delay = None;
                    b.delta_tick = None;
                    b.baseline_second = false;
                    b
                };
                proof {
                    assert(fresh.rec().entity_index == fresh.entity_index);
                }
                let (ai, afound) = acc.position(fresh.entity_index);
                proof {
                    lemma_ent_find(acc.v@, fresh.entity_index);
                }
                if afound {
                    acc.set_at(ai, fresh);
                } else {
                    acc.insert_at(ai, fresh);
                }
                proof {
                    assert(acc@ == baseline_enter(before, msg.entities@[i as int], old_slot@, is_delta));
                }
            } else {
                proof {
                    assert(acc@ == baseline_enter(before, msg.entities@[i as int], old_slot@, is_delta));
                }
            }
            proof {
                assert(msg.entities@.take(i + 1) =~= msg.entities@.take(i as int).push(
                    msg.entities@[i as int]));
                lemma_baseline_fold_push(old(acc)@, msg.entities@.take(i as int), msg.entities@[i as int], old_slot@, is_delta);
            }
            i = i + 1;
        }
        proof {
            assert(msg.entities@.take(msg.entities@.len() as int) =~= msg.entities@);
        }
    }

    /// The ascending list of currently-entered ids.
    pub fn entity_ids(&self) -> (r: Vec<u32>)
        requires
            self.wf(),
        ensures
            u32s_sorted(r@),
            forall|id: u32| r@.contains(id) == active_id_set(self@).contains(id),
    {
        let mut r: Vec<u32> = Vec::new();
        let mut i: usize = 0;
        while i < self.entities.v.len()
            invariant
                i <= self.entities.v@.len(),
                r@.len() == i,
                forall|j: int| 0 <= j < i ==> #[trigger] r@[j] == self.entities.v@[j].entity_index,
                self.wf(),
            decreases self.entities.v@.len() - i,
        {
            r.push(self.entities.v[i].entity_index);
            i = i + 1;
        }
        proof {
            assert forall|id: u32| r@.contains(id) == active_id_set(self@).contains(id) by {
                lemma_ent_find(self.entities.v@, id);
                if r@.contains(id) {
                    let j = choose|j: int| 0 <= j < r@.len() && r@[j] == id;
                    assert(self.entities.v@[j].entity_index == id);
                }
                if active_id_set(self@).contains(id) {
                    let f = ent_find(self.entities.v@, id);
                    assert(r@[f] == id);
                }
            }
        }
        r
    }

    /// The ascending list of ids either baseline slot holds.
    pub fn baseline_ids(&self) -> (r: Vec<u32>)
        requires
            self.wf(),
        ensures
            u32s_sorted(r@),
            forall|id: u32| r@.contains(id) == (self@.base0.dom().contains(id)
                || self@.base1.dom().contains(id)),
    {
        let mut r = IdSet::new();
        let mut i: usize = 0;
        while i < self.baseline0.v.len()
            invariant
                i <= self.baseline0.v@.len(),
                r.wf(),
                self.wf(),
                forall|id: u32| r@.contains(id) == (exists|j: int|
                    0 <= j < i && self.baseline0.v@[j].entity_index == id),
            decreases self.baseline0.v@.len() - i,
        {
            r.insert(self.baseline0.v[i].entity_index);
            i = i + 1;
        }
        let mut k: usize = 0;
        while k < self.baseline1.v.len()
            invariant
                k <= self.baseline1.v@.len(),
                r.wf(),
                self.wf(),
                forall|id: u32| r@.contains(id) == ((exists|j: int|
                    0 <= j < self.baseline0.v@.len() && self.baseline0.v@[j].entity_index == id)
                    || (exists|j: int|
                    0 <= j < k && self.baseline1.v@[j].entity_index == id)),
            decreases self.baseline1.v@.len() - k,
        {
            r.insert(self.baseline1.v[k].entity_index);
            k = k + 1;
        }
        proof {
            assert forall|id: u32| r.v@.contains(id) == (self@.base0.dom().contains(id)
                || self@.base1.dom().contains(id)) by {
                lemma_ent_find(self.baseline0.v@, id);
                lemma_ent_find(self.baseline1.v@, id);
                assert(r@.contains(id) == r.v@.contains(id));
            }
        }
        r.v
    }
}

/// A live record as the synthesized prefix declares it: `Preserve`
/// only where the first baseline slot already holds the id under the
/// same class and the same generation — a respawned slot must not be
/// preserved against stale baseline state — else `Enter` with the
/// full known field set.
pub open spec fn retag_rec(r: EntityRec, base0: Map<u32, EntityRec>, id: u32) -> EntityRec {
    EntityRec {
        update_type: if base0.dom().contains(id) && base0[id].server_class == r.server_class
            && base0[id].serial_number == r.serial_number {
            UpdateType::Preserve
        } else {
            UpdateType::Enter
        },
        ..r
    }
}

/// The removal record for an id a baseline slot holds but the live
/// snapshot lacks: `Delete` where the id was explicitly destroyed,
/// `Leave` otherwise.
pub open spec fn tomb_rec(id: u32, deleted: bool) -> EntityRec {
    EntityRec {
        entity_index: id,
        server_class: 0,
        serial_number: 0,
        update_type: if deleted {
            UpdateType::Delete
        } else {
            UpdateType::Leave
        },
        props: Seq::empty(),
        in_pvs: false,
        delay: None,
        delta_tick: None,
        baseline_second: false,
    }
}

/// What the synthesized snapshot delta message holds, id by id: one
/// retagged record per live entity, one removal per baseline-only id.
pub open spec fn snapshot_map(t: TrackerState) -> Map<u32, EntityRec> {
    Map::new(
        |id: u32|
            t.ents.dom().contains(id) || t.base0.dom().contains(id) || t.base1.dom().contains(id),
        |id: u32|
            if t.ents.dom().contains(id) {
                retag_rec(t.ents[id], t.base0, id)
            } else {
                tomb_rec(id, t.deleted.contains(id))
            },
    )
}

/// Build one update message, sorting the entity list ascending by id.
/// An already ascending list is emitted as it stands.
pub fn encode_entities(
    entities: Vec<PacketEntity>,
    max_entries: u16,
    delta: Option<u32>,
    removed_entities: Vec<u32>,
) -> (r: PacketEntitiesMessage)
    ensures
        crate::store::ids_sorted_le(r.entities@),
        r.entities@.to_multiset() == entities@.to_multiset(),
        r.entities@.len() == entities@.len(),
        ids_sorted(entities@) ==> r.entities@ == entities@,
        ids_sorted(entities@) ==> r.sorted(),
        r.removed_entities@ == removed_entities@,
        r.max_entries == max_entries,
        r.delta == delta,
        !r.base_line_second,
        !r.updated_base_line,
{
    let mut entities = entities;
    crate::store::sort_entities(&mut entities);
    PacketEntitiesMessage {
        entities,
        removed_entities,
        max_entries,
        delta,
        base_line_second: false,
        updated_base_line: false,
    }
}

impl ActiveEntities {
    /// Serialize the tracked snapshot back into the wire shape the
    /// format expects: the two baseline slots as full updates (oldest
    /// written first, both flagged as refreshed), one delta message
    /// holding exactly one lifecycle record per live id plus removals
    /// of stale baseline ids, and one closing message carrying every
    /// id explicitly removed during the replay.
    pub fn encode(self, delta: u32) -> (r: (
        Vec<PacketEntitiesMessage>,
        PacketEntitiesMessage,
        PacketEntitiesMessage,
    ))
        requires
            self.wf(),
            delta < u32::MAX,
        ensures
            r.0@.len() == 2,
            r.0@[0].sorted() && ent_map(r.0@[0].entities@) == self@.base1,
            r.0@[1].sorted() && ent_map(r.0@[1].entities@) == self@.base0,
            r.0@[0].delta is None && r.0@[1].delta is None,
            r.0@[0].updated_base_line && r.0@[1].updated_base_line,
            r.0@[0].base_line_second && !r.0@[1].base_line_second,
            r.0@[0].max_entries == self@.max_entries && r.0@[1].max_entries == self@.max_entries,
            r.0@[0].removed_entities@.len() == 0 && r.0@[1].removed_entities@.len() == 0,
            r.1.sorted(),
            ent_map(r.1.entities@) == snapshot_map(self@),
            r.1.delta == Some(delta),
            r.1.max_entries == self@.max_entries,
            r.1.removed_entities@.len() == 0,
            !r.1.base_line_second && !r.1.updated_base_line,
            r.2.entities@.len() == 0,
            r.2.delta == Some((delta + 1) as u32),
            u32s_sorted(r.2.removed_entities@),
            forall|id: u32| r.2.removed_entities@.contains(id) == self@.removed.contains(id),
            r.2.max_entries == self@.max_entries,
    {
        let ActiveEntities {
            entities,
            simulation_updates: _,
            max_entities,
            deleted_entities,
            removed_entities,
            baseline0,
            baseline1,
        } = self;
        let ghost orig = ent_map(entities.v@);
        let ghost origv = entities.v@;
        let ghost base0m = ent_map(baseline0.v@);
        let ghost base1m = ent_map(baseline1.v@);
        let ghost deletedm = deleted_entities@;

        // Retag every live entity against the first baseline slot.
        let mut st = entities;
        let mut i: usize = 0;
        while i < st.v.len()
            invariant
                st.v@.len() == origv.len(),
                forall|j: int|
                    0 <= j < origv.len() ==> #[trigger] st.v@[j].entity_index
                        == origv[j].entity_index,
                forall|j: int|
                    0 <= j < i ==> #[trigger] st.v@[j].rec() == retag_rec(
                        origv[j].rec(),
                        base0m,
                        origv[j].entity_index,
                    ),
                forall|j: int| i <= j < origv.len() ==> #[trigger] st.v@[j] == origv[j],
                ids_sorted(origv),
                baseline0.wf(),
                i <= origv.len(),
            decreases origv.len() - i,
        {
            let ghost prev = st.v@;
            let mut e = st.v.remove(i);
            proof {
                assert(e == origv[i as int]);
            }
            let (bi, bfound) = baseline0.position(e.entity_index);
            proof {
                lemma_ent_find(baseline0.v@, e.entity_index);
                assert(base0m.dom().contains(e.entity_index) == (ent_find(
                    baseline0.v@,
                    e.entity_index,
                ) >= 0));
                if bfound {
                    assert(base0m[e.entity_index] == baseline0.v@[bi as int].rec());
                    assert(base0m[e.entity_index].server_class
                        == baseline0.v@[bi as int].server_class);
                    assert(base0m[e.entity_index].serial_number
                        == baseline0.v@[bi as int].serial_number);
                }
            }
            let same = if bfound {
                baseline0.v[bi].server_class == e.server_class && baseline0.v[bi].serial_number
                    == e.serial_number
            } else {
                false
            };
            e.update_type = if same {
                UpdateType::Preserve
            } else {
                UpdateType::Enter
            };
            st.v.insert(i, e);
            proof {
                vstd::seq_lib::lemma_update_is_remove_insert(prev, i as int, e);
                assert(st.v@ == prev.remove(i as int).insert(i as int, e));
                assert(st.v@ =~= prev.update(i as int, e));
                assert(st.v@[i as int] == e);
                assert(st.v@[i as int].rec() == retag_rec(
                    origv[i as int].rec(),
                    base0m,
                    origv[i as int].entity_index,
                ));
            }
            i = i + 1;
        }
        proof {
            assert(st.wf());
            assert_maps_equal!(st@, Map::new(|id: u32| orig.dom().contains(id), |id: u32| retag_rec(orig[id], base0m, id)), id => {
                lemma_ent_find(st.v@, id);
                lemma_ent_find(origv, id);
                lemma_ent_find_same_ids(st.v@, origv, id);
            });
        }

        // Collect the ids a baseline slot holds but the snapshot lacks.
        let mut removals = IdSet::new();
        let mut k: usize = 0;
        while k < baseline0.v.len()
            invariant
                removals.wf(),
                st.wf(),
                baseline0.wf(),
                st.v@.len() == origv.len(),
                forall|j: int|
                    0 <= j < origv.len() ==> #[trigger] st.v@[j].entity_index
                        == origv[j].entity_index,
                forall|id: u32|
                    removals@.contains(id) == ((exists|j: int|
                        0 <= j < k && #[trigger] baseline0.v@[j].entity_index == id)
                        && !orig.dom().contains(id)),
                k <= baseline0.v@.len(),
            decreases baseline0.v@.len() - k,
        {
            let id = baseline0.v[k].entity_index;
            let (_, found) = st.position(id);
            proof {
                lemma_ent_find(st.v@, id);
                lemma_ent_find_same_ids(st.v@, origv, id);
                lemma_ent_find(origv, id);
            }
            let ghost prevr = removals@;
            if !found {
                removals.insert(id);
            }
            proof {
                assert forall|id2: u32| #[trigger] removals@.contains(id2) == ((exists|j: int|
                    0 <= j < k + 1 && #[trigger] baseline0.v@[j].entity_index == id2)
                    && !orig.dom().contains(id2)) by {
                    if id2 == id {
                        assert(baseline0.v@[k as int].entity_index == id2);
                    } else {
                        if exists|j: int|
                            0 <= j < k + 1 && #[trigger] baseline0.v@[j].entity_index == id2 {
                            let j = choose|j: int|
                                0 <= j < k + 1 && #[trigger] baseline0.v@[j].entity_index == id2;
                            assert(j != k);
                            assert(0 <= j < k && baseline0.v@[j].entity_index == id2);
                        }
                    }
                }
            }
            k = k + 1;
        }
        let mut k2: usize = 0;
        while k2 < baseline1.v.len()
            invariant
                removals.wf(),
                st.wf(),
                baseline1.wf(),
                st.v@.len() == origv.len(),
                forall|j: int|
                    0 <= j < origv.len() ==> #[trigger] st.v@[j].entity_index
                        == origv[j].entity_index,
                forall|id: u32|
                    removals@.contains(id) == (((exists|j: int|
                        0 <= j < baseline0.v@.len() && #[trigger] baseline0.v@[j].entity_index
                            == id) || (exists|j: int|
                        0 <= j < k2 && #[trigger] baseline1.v@[j].entity_index == id))
                        && !orig.dom().contains(id)),
                k2 <= baseline1.v@.len(),
                baseline0.wf(),
            decreases baseline1.v@.len() - k2,
        {
            let id = baseline1.v[k2].entity_index;
            let (_, found) = st.position(id);
            proof {
                lemma_ent_find(st.v@, id);
                lemma_ent_find_same_ids(st.v@, origv, id);
                lemma_ent_find(origv, id);
            }
            let ghost prevr = removals@;
            if !found {
                removals.insert(id);
            }
            proof {
                assert forall|id2: u32| #[trigger] removals@.contains(id2) == (((exists|j: int|
                    0 <= j < baseline0.v@.len() && #[trigger] baseline0.v@[j].entity_index
                        == id2) || (exists|j: int|
                    0 <= j < k2 + 1 && #[trigger] baseline1.v@[j].entity_index == id2))
                    && !orig.dom().contains(id2)) by {
                    if id2 == id {
                        assert(baseline1.v@[k2 as int].entity_index == id2);
                    } else {
                        if exists|j: int|
                            0 <= j < k2 + 1 && #[trigger] baseline1.v@[j].entity_index == id2 {
                            let j = choose|j: int|
                                0 <= j < k2 + 1 && #[trigger] baseline1.v@[j].entity_index
                                    == id2;
                            assert(j != k2);
                            assert(0 <= j < k2 && baseline1.v@[j].entity_index == id2);
                        }
                    }
                }
            }
            k2 = k2 + 1;
        }
        proof {
            assert forall|id: u32| removals@.contains(id) == ((base0m.dom().contains(id)
                || base1m.dom().contains(id)) && !orig.dom().contains(id)) by {
                lemma_ent_find(baseline0.v@, id);
                lemma_ent_find(baseline1.v@, id);
            }
        }

        // Turn each stale baseline id into a removal record.
        let ghost remseq = removals.v@;
        let mut q: usize = 0;
        while q < removals.v.len()
            invariant
                st.wf(),
                removals.wf(),
                removals.v@ == remseq,
                deleted_entities.wf(),
                deleted_entities@ == deletedm,
                q <= remseq.len(),
                forall|id: u32|
                    remseq.contains(id) ==> !orig.dom().contains(id),
                st@ == Map::new(
                    |id: u32| orig.dom().contains(id) || remseq.take(q as int).contains(id),
                    |id: u32|
                        if orig.dom().contains(id) {
                            retag_rec(orig[id], base0m, id)
                        } else {
                            tomb_rec(id, deletedm.contains(id))
                        },
                ),
            decreases remseq.len() - q,
        {
            let ghost before = st@;
            let id = removals.v[q];
            proof {
                assert(remseq.contains(id));
            }
            let del = deleted_entities.contains(id);
            let tomb = PacketEntity {
                entity_index: id,
                server_class: 0,
                serial_number: 0,
                update_type: if del {
                    UpdateType::Delete
                } else {
                    UpdateType::Leave
                },
                props: Vec::new(),
                in_pvs: false,
                delay: None,
                delta_tick: None,
                baseline_second: false,
            };
            proof {
                assert(tomb.props@ =~= Seq::<SendProp>::empty());
                assert(tomb.rec() == tomb_rec(id, deletedm.contains(id)));
            }
            let ghost tombrec = tomb.rec();
            let (ti, tfound) = st.position(id);
            proof {
                lemma_ent_find(st.v@, id);
                if tfound {
                    assert(st@.dom().contains(id));
                    if remseq.take(q as int).contains(id) {
                        let j = choose|j: int| 0 <= j < q && remseq[j] == id;
                        assert(remseq[j] < remseq[q as int]);
                    }
                    assert(false);
                }
            }
            st.insert_at(ti, tomb);
            proof {
                assert(remseq.take(q + 1) =~= remseq.take(q as int).push(id));
                assert forall|y: u32| remseq.take(q + 1).contains(y) == (remseq.take(
                    q as int).contains(y) || y == id) by {
                    if remseq.take(q + 1).contains(y) {
                        let j = choose|j: int| 0 <= j < q + 1 && #[trigger] remseq.take(q + 1)[j] == y;
                        if j < q {
                            assert(remseq.take(q as int)[j] == y);
                        }
                    }
                    if remseq.take(q as int).contains(y) {
                        let j = choose|j: int| 0 <= j < q && remseq.take(q as int)[j] == y;
                        assert(remseq.take(q + 1)[j] == y);
                    }
                    if y == id {
                        assert(remseq.take(q + 1)[q as int] == y);
                    }
                }
                assert(st@ == before.insert(id, tombrec));
                assert(tombrec == tomb_rec(id, deletedm.contains(id)));
                assert_maps_equal!(st@, Map::new(
                    |id2: u32| orig.dom().contains(id2) || remseq.take(q + 1).contains(id2),
                    |id2: u32|
                        if orig.dom().contains(id2) {
                            retag_rec(orig[id2], base0m, id2)
                        } else {
                            tomb_rec(id2, deletedm.contains(id2))
                        },
                ), id2 => {
                    if id2 == id {
                        assert(st@.dom().contains(id2));
                        assert(st@[id2] == tombrec);
                        assert(!orig.dom().contains(id2));
                        assert(remseq.take(q + 1)[q as int] == id);
                        assert(remseq.take(q + 1).contains(id2));
                    } else {
                        assert(remseq.take(q + 1).contains(id2) == remseq.take(
                            q as int).contains(id2));
                        assert(st@.dom().contains(id2) == before.dom().contains(id2));
                        if before.dom().contains(id2) {
                            assert(st@[id2] == before[id2]);
                        }
                    }
                });
            }
            q = q + 1;
        }
        proof {
            assert(remseq.take(remseq.len() as int) =~= remseq);
            assert_maps_equal!(st@, snapshot_map(self@), id2 => {
                lemma_ent_find(baseline0.v@, id2);
                lemma_ent_find(baseline1.v@, id2);
                lemma_ent_find(origv, id2);
            });
        }

        let entity_update = encode_entities(st.v, max_entities, Some(delta), Vec::new());
        let removed_update = encode_entities(
            Vec::new(),
            max_entities,
            Some(delta + 1),
            removed_entities.v,
        );
        let mut m0 = encode_entities(baseline1.v, max_entities, None, Vec::new());
        m0.updated_base_line = true;
        m0.base_line_second = true;
        let mut m1 = encode_entities(baseline0.v, max_entities, None, Vec::new());
        m1.updated_base_line = true;
        let mut baselines: Vec<PacketEntitiesMessage> = Vec::new();
        baselines.push(m0);
        baselines.push(m1);
        proof {
            assert forall|id: u32| removed_update.removed_entities@.contains(id)
                == self@.removed.contains(id) by {
            }
        }
        (baselines, entity_update, removed_update)
    }
}

/// Snapshot completeness: a message holding the snapshot mapping in
/// ascending order carries exactly one lifecycle record for every live
/// id — never zero, never two — and that record is `Preserve` exactly
/// where the first baseline slot holds the id under the same class
/// and the same generation, `Enter` otherwise.
pub proof fn lemma_snapshot_completeness(msg: PacketEntitiesMessage, t: TrackerState)
    requires
        msg.sorted(),
        ent_map(msg.entities@) == snapshot_map(t),
    ensures
        forall|id: u32|
            t.ents.dom().contains(id) ==> exists|i: int|
                0 <= i < msg.entities@.len() && #[trigger] msg.entities@[i].entity_index == id
                    && (msg.entities@[i].update_type is Preserve
                    || msg.entities@[i].update_type is Enter),
        forall|i: int, j: int|
            0 <= i < msg.entities@.len() && 0 <= j < msg.entities@.len()
                && msg.entities@[i].entity_index == msg.entities@[j].entity_index ==> i == j,
        forall|i: int|
            0 <= i < msg.entities@.len() && t.ents.dom().contains(
                #[trigger] msg.entities@[i].entity_index,
            ) ==> ((msg.entities@[i].update_type is Preserve) <==> (t.base0.dom().contains(
                msg.entities@[i].entity_index,
            ) && t.base0[msg.entities@[i].entity_index].server_class
                == t.ents[msg.entities@[i].entity_index].server_class && t.base0[msg.entities@[
                i
            ].entity_index].serial_number == t.ents[msg.entities@[i].entity_index].serial_number)),
{
    assert forall|id: u32| t.ents.dom().contains(id) implies exists|i: int|
        0 <= i < msg.entities@.len() && #[trigger] msg.entities@[i].entity_index == id
            && (msg.entities@[i].update_type is Preserve
            || msg.entities@[i].update_type is Enter) by {
        lemma_ent_find(msg.entities@, id);
        assert(snapshot_map(t).dom().contains(id));
        assert(ent_map(msg.entities@).dom().contains(id));
        let f = ent_find(msg.entities@, id);
        assert(msg.entities@[f].entity_index == id);
        assert(ent_map(msg.entities@)[id] == msg.entities@[f].rec());
        assert(snapshot_map(t)[id] == retag_rec(t.ents[id], t.base0, id));
        assert(msg.entities@[f].rec() == retag_rec(t.ents[id], t.base0, id));
        assert(msg.entities@[f].update_type is Preserve || msg.entities@[f].update_type is Enter);
    }
    assert forall|i: int|
        0 <= i < msg.entities@.len() && t.ents.dom().contains(msg.entities@[i].entity_index)
            implies ((msg.entities@[i].update_type is Preserve) <==> (t.base0.dom().contains(
        msg.entities@[i].entity_index,
    ) && t.base0[msg.entities@[i].entity_index].server_class
        == t.ents[msg.entities@[i].entity_index].server_class && t.base0[msg.entities@[
        i
    ].entity_index].serial_number == t.ents[msg.entities@[i].entity_index].serial_number)) by {
        let id = msg.entities@[i].entity_index;
        lemma_ent_find(msg.entities@, id);
        let f = ent_find(msg.entities@, id);
        assert(msg.entities@[f].entity_index == id);
        if f != i {
            assert(msg.entities@[f].entity_index != msg.entities@[i].entity_index);
        }
        assert(ent_map(msg.entities@).dom().contains(id));
        assert(ent_map(msg.entities@)[id] == msg.entities@[f].rec());
        assert(snapshot_map(t)[id] == retag_rec(t.ents[id], t.base0, id));
        assert(msg.entities@[i].rec() == retag_rec(t.ents[id], t.base0, id));
    }
}

/// The ids a record sequence declares (any tag but a removal).
pub open spec fn declared_ids(s: Seq<PacketEntity>) -> Set<u32> {
    Set::new(
        |id: u32|
            exists|i: int|
                0 <= i < s.len() && (#[trigger] s[i]).entity_index == id && !(s[i].update_type
                    is Delete || s[i].update_type is Leave),
    )
}

/// The ids a record sequence removes.
pub open spec fn removal_ids(s: Seq<PacketEntity>) -> Set<u32> {
    Set::new(
        |id: u32|
            exists|i: int|
                0 <= i < s.len() && (#[trigger] s[i]).entity_index == id && (s[i].update_type
                    is Delete || s[i].update_type is Leave),
    )
}

/// Folding a batch with unique ids changes the live mapping's domain
/// exactly as the tags say: removal ids go, declared ids come.
pub proof fn lemma_fold_dom(t: TrackerState, s: Seq<PacketEntity>, tick: u32)
    requires
        ids_sorted(s),
    ensures
        observe_entities(t, s, tick).ents.dom() == t.ents.dom().difference(
            removal_ids(s),
        ).union(declared_ids(s)),
    decreases s.len(),
{
    if s.len() == 0 {
        assert(observe_entities(t, s, tick).ents.dom() =~= t.ents.dom().difference(
            removal_ids(s),
        ).union(declared_ids(s)));
    } else {
        let e = s[0];
        let rest = s.drop_first();
        let t1 = observe_entity(t, e, tick);
        assert(ids_sorted(rest));
        lemma_fold_dom(t1, rest, tick);
        assert forall|id: u32|
            observe_entities(t, s, tick).ents.dom().contains(id) == t.ents.dom().difference(
                removal_ids(s),
            ).union(declared_ids(s)).contains(id) by {
            // the head's id occurs nowhere in the tail
            if e.update_type is Delete || e.update_type is Leave {
                assert(t1.ents.dom() =~= t.ents.dom().remove(e.entity_index));
            } else {
                assert(t1.ents.dom() =~= t.ents.dom().insert(e.entity_index));
            }
            if id == e.entity_index {
                if removal_ids(rest).contains(id) {
                    let i = choose|i: int|
                        0 <= i < rest.len() && (#[trigger] rest[i]).entity_index == id && (
                        rest[i].update_type is Delete || rest[i].update_type is Leave);
                    assert(s[i + 1].entity_index == id);
                    assert(s[0].entity_index < s[i + 1].entity_index);
                }
                if declared_ids(rest).contains(id) {
                    let i = choose|i: int|
                        0 <= i < rest.len() && (#[trigger] rest[i]).entity_index == id
                            && !(rest[i].update_type is Delete || rest[i].update_type is Leave);
                    assert(s[i + 1].entity_index == id);
                    assert(s[0].entity_index < s[i + 1].entity_index);
                }
                assert(removal_ids(s).contains(id) == (e.update_type is Delete || e.update_type
                    is Leave));
                assert(declared_ids(s).contains(id) == !(e.update_type is Delete
                    || e.update_type is Leave));
            } else {
                assert forall|i: int| 0 <= i < rest.len() && (#[trigger] rest[i]).entity_index
                    == id implies s[i + 1].entity_index == id by {}
                assert(removal_ids(rest).contains(id) == removal_ids(s).contains(id)) by {
                    if removal_ids(s).contains(id) {
                        let i = choose|i: int|
                            0 <= i < s.len() && (#[trigger] s[i]).entity_index == id && (
                            s[i].update_type is Delete || s[i].update_type is Leave);
                        assert(i != 0);
                        assert(rest[i - 1].entity_index == id);
                    }
                }
                assert(declared_ids(rest).contains(id) == declared_ids(s).contains(id)) by {
                    if declared_ids(s).contains(id) {
                        let i = choose|i: int|
                            0 <= i < s.len() && (#[trigger] s[i]).entity_index == id && !(
                            s[i].update_type is Delete || s[i].update_type is Leave);
                        assert(i != 0);
                        assert(rest[i - 1].entity_index == id);
                    }
                }
            }
        }
        assert(observe_entities(t, s, tick).ents.dom() =~= t.ents.dom().difference(
            removal_ids(s),
        ).union(declared_ids(s)));
    }
}

/// Pass-through of the world state: replaying the synthesized
/// snapshot message from a fresh tracker state recreates exactly the
/// live-id set of the snapshot it was serialized from.
pub proof fn lemma_prefix_replay_restores_live_ids(
    msg: PacketEntitiesMessage,
    t: TrackerState,
    t0: TrackerState,
    tick: u32,
)
    requires
        msg.sorted(),
        ent_map(msg.entities@) == snapshot_map(t),
        t0.ents == Map::<u32, EntityRec>::empty(),
        msg.removed_entities@.len() == 0,
    ensures
        observe_message(t0, msg, tick).ents.dom() == t.ents.dom(),
{
    let tmax = TrackerState {
        max_entries: if msg.max_entries > t0.max_entries {
            msg.max_entries
        } else {
            t0.max_entries
        },
        ..t0
    };
    lemma_fold_dom(tmax, msg.entities@, tick);
    let folded = observe_entities(tmax, msg.entities@, tick);
    assert(msg.removed_entities@ =~= Seq::<u32>::empty());
    assert(observe_removals(folded, msg.removed_entities@) == folded);
    assert(observe_message(t0, msg, tick).ents == folded.ents);
    assert forall|id: u32| folded.ents.dom().contains(id) == t.ents.dom().contains(id) by {
        lemma_ent_find(msg.entities@, id);
        if declared_ids(msg.entities@).contains(id) {
            let i = choose|i: int|
                0 <= i < msg.entities@.len() && (#[trigger] msg.entities@[i]).entity_index == id
                    && !(msg.entities@[i].update_type is Delete || msg.entities@[i].update_type
                    is Leave);
            let f = ent_find(msg.entities@, id);
            if f != i {
                assert(msg.entities@[f].entity_index != msg.entities@[i].entity_index);
            }
            assert(ent_map(msg.entities@).dom().contains(id));
            assert(ent_map(msg.entities@)[id] == msg.entities@[i].rec());
            if !t.ents.dom().contains(id) {
                assert(snapshot_map(t)[id] == tomb_rec(id, t.deleted.contains(id)));
                assert(msg.entities@[i].rec() == tomb_rec(id, t.deleted.contains(id)));
                assert(false);
            }
        }
        if t.ents.dom().contains(id) {
            assert(snapshot_map(t).dom().contains(id));
            let f = ent_find(msg.entities@, id);
            assert(msg.entities@[f].entity_index == id);
            assert(ent_map(msg.entities@)[id] == msg.entities@[f].rec());
            assert(msg.entities@[f].rec() == retag_rec(t.ents[id], t.base0, id));
            assert(!(msg.entities@[f].update_type is Delete || msg.entities@[f].update_type
                is Leave));
            assert(declared_ids(msg.entities@).contains(id));
        }
    }
    assert(folded.ents.dom() =~= t.ents.dom());
}

} // verus!
