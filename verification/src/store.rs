use vstd::assert_sets_equal;
use vstd::map::*;
use vstd::prelude::*;
use crate::types::{EntityRec, PacketEntity, SendProp};

verus! {

// ---------------------------------------------------------------------------
// Field lists
// ---------------------------------------------------------------------------

/// Index of the first field with the given identifier, `-1` if none.
pub open spec fn prop_find(s: Seq<SendProp>, ident: u64) -> int
    decreases s.len(),
{
    if s.len() == 0 {
        -1
    } else if s[0].identifier == ident {
        0
    } else {
        let r = prop_find(s.drop_first(), ident);
        if r < 0 {
            -1
        } else {
            r + 1
        }
    }
}

pub proof fn lemma_prop_find(s: Seq<SendProp>, ident: u64)
    ensures
        prop_find(s, ident) < s.len(),
        prop_find(s, ident) == -1 <==> (forall|j: int|
            0 <= j < s.len() ==> #[trigger] s[j].identifier != ident),
        prop_find(s, ident) >= 0 ==> s[prop_find(s, ident)].identifier == ident && (forall|j: int|
            0 <= j < prop_find(s, ident) ==> #[trigger] s[j].identifier != ident),
    decreases s.len(),
{
    if s.len() > 0 && s[0].identifier != ident {
        lemma_prop_find(s.drop_first(), ident);
        assert(forall|j: int|
            1 <= j < s.len() ==> #[trigger] s[j].identifier == s.drop_first()[j - 1].identifier);
    }
}

/// Fold one incoming field into a list: the first field with the same
/// identifier takes the incoming value, an unknown identifier is appended.
pub open spec fn apply_one(s: Seq<SendProp>, p: SendProp) -> Seq<SendProp> {
    let i = prop_find(s, p.identifier);
    if i >= 0 {
        s.update(i, SendProp { index: s[i].index, identifier: s[i].identifier, value: p.value })
    } else {
        s.push(p)
    }
}

/// Fold a whole batch of incoming fields into a list, in order.
pub open spec fn apply_update_s(s: Seq<SendProp>, upd: Seq<SendProp>) -> Seq<SendProp>
    decreases upd.len(),
{
    if upd.len() == 0 {
        s
    } else {
        apply_update_s(apply_one(s, upd[0]), upd.drop_first())
    }
}

pub proof fn lemma_apply_update_push(s: Seq<SendProp>, upd: Seq<SendProp>, p: SendProp)
    ensures
        apply_update_s(s, upd.push(p)) == apply_one(apply_update_s(s, upd), p),
    decreases upd.len(),
{
    if upd.len() == 0 {
        let u1 = upd.push(p);
        assert(u1[0] == p);
        assert(u1.drop_first() =~= Seq::<SendProp>::empty());
        assert(apply_update_s(s, u1) == apply_update_s(apply_one(s, p), u1.drop_first()));
        assert(apply_update_s(apply_one(s, p), Seq::<SendProp>::empty()) == apply_one(s, p));
    } else {
        assert(upd.push(p)[0] == upd[0]);
        assert(upd.push(p).drop_first() =~= upd.drop_first().push(p));
        lemma_apply_update_push(apply_one(s, upd[0]), upd.drop_first(), p);
    }
}

impl PacketEntity {
    /// Fold a batch of incoming fields into this entity's field list.
    pub fn apply_update(&mut self, props: &Vec<SendProp>)
        ensures
            final(self).props@ == apply_update_s(old(self).props@, props@),
            final(self).rec() == (EntityRec {
                props: apply_update_s(old(self).props@, props@),
                ..old(self).rec()
            }),
    {
        let mut k: usize = 0;
        while k < props.len()
            invariant
                k <= props.len(),
                self.props@ == apply_update_s(old(self).props@, props@.take(k as int)),
                self.entity_index == old(self).entity_index,
                self.server_class == old(self).server_class,
                self.serial_number == old(self).serial_number,
                self.update_type == old(self).update_type,
                self.in_pvs == old(self).in_pvs,
                self.delay == old(self).delay,
                self.delta_tick == old(self).delta_tick,
                self.baseline_second == old(self).baseline_second,
            decreases props.len() - k,
        {
            let p = props[k];
            let ghost before = self.props@;
            let mut j: usize = 0;
            let mut found = false;
            while j < self.props.len() && !found
                invariant
                    j <= self.props.len(),
                    !found ==> forall|t: int|
                        0 <= t < j ==> #[trigger] self.props@[t].identifier != p.identifier,
                    found ==> j < self.props@.len() && self.props@[j as int].identifier
                        == p.identifier && (forall|t: int|
                        0 <= t < j ==> #[trigger] self.props@[t].identifier != p.identifier),
                    self.props@ == before,
                decreases self.props.len() - j + (if found { 0int } else { 1int }),
            {
                if self.props[j].identifier == p.identifier {
                    found = true;
                } else {
                    j = j + 1;
                }
            }
            proof {
                lemma_prop_find(before, p.identifier);
            }
            if found {
                let old_prop = self.props[j];
                self.props.set(j, SendProp {
                    index: old_prop.index,
                    identifier: old_prop.identifier,
                    value: p.value,
                });
                proof {
                    assert(prop_find(before, p.identifier) == j as int);
                }
            } else {
                self.props.push(p);
                proof {
                    assert(prop_find(before, p.identifier) == -1);
                }
            }
            proof {
                assert(self.props@ == apply_one(before, p));
                assert(props@.take(k + 1) =~= props@.take(k as int).push(p));
                lemma_apply_update_push(old(self).props@, props@.take(k as int), p);
            }
            k = k + 1;
        }
        proof {
            assert(props@.take(props@.len() as int) =~= props@);
        }
    }
}

impl PacketEntity {
    /// An owned copy with the same record.
    pub fn duplicate(&self) -> (r: PacketEntity)
        ensures
            r.rec() == self.rec(),
    {
        let mut props: Vec<SendProp> = Vec::new();
        let mut i: usize = 0;
        while i < self.props.len()
            invariant
                i <= self.props@.len(),
                props@ == self.props@.take(i as int),
            decreases self.props@.len() - i,
        {
            props.push(self.props[i]);
            proof {
                assert(self.props@.take(i + 1) =~= self.props@.take(i as int).push(
                    self.props@[i as int]));
            }
            i = i + 1;
        }
        proof {
            assert(self.props@.take(self.props@.len() as int) =~= self.props@);
        }
        PacketEntity {
            entity_index: self.entity_index,
            server_class: self.server_class,
            serial_number: self.serial_number,
            update_type: self.update_type,
            props,
            in_pvs: self.in_pvs,
            delay: self.delay,
            delta_tick: self.delta_tick,
            baseline_second: self.baseline_second,
        }
    }
}

// ---------------------------------------------------------------------------
// Entity stores: mappings from id to entity, kept in ascending id order
// ---------------------------------------------------------------------------

pub open spec fn ids_sorted(s: Seq<PacketEntity>) -> bool {
    forall|i: int, j: int|
        0 <= i < j < s.len() ==> #[trigger] s[i].entity_index < #[trigger] s[j].entity_index
}

/// Index of the entity with the given id, `-1` if none.
pub open spec fn ent_find(s: Seq<PacketEntity>, id: u32) -> int
    decreases s.len(),
{
    if s.len() == 0 {
        -1
    } else if s[0].entity_index == id {
        0
    } else {
        let r = ent_find(s.drop_first(), id);
        if r < 0 {
            -1
        } else {
            r + 1
        }
    }
}

pub proof fn lemma_ent_find(s: Seq<PacketEntity>, id: u32)
    ensures
        ent_find(s, id) < s.len(),
        ent_find(s, id) == -1 <==> (forall|j: int|
            0 <= j < s.len() ==> #[trigger] s[j].entity_index != id),
        ent_find(s, id) >= 0 ==> s[ent_find(s, id)].entity_index == id,
    decreases s.len(),
{
    if s.len() > 0 && s[0].entity_index != id {
        lemma_ent_find(s.drop_first(), id);
        assert(forall|j: int|
            1 <= j < s.len() ==> #[trigger] s[j].entity_index == s.drop_first()[j
                - 1].entity_index);
    }
}

/// The mapping a sorted entity list stands for.
pub open spec fn ent_map(s: Seq<PacketEntity>) -> Map<u32, EntityRec> {
    Map::new(|id: u32| ent_find(s, id) >= 0, |id: u32| s[ent_find(s, id)].rec())
}


/// Lists with the same ids in the same places are searched alike.
pub proof fn lemma_ent_find_same_ids(s1: Seq<PacketEntity>, s2: Seq<PacketEntity>, id: u32)
    requires
        s1.len() == s2.len(),
        forall|j: int| 0 <= j < s1.len() ==> #[trigger] s1[j].entity_index == s2[j].entity_index,
    ensures
        ent_find(s1, id) == ent_find(s2, id),
    decreases s1.len(),
{
    if s1.len() > 0 && s1[0].entity_index != id {
        assert(forall|j: int|
            0 <= j < s1.drop_first().len() ==> #[trigger] s1.drop_first()[j].entity_index
                == s2.drop_first()[j].entity_index);
        lemma_ent_find_same_ids(s1.drop_first(), s2.drop_first(), id);
    }
}

/// A mapping from entity id to entity, kept in strictly ascending id order.
#[derive(Clone, Debug)]
pub struct EntityStore {
    pub v: Vec<PacketEntity>,
}

impl EntityStore {
    pub open spec fn wf(&self) -> bool {
        ids_sorted(self.v@)
    }

    /// The mapping held.
    pub open spec fn view(&self) -> Map<u32, EntityRec> {
        ent_map(self.v@)
    }

    pub fn new() -> (r: EntityStore)
        ensures
            r.wf(),
            r@ == Map::<u32, EntityRec>::empty(),
    {
        let r = EntityStore { v: Vec::new() };
        proof {
            assert(r@ =~= Map::<u32, EntityRec>::empty());
        }
        r
    }

    /// An owned copy holding the same mapping.
    pub fn duplicate(&self) -> (r: EntityStore)
        requires
            self.wf(),
        ensures
            r.wf(),
            r@ == self@,
            r.v@.len() == self.v@.len(),
            forall|j: int| 0 <= j < self.v@.len() ==> #[trigger] r.v@[j].rec() == self.v@[j].rec(),
    {
        let mut v: Vec<PacketEntity> = Vec::new();
        let mut i: usize = 0;
        while i < self.v.len()
            invariant
                i <= self.v@.len(),
                v@.len() == i,
                forall|j: int| 0 <= j < i ==> #[trigger] v@[j].rec() == self.v@[j].rec(),
            decreases self.v@.len() - i,
        {
            v.push(self.v[i].duplicate());
            i = i + 1;
        }
        let r = EntityStore { v };
        proof {
            assert forall|j: int| 0 <= j < r.v@.len() implies #[trigger] r.v@[j].entity_index
                == self.v@[j].entity_index by {
                assert(r.v@[j].rec() == self.v@[j].rec());
            }
            assert_maps_equal!(r@, self@, id2 => {
                lemma_ent_find_same_ids(r.v@, self.v@, id2);
                lemma_ent_find(self.v@, id2);
            });
        }
        r
    }

    /// Index of the entity with the given id, and the place where such
    /// an entity would have to stand to keep the order.
    pub fn position(&self, id: u32) -> (r: (usize, bool))
        requires
            self.wf(),
        ensures
            r.1 ==> r.0 < self.v@.len() && ent_find(self.v@, id) == r.0 as int,
            !r.1 ==> ent_find(self.v@, id) == -1 && r.0 <= self.v@.len() && (forall|j: int|
                0 <= j < r.0 ==> #[trigger] self.v@[j].entity_index < id) && (forall|j: int|
                r.0 <= j < self.v@.len() ==> #[trigger] self.v@[j].entity_index > id),
    {
        let mut i: usize = 0;
        while i < self.v.len()
            invariant
                i <= self.v@.len(),
                forall|j: int| 0 <= j < i ==> #[trigger] self.v@[j].entity_index < id,
                self.wf(),
            decreases self.v@.len() - i,
        {
            let e_id = self.v[i].entity_index;
            if e_id == id {
                proof {
                    lemma_ent_find(self.v@, id);
                    assert(ent_find(self.v@, id) >= 0);
                    let f = ent_find(self.v@, id);
                    assert(self.v@[f].entity_index == id);
                    if f != i as int {
                        assert(self.v@[f].entity_index != self.v@[i as int].entity_index);
                    }
                }
                return (i, true);
            } else if e_id > id {
                proof {
                    lemma_ent_find(self.v@, id);
                    if ent_find(self.v@, id) >= 0 {
                        let f = ent_find(self.v@, id);
                        assert(self.v@[f].entity_index == id);
                        if f < i as int {
                        } else {
                            assert(f > i as int);
                            assert(self.v@[i as int].entity_index < self.v@[f].entity_index);
                        }
                    }
                }
                return (i, false);
            }
            i = i + 1;
        }
        proof {
            lemma_ent_find(self.v@, id);
        }
        (i, false)
    }

    /// Replace the entity at a known index, keeping its id.
    pub fn set_at(&mut self, i: usize, e: PacketEntity)
        requires
            old(self).wf(),
            i < old(self).v@.len(),
            e.entity_index == old(self).v@[i as int].entity_index,
        ensures
            final(self).wf(),
            final(self)@ == old(self)@.insert(e.entity_index, e.rec()),
            final(self).v@ == old(self).v@.update(i as int, e),
    {
        let ghost oldv = self.v@;
        let id = e.entity_index;
        self.v.set(i, e);
        proof {
            assert_maps_equal!(self@, old(self)@.insert(e.entity_index, e.rec()), id2 => {
                lemma_ent_find(oldv, id2);
                lemma_ent_find(self.v@, id2);
                if ent_find(oldv, id2) >= 0 {
                    let f = ent_find(oldv, id2);
                    assert(self.v@[f].entity_index == id2);
                }
                if ent_find(self.v@, id2) >= 0 {
                    let f = ent_find(self.v@, id2);
                    assert(oldv[f].entity_index == id2 || id2 == id);
                    if id2 == id && f != i as int {
                        assert(oldv[f].entity_index == id2);
                        let g = ent_find(oldv, id);
                        assert(oldv[g].entity_index == id);
                        if g != f {
                            assert(oldv[g].entity_index != oldv[f].entity_index);
                        }
                        assert(g == i as int || oldv[g].entity_index != oldv[i as int].entity_index);
                        assert(f == i as int);
                    }
                    if id2 != id {
                        assert(f != i as int);
                        assert(oldv[f].entity_index == id2);
                        let g = ent_find(oldv, id2);
                        assert(oldv[g].entity_index == id2);
                        if g != f {
                            assert(oldv[g].entity_index != oldv[f].entity_index);
                        }
                        assert(g == f);
                    }
                }
            });
        }
    }

    /// Insert an entity with a fresh id at its ordered place.
    pub fn insert_at(&mut self, i: usize, e: PacketEntity)
        requires
            old(self).wf(),
            i <= old(self).v@.len(),
            forall|j: int| 0 <= j < i ==> #[trigger] old(self).v@[j].entity_index < e.entity_index,
            forall|j: int|
                i <= j < old(self).v@.len() ==> #[trigger] old(self).v@[j].entity_index
                    > e.entity_index,
        ensures
            final(self).wf(),
            final(self)@ == old(self)@.insert(e.entity_index, e.rec()),
    {
        let ghost oldv = self.v@;
        let id = e.entity_index;
        self.v.insert(i, e);
        proof {
            assert(forall|j: int| 0 <= j < i ==> self.v@[j] == oldv[j]);
            assert(self.v@[i as int] == e);
            assert(forall|j: int| i < j < self.v@.len() ==> self.v@[j] == oldv[j - 1]);
            assert_maps_equal!(self@, old(self)@.insert(e.entity_index, e.rec()), id2 => {
                lemma_ent_find(oldv, id2);
                lemma_ent_find(self.v@, id2);
                if ent_find(self.v@, id2) >= 0 {
                    let f = ent_find(self.v@, id2);
                    if f < i as int {
                        assert(oldv[f].entity_index == id2);
                    } else if f == i as int {
                        assert(id2 == id);
                    } else {
                        assert(oldv[f - 1].entity_index == id2);
                    }
                    if id2 != id {
                        let g = ent_find(oldv, id2);
                        let h: int = if f < i as int {
                            f
                        } else {
                            f - 1
                        };
                        assert(oldv[h].entity_index == id2);
                        assert(oldv[g].entity_index == id2);
                        if g != h {
                            assert(oldv[g].entity_index != oldv[h].entity_index);
                        }
                    }
                } else {
                    if ent_find(oldv, id2) >= 0 {
                        let g = ent_find(oldv, id2);
                        let h: int = if g < i as int {
                            g
                        } else {
                            g + 1
                        };
                        assert(self.v@[h].entity_index == id2);
                    }
                    assert(self.v@[i as int].entity_index == id);
                    assert(id2 != id);
                }
            });
        }
    }

    /// Remove the entity with the given id, if any.
    pub fn remove_id(&mut self, id: u32)
        requires
            old(self).wf(),
        ensures
            final(self).wf(),
            final(self)@ == old(self)@.remove(id),
    {
        let (i, found) = self.position(id);
        let ghost oldv = self.v@;
        if found {
            self.v.remove(i);
            proof {
                assert(forall|j: int| 0 <= j < i ==> self.v@[j] == oldv[j]);
                assert(forall|j: int| i <= j < self.v@.len() ==> self.v@[j] == oldv[j + 1]);
                assert forall|id2: u32| true implies {
                    &&& (ent_find(self.v@, id2) >= 0) == (id2 != id && ent_find(oldv, id2) >= 0)
                    &&& (ent_find(self.v@, id2) >= 0 ==> self.v@[ent_find(self.v@, id2)].rec()
                        == oldv[ent_find(oldv, id2)].rec())
                } by {
                    lemma_ent_find(oldv, id2);
                    lemma_ent_find(self.v@, id2);
                    lemma_ent_find(oldv, id);
                    if ent_find(self.v@, id2) >= 0 {
                        let f = ent_find(self.v@, id2);
                        let h: int = if f < i as int {
                            f
                        } else {
                            f + 1
                        };
                        assert(oldv[h].entity_index == id2);
                        if id2 == id {
                            let g = ent_find(oldv, id);
                            assert(oldv[g].entity_index == id);
                            if g != h {
                                assert(oldv[g].entity_index != oldv[h].entity_index);
                            }
                            assert(h == i as int);
                            assert(false);
                        }
                        let g = ent_find(oldv, id2);
                        if g != h {
                            assert(oldv[g].entity_index != oldv[h].entity_index);
                        }
                    } else {
                        if id2 != id && ent_find(oldv, id2) >= 0 {
                            let g = ent_find(oldv, id2);
                            assert(oldv[g].entity_index == id2);
                            assert(g != i as int);
                            let h: int = if g < i as int {
                                g
                            } else {
                                g - 1
                            };
                            assert(self.v@[h].entity_index == id2);
                        }
                    }
                }
                assert(self@ =~= old(self)@.remove(id));
            }
        } else {
            proof {
                lemma_ent_find(oldv, id);
                assert(self@ =~= old(self)@.remove(id));
            }
        }
    }
}

// ---------------------------------------------------------------------------
// Id sets, kept in ascending order
// ---------------------------------------------------------------------------

pub open spec fn u32s_sorted(s: Seq<u32>) -> bool {
    forall|i: int, j: int| 0 <= i < j < s.len() ==> #[trigger] s[i] < #[trigger] s[j]
}

/// A set of entity ids, kept in strictly ascending order.
#[derive(Clone, Debug)]
pub struct IdSet {
    pub v: Vec<u32>,
}

impl IdSet {
    pub open spec fn wf(&self) -> bool {
        u32s_sorted(self.v@)
    }

    pub open spec fn view(&self) -> Set<u32> {
        Set::new(|x: u32| self.v@.contains(x))
    }

    pub fn new() -> (r: IdSet)
        ensures
            r.wf(),
            r@ == Set::<u32>::empty(),
    {
        let r = IdSet { v: Vec::new() };
        proof {
            assert(r@ =~= Set::<u32>::empty());
        }
        r
    }

    pub fn contains(&self, x: u32) -> (r: bool)
        requires
            self.wf(),
        ensures
            r == self@.contains(x),
    {
        let mut i: usize = 0;
        while i < self.v.len()
            invariant
                i <= self.v@.len(),
                forall|j: int| 0 <= j < i ==> #[trigger] self.v@[j] != x,
            decreases self.v@.len() - i,
        {
            if self.v[i] == x {
                assert(self.v@.contains(x));
                return true;
            }
            i = i + 1;
        }
        proof {
            if self.v@.contains(x) {
                let j = choose|j: int| 0 <= j < self.v@.len() && self.v@[j] == x;
                assert(self.v@[j] != x);
            }
        }
        false
    }

    pub fn insert(&mut self, x: u32)
        requires
            old(self).wf(),
        ensures
            final(self).wf(),
            final(self)@ == old(self)@.insert(x),
    {
        let ghost oldv = self.v@;
        let mut i: usize = 0;
        while i < self.v.len() && self.v[i] < x
            invariant
                i <= self.v@.len(),
                forall|j: int| 0 <= j < i ==> #[trigger] self.v@[j] < x,
                self.wf(),
                self.v@ == oldv,
            decreases self.v@.len() - i,
        {
            i = i + 1;
        }
        if i < self.v.len() && self.v[i] == x {
            proof {
                assert(self.v@.contains(x));
                assert_sets_equal!(self@ == old(self)@.insert(x), y => {
                    if y == x {
                        assert(oldv.contains(x));
                    }
                });
            }
            return ;
        }
        proof {
            assert(forall|j: int|
                i <= j < oldv.len() ==> #[trigger] oldv[j] >= oldv[i as int] && oldv[i as int]
                    > x);
        }
        self.v.insert(i, x);
        proof {
            assert(forall|j: int| 0 <= j < i ==> self.v@[j] == oldv[j]);
            assert(self.v@[i as int] == x);
            assert(forall|j: int| i < j < self.v@.len() ==> self.v@[j] == oldv[j - 1]);
            assert_sets_equal!(self@ == old(self)@.insert(x), y => {
                if self.v@.contains(y) {
                    let j = choose|j: int| 0 <= j < self.v@.len() && self.v@[j] == y;
                    if j < i as int {
                        assert(oldv[j] == y);
                        assert(oldv.contains(y));
                    } else if j > i as int {
                        assert(oldv[j - 1] == y);
                        assert(oldv.contains(y));
                    }
                }
                if y == x {
                    assert(self.v@[i as int] == y);
                    assert(self.v@.contains(y));
                }
                if oldv.contains(y) {
                    let j = choose|j: int| 0 <= j < oldv.len() && oldv[j] == y;
                    if j < i as int {
                        assert(self.v@[j] == y);
                    } else {
                        assert(self.v@[j + 1] == y);
                    }
                    assert(self.v@.contains(y));
                }
            });
        }
    }

    pub fn remove(&mut self, x: u32)
        requires
            old(self).wf(),
        ensures
            final(self).wf(),
            final(self)@ == old(self)@.remove(x),
    {
        let ghost oldv = self.v@;
        let mut i: usize = 0;
        while i < self.v.len() && self.v[i] != x
            invariant
                i <= self.v@.len(),
                forall|j: int| 0 <= j < i ==> #[trigger] self.v@[j] != x,
                self.wf(),
                self.v@ == oldv,
            decreases self.v@.len() - i,
        {
            i = i + 1;
        }
        if i < self.v.len() {
            self.v.remove(i);
            proof {
                assert(oldv[i as int] == x);
                assert(forall|j: int| 0 <= j < i ==> self.v@[j] == oldv[j]);
                assert(forall|j: int| i <= j < self.v@.len() ==> self.v@[j] == oldv[j + 1]);
                assert_sets_equal!(self@ == old(self)@.remove(x), y => {
                    if self.v@.contains(y) {
                        let j = choose|j: int| 0 <= j < self.v@.len() && self.v@[j] == y;
                        let h: int = if j < i as int {
                            j
                        } else {
                            j + 1
                        };
                        assert(oldv[h] == y);
                        assert(oldv.contains(y));
                        assert(h != i as int);
                        if y == x {
                            assert(oldv[h] == oldv[i as int]);
                            assert(false);
                        }
                    } else {
                        if y != x && oldv.contains(y) {
                            let j = choose|j: int| 0 <= j < oldv.len() && oldv[j] == y;
                            assert(j != i as int);
                            if j < i as int {
                                assert(self.v@[j] == y);
                            } else {
                                assert(self.v@[j - 1] == y);
                            }
                            assert(false);
                        }
                    }
                });
            }
        } else {
            proof {
                if oldv.contains(x) {
                    let j = choose|j: int| 0 <= j < oldv.len() && oldv[j] == x;
                    assert(oldv[j] != x);
                }
                assert_sets_equal!(self@ == old(self)@.remove(x), y => {});
            }
        }
    }
}

// ---------------------------------------------------------------------------
// Tick indexes: mappings from id to tick, kept in ascending id order
// ---------------------------------------------------------------------------

/// One (entity id, tick) pair of a tick index.
#[derive(Clone, Copy, Debug, PartialEq, Eq, Structural)]
pub struct TickEntry {
    pub id: u32,
    pub tick: u32,
}

pub open spec fn tick_ids_sorted(s: Seq<TickEntry>) -> bool {
    forall|i: int, j: int| 0 <= i < j < s.len() ==> #[trigger] s[i].id < #[trigger] s[j].id
}

/// Index of the entry with the given id, `-1` if none.
pub open spec fn tick_find(s: Seq<TickEntry>, id: u32) -> int
    decreases s.len(),
{
    if s.len() == 0 {
        -1
    } else if s[0].id == id {
        0
    } else {
        let r = tick_find(s.drop_first(), id);
        if r < 0 {
            -1
        } else {
            r + 1
        }
    }
}

pub proof fn lemma_tick_find(s: Seq<TickEntry>, id: u32)
    ensures
        tick_find(s, id) < s.len(),
        tick_find(s, id) == -1 <==> (forall|j: int| 0 <= j < s.len() ==> #[trigger] s[j].id != id),
        tick_find(s, id) >= 0 ==> s[tick_find(s, id)].id == id,
    decreases s.len(),
{
    if s.len() > 0 && s[0].id != id {
        lemma_tick_find(s.drop_first(), id);
        assert(forall|j: int| 1 <= j < s.len() ==> #[trigger] s[j].id == s.drop_first()[j - 1].id);
    }
}

pub open spec fn tick_map(s: Seq<TickEntry>) -> Map<u32, u32> {
    Map::new(|id: u32| tick_find(s, id) >= 0, |id: u32| s[tick_find(s, id)].tick)
}

/// A mapping from entity id to tick, kept in strictly ascending id order.
#[derive(Clone, Debug)]
pub struct TickIndex {
    pub v: Vec<TickEntry>,
}

impl TickIndex {
    pub open spec fn wf(&self) -> bool {
        tick_ids_sorted(self.v@)
    }

    pub open spec fn view(&self) -> Map<u32, u32> {
        tick_map(self.v@)
    }

    pub fn new() -> (r: TickIndex)
        ensures
            r.wf(),
            r@ == Map::<u32, u32>::empty(),
    {
        let r = TickIndex { v: Vec::new() };
        proof {
            assert(r@ =~= Map::<u32, u32>::empty());
        }
        r
    }

    /// Record the tick for an id, replacing any earlier entry.
    pub fn set(&mut self, id: u32, tick: u32)
        requires
            old(self).wf(),
        ensures
            final(self).wf(),
            final(self)@ == old(self)@.insert(id, tick),
    {
        let ghost oldv = self.v@;
        let mut i: usize = 0;
        while i < self.v.len() && self.v[i].id < id
            invariant
                i <= self.v@.len(),
                forall|j: int| 0 <= j < i ==> #[trigger] self.v@[j].id < id,
                self.wf(),
                self.v@ == oldv,
            decreases self.v@.len() - i,
        {
            i = i + 1;
        }
        if i < self.v.len() && self.v[i].id == id {
            self.v.set(i, TickEntry { id, tick });
            proof {
                assert_maps_equal!(self@, old(self)@.insert(id, tick), id2 => {
                    lemma_tick_find(oldv, id2);
                    lemma_tick_find(self.v@, id2);
                    if tick_find(oldv, id2) >= 0 {
                        let f = tick_find(oldv, id2);
                        assert(self.v@[f].id == id2);
                    }
                    if tick_find(self.v@, id2) >= 0 {
                        let f = tick_find(self.v@, id2);
                        assert(oldv[f].id == id2 || id2 == id);
                        let g: int = if id2 == id {
                            tick_find(oldv, id)
                        } else {
                            tick_find(oldv, id2)
                        };
                        assert(oldv[g].id == id2);
                        if g != f {
                            assert(oldv[g].id != oldv[f].id);
                        }
                        if id2 == id {
                            assert(oldv[i as int].id == id);
                            if g != i as int {
                                assert(oldv[g].id != oldv[i as int].id);
                            }
                            assert(f == i as int);
                        }
                    }
                });
            }
        } else {
            proof {
                assert(forall|j: int|
                    i <= j < oldv.len() ==> #[trigger] oldv[j].id >= oldv[i as int].id
                        && oldv[i as int].id > id);
            }
            self.v.insert(i, TickEntry { id, tick });
            proof {
                assert(forall|j: int| 0 <= j < i ==> self.v@[j] == oldv[j]);
                assert(self.v@[i as int] == TickEntry { id, tick });
                assert(forall|j: int| i < j < self.v@.len() ==> self.v@[j] == oldv[j - 1]);
                assert_maps_equal!(self@, old(self)@.insert(id, tick), id2 => {
                    lemma_tick_find(oldv, id2);
                    lemma_tick_find(self.v@, id2);
                    if tick_find(self.v@, id2) >= 0 {
                        let f = tick_find(self.v@, id2);
                        if f < i as int {
                            assert(oldv[f].id == id2);
                        } else if f == i as int {
                            assert(id2 == id);
                        } else {
                            assert(oldv[f - 1].id == id2);
                        }
                        if id2 != id {
                            let g = tick_find(oldv, id2);
                            let h: int = if f < i as int {
                                f
                            } else {
                                f - 1
                            };
                            assert(oldv[h].id == id2);
                            assert(oldv[g].id == id2);
                            if g != h {
                                assert(oldv[g].id != oldv[h].id);
                            }
                        }
                    } else {
                        if tick_find(oldv, id2) >= 0 {
                            let g = tick_find(oldv, id2);
                            let h: int = if g < i as int {
                                g
                            } else {
                                g + 1
                            };
                            assert(self.v@[h].id == id2);
                        }
                        assert(self.v@[i as int].id == id);
                        assert(id2 != id);
                    }
                });
            }
        }
    }
}

/// Ascending order, equal ids allowed.
pub open spec fn u32s_sorted_le(s: Seq<u32>) -> bool {
    forall|i: int, j: int| 0 <= i < j < s.len() ==> #[trigger] s[i] <= #[trigger] s[j]
}

/// Ascending id order, equal ids allowed.
pub open spec fn ids_sorted_le(s: Seq<PacketEntity>) -> bool {
    forall|i: int, j: int|
        0 <= i < j < s.len() ==> #[trigger] s[i].entity_index <= #[trigger] s[j].entity_index
}

/// Sort a list of ids ascending. An already ascending list comes back
/// unchanged.
pub fn sort_ids(v: &mut Vec<u32>)
    ensures
        u32s_sorted_le(final(v)@),
        final(v)@.to_multiset() == old(v)@.to_multiset(),
        final(v)@.len() == old(v)@.len(),
        u32s_sorted_le(old(v)@) ==> final(v)@ == old(v)@,
{
    let ghost orig = v@;
    let mut i: usize = 1;
    while i < v.len()
        invariant
            1 <= i,
            v@.len() == orig.len(),
            forall|a: int, b: int| 0 <= a < b < i ==> #[trigger] v@[a] <= #[trigger] v@[b],
            v@.to_multiset() == orig.to_multiset(),
            u32s_sorted_le(orig) ==> v@ == orig,
        decreases v@.len() - i,
    {
        let ghost prev = v@;
        let e = v.remove(i);
        let mut pos: usize = 0;
        while pos < i && v[pos] <= e
            invariant
                pos <= i,
                forall|j: int| 0 <= j < pos ==> #[trigger] v@[j] <= e,
                v@ == prev.remove(i as int),
            decreases i - pos,
        {
            pos = pos + 1;
        }
        v.insert(pos, e);
        proof {
            broadcast use vstd::seq_lib::to_multiset_insert;
            broadcast use vstd::seq_lib::to_multiset_remove;
            broadcast use vstd::seq_lib::to_multiset_contains;
            broadcast use vstd::multiset::group_multiset_axioms;

            assert(prev.remove(i as int).to_multiset() == prev.to_multiset().remove(prev[i as int]));
            assert(v@.to_multiset() == prev.remove(i as int).to_multiset().insert(e));
            assert(prev.contains(prev[i as int]));
            assert(prev.to_multiset().count(e) > 0);
            assert(v@.to_multiset() =~= prev.to_multiset());

            assert(forall|j: int| 0 <= j < pos ==> v@[j] == prev[j]);
            assert(v@[pos as int] == e);
            assert(forall|j: int| pos < j <= i ==> v@[j] == prev[j - 1]);
            assert(forall|j: int| i < j < v@.len() ==> v@[j] == prev[j]);
            if u32s_sorted_le(orig) {
                assert(forall|j: int| 0 <= j < i ==> prev[j] <= e);
                assert(pos == i);
                assert(v@ =~= prev);
            }
        }
        i = i + 1;
    }
    proof {
        if v.len() == 0 {
            assert(v@ =~= orig);
        }
    }
}

/// Sort an entity list ascending by id. An already ascending list
/// comes back unchanged.
pub fn sort_entities(v: &mut Vec<PacketEntity>)
    ensures
        ids_sorted_le(final(v)@),
        final(v)@.to_multiset() == old(v)@.to_multiset(),
        final(v)@.len() == old(v)@.len(),
        ids_sorted_le(old(v)@) ==> final(v)@ == old(v)@,
{
    let ghost orig = v@;
    let mut i: usize = 1;
    while i < v.len()
        invariant
            1 <= i,
            v@.len() == orig.len(),
            forall|a: int, b: int|
                0 <= a < b < i ==> #[trigger] v@[a].entity_index
                    <= #[trigger] v@[b].entity_index,
            v@.to_multiset() == orig.to_multiset(),
            ids_sorted_le(orig) ==> v@ == orig,
        decreases v@.len() - i,
    {
        let ghost prev = v@;
        let e = v.remove(i);
        let mut pos: usize = 0;
        while pos < i && v[pos].entity_index <= e.entity_index
            invariant
                pos <= i,
                forall|j: int| 0 <= j < pos ==> (#[trigger] v@[j]).entity_index <= e.entity_index,
                v@ == prev.remove(i as int),
            decreases i - pos,
        {
            pos = pos + 1;
        }
        v.insert(pos, e);
        proof {
            broadcast use vstd::seq_lib::to_multiset_insert;
            broadcast use vstd::seq_lib::to_multiset_remove;
            broadcast use vstd::seq_lib::to_multiset_contains;
            broadcast use vstd::multiset::group_multiset_axioms;

            assert(prev.remove(i as int).to_multiset() == prev.to_multiset().remove(prev[i as int]));
            assert(v@.to_multiset() == prev.remove(i as int).to_multiset().insert(prev[i as int]));
            assert(prev.contains(prev[i as int]));
            assert(prev.to_multiset().count(prev[i as int]) > 0);
            assert(v@.to_multiset() =~= prev.to_multiset());

            assert(forall|j: int| 0 <= j < pos ==> v@[j] == prev[j]);
            assert(v@[pos as int] == prev[i as int]);
            assert(forall|j: int| pos < j <= i ==> v@[j] == prev[j - 1]);
            assert(forall|j: int| i < j < v@.len() ==> v@[j] == prev[j]);
            if ids_sorted_le(orig) {
                assert(forall|j: int| 0 <= j < i ==> prev[j].entity_index <= e.entity_index);
                assert(pos == i);
                assert(v@ =~= prev);
            }
        }
        i = i + 1;
    }
    proof {
        if v.len() == 0 {
            assert(v@ =~= orig);
        }
    }
}

} // verus!