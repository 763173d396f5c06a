//! Entities of a game world and the per-type storage of their components.
//! Entity ids are handed out in increasing order and never reused; each
//! component type is kept in a sparse map from entity to value, and queries
//! list the live entities that have every component asked for.
use vstd::prelude::*;

verus! {

/// An entity's identifier.
#[derive(Debug, Clone, Copy, PartialEq, Eq, Hash, Structural)]
pub struct EntityId(pub u64);

/// The ids of `s` increase strictly from left to right.
pub open spec fn ascending(s: Seq<EntityId>) -> bool {
    forall|i: int, j: int| 0 <= i < j < s.len() ==> s[i].0 < s[j].0
}

/// Keeping some elements of a strictly increasing sequence keeps it strictly
/// increasing, and keeps nothing that was not there.
pub proof fn lemma_filter_ascending(s: Seq<EntityId>, p: spec_fn(EntityId) -> bool)
    requires
        ascending(s),
    ensures
        ascending(s.filter(p)),
        forall|k: int| 0 <= k < s.filter(p).len() ==> s.contains(#[trigger] s.filter(p)[k]),
    decreases s.len(),
{
    reveal(Seq::filter);
    if s.len() > 0 {
        let d = s.drop_last();
        assert(ascending(d));
        lemma_filter_ascending(d, p);
        assert(s.filter(p) == if p(s.last()) { d.filter(p).push(s.last()) } else { d.filter(p) });
        assert forall|k: int| 0 <= k < d.filter(p).len() implies (#[trigger] d.filter(p)[k]).0 < s.last().0 by {
            let x = d.filter(p)[k];
            assert(d.contains(x));
            let j = choose|j: int| 0 <= j < d.len() && d[j] == x;
            assert(s[j] == x);
        }
        assert forall|k: int| 0 <= k < d.filter(p).len() implies s.contains(#[trigger] d.filter(p)[k]) by {
            let x = d.filter(p)[k];
            assert(d.contains(x));
            let j = choose|j: int| 0 <= j < d.len() && d[j] == x;
            assert(s[j] == x);
        }
        if p(s.last()) {
            assert(s.contains(s.last())) by {
                assert(s[s.len() - 1] == s.last());
            }
        }
    }
}

/// Whether an entity is not `entity`.
pub open spec fn other_than(entity: EntityId) -> spec_fn(EntityId) -> bool {
    |e: EntityId| e != entity
}

/// Hands out entity ids and keeps the live ones in order of creation.
#[derive(Debug)]
pub struct EntityAllocator {
    next_id: u64,
    alive: Vec<EntityId>,
}

impl EntityAllocator {
    /// The id the next allocation gives.
    pub closed spec fn next(&self) -> u64 {
        self.next_id
    }

    /// The live ids, oldest first.
    pub closed spec fn live(&self) -> Seq<EntityId> {
        self.alive@
    }

    /// The live ids increase, and all are below the next id.
    pub open spec fn wf(&self) -> bool {
        &&& ascending(self.live())
        &&& forall|i: int| 0 <= i < self.live().len() ==> (#[trigger] self.live()[i]).0 < self.next()
    }

    pub fn new() -> (r: Self)
        ensures
            r.wf(),
            r.next() == 0,
            r.live() == Seq::<EntityId>::empty(),
    {
        EntityAllocator { next_id: 0, alive: Vec::new() }
    }

    /// A fresh id, now live.
    pub fn allocate(&mut self) -> (id: EntityId)
        requires
            old(self).wf(),
            old(self).next() < u64::MAX,
        ensures
            final(self).wf(),
            id.0 == old(self).next(),
            !old(self).live().contains(id),
            final(self).next() == old(self).next() + 1,
            final(self).live() == old(self).live().push(id),
    {
        let id = EntityId(self.next_id);
        proof {
            if self.alive@.contains(id) {
                let j = choose|j: int| 0 <= j < self.alive@.len() && self.alive@[j] == id;
                assert(self.live()[j].0 < self.next());
            }
        }
        self.next_id = self.next_id + 1;
        self.alive.push(id);
        id
    }

    /// `entity` is no longer live.
    pub fn deallocate(&mut self, entity: EntityId)
        requires
            old(self).wf(),
        ensures
            final(self).wf(),
            final(self).next() == old(self).next(),
            final(self).live() == old(self).live().filter(other_than(entity)),
    {
        let ghost p = other_than(entity);
        let mut kept: Vec<EntityId> = Vec::new();
        let mut i: usize = 0;
        while i < self.alive.len()
            invariant
                0 <= i <= self.alive@.len(),
                p == other_than(entity),
                kept@ == self.alive@.take(i as int).filter(p),
            decreases self.alive@.len() - i,
        {
            proof {
                reveal(Seq::filter);
                assert(self.alive@.take(i + 1).drop_last() == self.alive@.take(i as int));
            }
            let e = self.alive[i];
            if e != entity {
                kept.push(e);
            }
            i = i + 1;
        }
        proof {
            assert(self.alive@.take(i as int) == self.alive@);
            lemma_filter_ascending(self.alive@, p);
            assert forall|k: int| 0 <= k < kept@.len() implies (#[trigger] kept@[k]).0 < self.next_id by {
                let x = kept@[k];
                assert(self.alive@.contains(x));
                let j = choose|j: int| 0 <= j < self.alive@.len() && self.alive@[j] == x;
                assert(self.live()[j].0 < self.next());
            }
        }
        self.alive = kept;
    }

    /// Whether `entity` is live.
    pub fn is_alive(&self, entity: EntityId) -> (r: bool)
        ensures
            r == self.live().contains(entity),
    {
        let mut i: usize = 0;
        while i < self.alive.len()
            invariant
                0 <= i <= self.alive@.len(),
                forall|j: int| 0 <= j < i ==> self.alive@[j] != entity,
            decreases self.alive@.len() - i,
        {
            if self.alive[i] == entity {
                proof {
                    assert(self.live()[i as int] == entity);
                }
                return true;
            }
            i = i + 1;
        }
        false
    }

    /// The live ids, oldest first.
    pub fn all_alive(&self) -> (r: &[EntityId])
        ensures
            r@ == self.live(),
    {
        self.alive.as_slice()
    }
}


/// The map that pairs each id of `ids` with the value at the same position.
pub open spec fn map_of<C>(ids: Seq<EntityId>, values: Seq<C>) -> Map<EntityId, C> {
    Map::new(|e: EntityId| ids.contains(e), |e: EntityId| values[ids.index_of(e)])
}

/// Where ids do not repeat, the value of an id is the one at its position.
pub proof fn lemma_map_of_at<C>(ids: Seq<EntityId>, values: Seq<C>, j: int)
    requires
        ids.no_duplicates(),
        0 <= j < ids.len(),
    ensures
        map_of(ids, values).contains_key(ids[j]),
        map_of(ids, values)[ids[j]] == values[j],
{
    assert(ids.contains(ids[j]));
    let c = ids.index_of(ids[j]);
    assert(0 <= c < ids.len() && ids[c] == ids[j]);
}

/// The components of one type, each attached to one entity.
#[derive(Debug)]
pub struct ComponentMap<C> {
    ids: Vec<EntityId>,
    values: Vec<C>,
}

impl<C> View for ComponentMap<C> {
    type V = Map<EntityId, C>;

    closed spec fn view(&self) -> Map<EntityId, C> {
        map_of(self.ids@, self.values@)
    }
}

impl<C> ComponentMap<C> {
    /// One value per id, and no id twice.
    pub closed spec fn wf(&self) -> bool {
        &&& self.ids@.len() == self.values@.len()
        &&& self.ids@.no_duplicates()
    }

    pub fn new() -> (r: Self)
        ensures
            r.wf(),
            r@ == Map::<EntityId, C>::empty(),
    {
        let r = ComponentMap { ids: Vec::new(), values: Vec::new() };
        proof {
            assert(r@ =~= Map::<EntityId, C>::empty());
        }
        r
    }

    /// The position of `entity`'s value, if it has one.
    fn find(&self, entity: EntityId) -> (r: Option<usize>)
        requires
            self.wf(),
        ensures
            r matches Some(i) ==> i < self.ids@.len() && self.ids@[i as int] == entity,
            r is None ==> !self.ids@.contains(entity),
    {
        let mut i: usize = 0;
        while i < self.ids.len()
            invariant
                0 <= i <= self.ids@.len(),
                forall|j: int| 0 <= j < i ==> self.ids@[j] != entity,
            decreases self.ids@.len() - i,
        {
            if self.ids[i] == entity {
                return Some(i);
            }
            i = i + 1;
        }
        None
    }

    /// Attaches `component` to `entity`, replacing what it had of this type.
    pub fn insert(&mut self, entity: EntityId, component: C)
        requires
            old(self).wf(),
        ensures
            final(self).wf(),
            final(self)@ == old(self)@.insert(entity, component),
    {
        let ghost ids0 = self.ids@;
        let ghost vals0 = self.values@;
        match self.find(entity) {
            Some(i) => {
                self.values.set(i, component);
                proof {
                    let m = map_of(ids0, self.values@);
                    let o = map_of(ids0, vals0).insert(entity, component);
                    assert forall|k: EntityId| #[trigger] m.contains_key(k) == o.contains_key(k) by {
                        if k == entity {
                            lemma_map_of_at(ids0, self.values@, i as int);
                        } else if ids0.contains(k) {
                            let j = choose|j: int| 0 <= j < ids0.len() && ids0[j] == k;
                            lemma_map_of_at(ids0, vals0, j);
                        }
                    }
                    assert forall|k: EntityId| #[trigger] m.contains_key(k) implies m[k] == o[k] by {
                        let j = choose|j: int| 0 <= j < ids0.len() && ids0[j] == k;
                        lemma_map_of_at(ids0, self.values@, j);
                        lemma_map_of_at(ids0, vals0, j);
                    }
                    assert(m =~= o);
                }
            },
            None => {
                self.ids.push(entity);
                self.values.push(component);
                proof {
                    let ids1 = self.ids@;
                    assert(ids1.no_duplicates()) by {
                        assert forall|a: int, b: int| 0 <= a < ids1.len() && 0 <= b < ids1.len() && a != b
                            implies ids1[a] != ids1[b] by {
                            if a == ids0.len() as int {
                                assert(ids0[b] != entity);
                            } else if b == ids0.len() as int {
                                assert(ids0[a] != entity);
                            }
                        }
                    }
                    let m = map_of(ids1, self.values@);
                    let o = map_of(ids0, vals0).insert(entity, component);
                    lemma_map_of_at(ids1, self.values@, ids0.len() as int);
                    assert forall|k: EntityId| #[trigger] m.contains_key(k) == o.contains_key(k) by {
                        if k != entity && ids1.contains(k) {
                            let j = choose|j: int| 0 <= j < ids1.len() && ids1[j] == k;
                            assert(ids0[j] == k);
                        }
                        if k != entity && ids0.contains(k) {
                            let j = choose|j: int| 0 <= j < ids0.len() && ids0[j] == k;
                            assert(ids1[j] == k);
                        }
                    }
                    assert forall|k: EntityId| #[trigger] m.contains_key(k) implies m[k] == o[k] by {
                        if k != entity {
                            let j = choose|j: int| 0 <= j < ids1.len() && ids1[j] == k;
                            assert(ids0[j] == k);
                            lemma_map_of_at(ids1, self.values@, j);
                            lemma_map_of_at(ids0, vals0, j);
                        }
                    }
                    assert(m =~= o);
                }
            },
        }
    }

    /// Detaches the component of this type from `entity`, if it has one.
    pub fn remove(&mut self, entity: EntityId)
        requires
            old(self).wf(),
        ensures
            final(self).wf(),
            final(self)@ == old(self)@.remove(entity),
    {
        let ghost ids0 = self.ids@;
        let ghost vals0 = self.values@;
        match self.find(entity) {
            Some(i) => {
                self.ids.remove(i);
                self.values.remove(i);
                proof {
                    let ids1 = self.ids@;
                    let vals1 = self.values@;
                    ids0.remove_ensures(i as int);
                    vals0.remove_ensures(i as int);
                    assert(ids1.no_duplicates()) by {
                        assert forall|a: int, b: int| 0 <= a < ids1.len() && 0 <= b < ids1.len() && a != b
                            implies ids1[a] != ids1[b] by {
                            let a0 = if a < i { a } else { a + 1 };
                            let b0 = if b < i { b } else { b + 1 };
                            assert(ids1[a] == ids0[a0] && ids1[b] == ids0[b0]);
                        }
                    }
                    let m = map_of(ids1, vals1);
                    let o = map_of(ids0, vals0).remove(entity);
                    assert forall|k: EntityId| #[trigger] m.contains_key(k) == o.contains_key(k) by {
                        if ids1.contains(k) {
                            let j = choose|j: int| 0 <= j < ids1.len() && ids1[j] == k;
                            let j0 = if j < i { j } else { j + 1 };
                            assert(ids0[j0] == k);
                            assert(ids0[i as int] == entity);
                        }
                        if k != entity && ids0.contains(k) {
                            let j = choose|j: int| 0 <= j < ids0.len() && ids0[j] == k;
                            assert(j != i);
                            let j1 = if j < i { j } else { j - 1 };
                            assert(ids1[j1] == k);
                        }
                    }
                    assert forall|k: EntityId| #[trigger] m.contains_key(k) implies m[k] == o[k] by {
                        let j = choose|j: int| 0 <= j < ids1.len() && ids1[j] == k;
                        let j0 = if j < i { j } else { j + 1 };
                        assert(ids0[j0] == k);
                        lemma_map_of_at(ids1, vals1, j);
                        lemma_map_of_at(ids0, vals0, j0);
                    }
                    assert(m =~= o);
                }
            },
            None => {
                proof {
                    assert(self@ =~= map_of(ids0, vals0).remove(entity));
                }
            },
        }
    }

    /// The component of `entity`, if it has one of this type.
    pub fn get(&self, entity: EntityId) -> (r: Option<&C>)
        requires
            self.wf(),
        ensures
            r matches Some(x) ==> self@.contains_key(entity) && *x == self@[entity],
            r is None ==> !self@.contains_key(entity),
    {
        match self.find(entity) {
            Some(i) => {
                proof {
                    lemma_map_of_at(self.ids@, self.values@, i as int);
                }
                Some(&self.values[i])
            },
            None => None,
        }
    }

    /// The component of `entity` to change in place, if it has one of this type.
    pub fn get_mut(&mut self, entity: EntityId) -> (r: Option<&mut C>)
        requires
            old(self).wf(),
        ensures
            r is Some == old(self)@.contains_key(entity),
            r is None ==> *final(self) == *old(self),
            r matches Some(x) ==> *x == old(self)@[entity] && final(self).wf()
                && final(self)@ == old(self)@.insert(entity, *final(x)),
    {
        match self.find(entity) {
            Some(i) => {
                proof {
                    lemma_map_of_at(self.ids@, self.values@, i as int);
                }
                Some(&mut self.values[i])
            },
            None => None,
        }
    }

    /// Whether `entity` has a component of this type.
    pub fn has(&self, entity: EntityId) -> (r: bool)
        requires
            self.wf(),
        ensures
            r == self@.contains_key(entity),
    {
        self.find(entity).is_some()
    }
}

/// Whether an entity has a component in both maps.
pub open spec fn in_both<A, B>(a: Map<EntityId, A>, b: Map<EntityId, B>) -> spec_fn(EntityId) -> bool {
    |e: EntityId| a.contains_key(e) && b.contains_key(e)
}

/// Whether an entity has a component in all three maps.
pub open spec fn in_all<A, B, C>(a: Map<EntityId, A>, b: Map<EntityId, B>, c: Map<EntityId, C>) -> spec_fn(
    EntityId,
) -> bool {
    |e: EntityId| a.contains_key(e) && b.contains_key(e) && c.contains_key(e)
}

/// The live entities of a game. Their components are kept per type, in one
/// `ComponentMap` for each type, by whoever owns the world.
#[derive(Debug)]
pub struct World {
    entities: EntityAllocator,
}

impl World {
    /// The live entities, oldest first.
    pub closed spec fn live(&self) -> Seq<EntityId> {
        self.entities.live()
    }

    /// The id the next spawn gives.
    pub closed spec fn next(&self) -> u64 {
        self.entities.next()
    }

    pub closed spec fn wf(&self) -> bool {
        self.entities.wf()
    }

    /// The live entities increase strictly, oldest first, so none is listed
    /// twice; and all are below the id the next spawn gives, which only grows,
    /// so no spawn gives an id given before.
    pub proof fn lemma_live_ids(&self)
        requires
            self.wf(),
        ensures
            ascending(self.live()),
            forall|i: int, j: int| 0 <= i < j < self.live().len() ==> self.live()[i] != self.live()[j],
            forall|i: int| 0 <= i < self.live().len() ==> (#[trigger] self.live()[i]).0 < self.next(),
    {
    }

    pub fn new() -> (r: Self)
        ensures
            r.wf(),
            r.next() == 0,
            r.live() == Seq::<EntityId>::empty(),
    {
        World { entities: EntityAllocator::new() }
    }

    /// Whether another entity can be spawned: ids are not exhausted.
    pub fn can_spawn(&self) -> (r: bool)
        ensures
            r == (self.next() < u64::MAX),
    {
        self.entities.next_id < u64::MAX
    }

    /// A new live entity, with an id never given before.
    pub fn spawn(&mut self) -> (id: EntityId)
        requires
            old(self).wf(),
            old(self).next() < u64::MAX,
        ensures
            final(self).wf(),
            id.0 == old(self).next(),
            !old(self).live().contains(id),
            final(self).next() == old(self).next() + 1,
            final(self).live() == old(self).live().push(id),
    {
        self.entities.allocate()
    }

    /// `entity` is no longer live; the others stay in their order.
    pub fn despawn(&mut self, entity: EntityId)
        requires
            old(self).wf(),
        ensures
            final(self).wf(),
            final(self).next() == old(self).next(),
            final(self).live() == old(self).live().filter(other_than(entity)),
            !final(self).live().contains(entity),
    {
        self.entities.deallocate(entity);
        proof {
            let p = other_than(entity);
            assert forall|k: int| 0 <= k < self.live().len() implies #[trigger] self.live()[k] != entity by {
                broadcast use Seq::lemma_filter_pred;
                assert(p(self.live()[k]));
            }
        }
    }

    /// Whether `entity` is live.
    pub fn is_alive(&self, entity: EntityId) -> (r: bool)
        ensures
            r == self.live().contains(entity),
    {
        self.entities.is_alive(entity)
    }

    /// The live entities, oldest first.
    pub fn entities(&self) -> (r: Vec<EntityId>)
        ensures
            r@ == self.live(),
    {
        let s = self.entities.all_alive();
        let mut r: Vec<EntityId> = Vec::new();
        let mut i: usize = 0;
        while i < s.len()
            invariant
                0 <= i <= s@.len(),
                r@ == s@.take(i as int),
            decreases s@.len() - i,
        {
            r.push(s[i]);
            proof {
                assert(s@.take(i + 1) == s@.take(i as int).push(s@[i as int]));
            }
            i = i + 1;
        }
        proof {
            assert(s@.take(i as int) == s@);
        }
        r
    }

    /// The live entities that have a component in `a` and one in `b`, oldest first.
    pub fn query_2<A, B>(&self, a: &ComponentMap<A>, b: &ComponentMap<B>) -> (r: Vec<EntityId>)
        requires
            a.wf(),
            b.wf(),
        ensures
            r@ == self.live().filter(in_both(a@, b@)),
    {
        let s = self.entities.all_alive();
        let ghost p = in_both(a@, b@);
        let mut r: Vec<EntityId> = Vec::new();
        let mut i: usize = 0;
        while i < s.len()
            invariant
                0 <= i <= s@.len(),
                a.wf(),
                b.wf(),
                p == in_both(a@, b@),
                r@ == s@.take(i as int).filter(p),
            decreases s@.len() - i,
        {
            proof {
                reveal(Seq::filter);
                assert(s@.take(i + 1).drop_last() == s@.take(i as int));
            }
            let e = s[i];
            if a.has(e) && b.has(e) {
                r.push(e);
            }
            i = i + 1;
        }
        proof {
            assert(s@.take(i as int) == s@);
        }
        r
    }

    /// The live entities that have a component in each of `a`, `b` and `c`, oldest first.
    pub fn query_3<A, B, C>(&self, a: &ComponentMap<A>, b: &ComponentMap<B>, c: &ComponentMap<C>) -> (r: Vec<
        EntityId,
    >)
        requires
            a.wf(),
            b.wf(),
            c.wf(),
        ensures
            r@ == self.live().filter(in_all(a@, b@, c@)),
    {
        let s = self.entities.all_alive();
        let ghost p = in_all(a@, b@, c@);
        let mut r: Vec<EntityId> = Vec::new();
        let mut i: usize = 0;
        while i < s.len()
            invariant
                0 <= i <= s@.len(),
                a.wf(),
                b.wf(),
                c.wf(),
                p == in_all(a@, b@, c@),
                r@ == s@.take(i as int).filter(p),
            decreases s@.len() - i,
        {
            proof {
                reveal(Seq::filter);
                assert(s@.take(i + 1).drop_last() == s@.take(i as int));
            }
            let e = s[i];
            if a.has(e) && b.has(e) && c.has(e) {
                r.push(e);
            }
            i = i + 1;
        }
        proof {
            assert(s@.take(i as int) == s@);
        }
        r
    }
}
} // verus!
