//! Entity handles made of a slot index and a generation. A slot freed by
//! despawning is reused by a later spawn, with its generation raised, so a
//! handle kept from before the despawn is recognised as stale.
use vstd::prelude::*;

verus! {

/// A handle to an entity: its slot and the generation of that slot when it
/// was spawned.
#[derive(Debug, Clone, Copy, PartialEq, Eq, Hash, Structural)]
pub struct Entity {
    pub id: usize,
    pub generation: u32,
}

/// The slots of the entities: each slot's generation, whether it is live, and
/// the free slots in the order they were freed.
#[derive(Debug)]
pub struct World {
    generations: Vec<u32>,
    alive: Vec<bool>,
    free_list: Vec<usize>,
}

/// The live handles among the first `n` slots, by slot.
pub open spec fn live_handles(gens: Seq<u32>, flags: Seq<bool>, n: int) -> Seq<Entity>
    decreases n,
{
    if n <= 0 {
        Seq::empty()
    } else if flags[n - 1] {
        live_handles(gens, flags, n - 1).push(Entity { id: (n - 1) as usize, generation: gens[n - 1] })
    } else {
        live_handles(gens, flags, n - 1)
    }
}

impl World {
    /// The generation of each slot.
    pub closed spec fn gens(&self) -> Seq<u32> {
        self.generations@
    }

    /// Whether each slot is live.
    pub closed spec fn flags(&self) -> Seq<bool> {
        self.alive@
    }

    /// The free slots, the next to be reused last.
    pub closed spec fn free(&self) -> Seq<usize> {
        self.free_list@
    }

    /// One generation and one flag per slot; the free slots are exactly the
    /// dead ones, each listed once.
    pub open spec fn wf(&self) -> bool {
        &&& self.gens().len() == self.flags().len()
        &&& self.free().no_duplicates()
        &&& forall|k: int| 0 <= k < self.free().len() ==> #[trigger] self.free()[k] < self.flags().len()
        &&& forall|i: int| 0 <= i < self.flags().len() ==> (!#[trigger] self.flags()[i] <==> self.free().contains(
            i as usize,
        ))
    }

    /// `h` names a live entity: its slot is live and still of its generation.
    pub open spec fn holds(&self, h: Entity) -> bool {
        &&& h.id < self.flags().len()
        &&& self.flags()[h.id as int]
        &&& self.gens()[h.id as int] == h.generation
    }

    /// `h` names an entity that was despawned: its slot has moved on to a
    /// later generation.
    pub open spec fn stale(&self, h: Entity) -> bool {
        h.id < self.gens().len() && h.generation < self.gens()[h.id as int]
    }

    /// No generation went down and no slot went away.
    pub open spec fn grows_from(&self, old: World) -> bool {
        &&& old.gens().len() <= self.gens().len()
        &&& forall|i: int| 0 <= i < old.gens().len() ==> old.gens()[i] <= #[trigger] self.gens()[i]
    }

    pub fn new() -> (r: Self)
        ensures
            r.wf(),
            r.gens() == Seq::<u32>::empty(),
            r.flags() == Seq::<bool>::empty(),
            r.free() == Seq::<usize>::empty(),
    {
        World { generations: Vec::new(), alive: Vec::new(), free_list: Vec::new() }
    }

    /// A handle to a new live entity: in the most recently freed slot, at
    /// that slot's generation, or else in a new slot at generation zero.
    pub fn spawn(&mut self) -> (r: Entity)
        requires
            old(self).wf(),
        ensures
            final(self).wf(),
            final(self).grows_from(*old(self)),
            final(self).holds(r),
            !old(self).holds(r),
            old(self).free().len() > 0 ==> r.id == old(self).free().last() && r.generation == old(self).gens()[r.id as int]
                && final(self).free() == old(self).free().drop_last() && final(self).gens() == old(self).gens(),
            old(self).free().len() == 0 ==> r.id == old(self).gens().len() && r.generation == 0
                && final(self).free() == old(self).free(),
            forall|h: Entity| h.id != r.id ==> (final(self).holds(h) == old(self).holds(h)),
            forall|h: Entity| old(self).stale(h) ==> #[trigger] final(self).stale(h),
    {
        match self.free_list.pop() {
            Some(id) => {
                proof {
                    assert(old(self).free()[old(self).free().len() - 1] == id);
                    assert(!old(self).flags()[id as int]);
                }
                self.alive.set(id, true);
                let r = Entity { id, generation: self.generations[id] };
                proof {
                    let f0 = old(self).free();
                    let f1 = self.free();
                    assert(f1 == f0.drop_last());
                    assert forall|i: int| 0 <= i < self.flags().len() implies (!#[trigger] self.flags()[i]
                        <==> f1.contains(i as usize)) by {
                        if i == id as int {
                            if f1.contains(i as usize) {
                                let k = choose|k: int| 0 <= k < f1.len() && f1[k] == i as usize;
                                assert(f0[k] == f0[f0.len() - 1]);
                            }
                        } else {
                            if f0.contains(i as usize) {
                                let k = choose|k: int| 0 <= k < f0.len() && f0[k] == i as usize;
                                assert(f0[f0.len() - 1] == id);
                                assert(self.alive.len() == self.alive@.len());
                                assert((i as usize) as int == i);
                                assert(k != f0.len() - 1);
                                assert(f1[k] == i as usize);
                            }
                            if f1.contains(i as usize) {
                                let k = choose|k: int| 0 <= k < f1.len() && f1[k] == i as usize;
                                assert(f0[k] == i as usize);
                            }
                        }
                    }
                }
                r
            },
            None => {
                let id = self.generations.len();
                self.generations.push(0);
                self.alive.push(true);
                let r = Entity { id, generation: 0 };
                proof {
                    let f0 = self.free();
                    assert forall|i: int| 0 <= i < self.flags().len() implies (!#[trigger] self.flags()[i]
                        <==> f0.contains(i as usize)) by {
                        if i < id as int {
                            assert(self.flags()[i] == old(self).flags()[i]);
                        } else {
                            if f0.contains(i as usize) {
                                let k = choose|k: int| 0 <= k < f0.len() && f0[k] == i as usize;
                                assert(f0[k] < old(self).flags().len());
                            }
                        }
                    }
                }
                r
            },
        }
    }

    /// Despawns the entity of a live handle: its slot is freed and moves on
    /// to the next generation, so the handle is stale from then on. A handle
    /// that is not live changes nothing.
    pub fn despawn(&mut self, entity: Entity)
        requires
            old(self).wf(),
            old(self).holds(entity) ==> entity.generation < u32::MAX,
        ensures
            final(self).wf(),
            final(self).grows_from(*old(self)),
            !old(self).holds(entity) ==> *final(self) == *old(self),
            old(self).holds(entity) ==> {
                &&& final(self).gens() == old(self).gens().update(entity.id as int, (entity.generation + 1) as u32)
                &&& final(self).flags() == old(self).flags().update(entity.id as int, false)
                &&& final(self).free() == old(self).free().push(entity.id)
            },
            !final(self).holds(entity),
            old(self).holds(entity) ==> final(self).stale(entity),
            forall|h: Entity| h.id != entity.id ==> (final(self).holds(h) == old(self).holds(h)),
            forall|h: Entity| old(self).stale(h) ==> #[trigger] final(self).stale(h),
    {
        if !self.is_alive(entity) {
            return;
        }
        let id = entity.id;
        self.alive.set(id, false);
        let g = self.generations[id];
        self.generations.set(id, g + 1);
        self.free_list.push(id);
        proof {
            let f0 = old(self).free();
            let f1 = self.free();
            assert(!f0.contains(id)) by {
                if f0.contains(id) {
                    assert(!old(self).flags()[id as int]);
                }
            }
            assert(f1.no_duplicates()) by {
                assert forall|a: int, b: int| 0 <= a < f1.len() && 0 <= b < f1.len() && a != b implies f1[a]
                    != f1[b] by {
                    if a == f0.len() as int {
                        assert(f0[b] != id);
                    } else if b == f0.len() as int {
                        assert(f0[a] != id);
                    }
                }
            }
            assert forall|i: int| 0 <= i < self.flags().len() implies (!#[trigger] self.flags()[i] <==> f1.contains(
                i as usize,
            )) by {
                if i == id as int {
                    assert(f1[f1.len() - 1] == id);
                } else {
                    if f0.contains(i as usize) {
                        let k = choose|k: int| 0 <= k < f0.len() && f0[k] == i as usize;
                        assert(f1[k] == i as usize);
                    }
                    if f1.contains(i as usize) {
                        let k = choose|k: int| 0 <= k < f1.len() && f1[k] == i as usize;
                        assert(self.alive.len() == self.alive@.len());
                        assert((i as usize) as int == i);
                        assert(k != f0.len() as int);
                        assert(f0[k] == i as usize);
                    }
                }
            }
        }
    }

    /// Whether `entity` names a live entity.
    pub fn is_alive(&self, entity: Entity) -> (r: bool)
        requires
            self.wf(),
        ensures
            r == self.holds(entity),
    {
        entity.id < self.alive.len() && self.alive[entity.id] && self.generations[entity.id] == entity.generation
    }

    /// The handles of the live entities, by slot.
    pub fn entities(&self) -> (r: Vec<Entity>)
        requires
            self.wf(),
        ensures
            r@ == live_handles(self.gens(), self.flags(), self.flags().len() as int),
    {
        let mut r: Vec<Entity> = Vec::new();
        let mut i: usize = 0;
        while i < self.alive.len()
            invariant
                self.wf(),
                0 <= i <= self.flags().len(),
                r@ == live_handles(self.gens(), self.flags(), i as int),
            decreases self.flags().len() - i,
        {
            if self.alive[i] {
                r.push(Entity { id: i, generation: self.generations[i] });
            }
            i = i + 1;
        }
        r
    }
}

/// A stale handle names no live entity.
pub proof fn lemma_stale_not_live(w: World, h: Entity)
    requires
        w.stale(h),
    ensures
        !w.holds(h),
{
}

} // verus!
