//! The entity registry: allocates and recycles slot indices, tagging each
//! slot with a generation counter so that handles to deleted entities are
//! detected and ignored instead of touching a recycled entity.

use vstd::prelude::*;

verus! {

/// An opaque entity handle: a slot index plus the generation the slot had
/// when the handle was issued.
#[derive(Clone, Copy, Debug, PartialEq, Eq, Structural)]
pub struct EntityHandle {
    pub slot: usize,
    pub gen: u64,
}

/// Slot table: `gens[s]` is the generation a live occupant of slot `s`
/// carries (or the next occupant will carry, while the slot is free), and
/// `alive[s]` says whether the slot is occupied.
pub struct Registry {
    pub gens: Vec<u64>,
    pub alive: Vec<bool>,
}

/// The two slot vectors always have the same length.
pub open spec fn reg_wf(gens: Seq<u64>, alive: Seq<bool>) -> bool {
    gens.len() == alive.len()
}

/// A handle is live when its slot is occupied and the generations match.
pub open spec fn live_spec(gens: Seq<u64>, alive: Seq<bool>, h: EntityHandle) -> bool {
    &&& h.slot < gens.len()
    &&& alive[h.slot as int]
    &&& gens[h.slot as int] == h.gen
}

/// A slot may be recycled when it is free and its generation can still be
/// bumped on the next free; a slot whose generation has reached the maximum
/// is never reused, so stale handles to it stay stale.
pub open spec fn reusable_spec(gens: Seq<u64>, alive: Seq<bool>, s: int) -> bool {
    &&& 0 <= s < gens.len()
    &&& !alive[s]
    &&& gens[s] < u64::MAX
}

impl Registry {
    /// An empty registry with no slots.
    pub fn new() -> (r: Registry)
        ensures
            r.gens@.len() == 0,
            r.alive@.len() == 0,
    {
        Registry { gens: Vec::new(), alive: Vec::new() }
    }

    /// Number of slots ever allocated.
    pub fn num_slots(&self) -> (n: usize)
        requires
            reg_wf(self.gens@, self.alive@),
        ensures
            n == self.gens@.len(),
    {
        self.gens.len()
    }

    /// Generation comparison in O(1): is this handle still the current
    /// occupant of its slot?
    pub fn is_live(&self, h: EntityHandle) -> (r: bool)
        requires
            reg_wf(self.gens@, self.alive@),
        ensures
            r == live_spec(self.gens@, self.alive@, h),
    {
        h.slot < self.gens.len() && self.alive[h.slot] && self.gens[h.slot] == h.gen
    }

    /// Returns a fresh or recycled handle: the lowest recyclable slot if one
    /// exists, else a brand-new slot with generation 0. The slot is marked
    /// occupied at once; the handle's components arrive later, through the
    /// deferred queue.
    pub fn allocate(&mut self) -> (h: EntityHandle)
        requires
            reg_wf(old(self).gens@, old(self).alive@),
        ensures
            reg_wf(final(self).gens@, final(self).alive@),
            live_spec(final(self).gens@, final(self).alive@, h),
            if exists|s: int| reusable_spec(old(self).gens@, old(self).alive@, s) {
                &&& reusable_spec(old(self).gens@, old(self).alive@, h.slot as int)
                &&& forall|s: int|
                    0 <= s < h.slot ==> !reusable_spec(old(self).gens@, old(self).alive@, s)
                &&& h.gen == old(self).gens@[h.slot as int]
                &&& final(self).gens@ == old(self).gens@
                &&& final(self).alive@ == old(self).alive@.update(h.slot as int, true)
            } else {
                &&& h.slot == old(self).gens@.len()
                &&& h.gen == 0
                &&& final(self).gens@ == old(self).gens@.push(0)
                &&& final(self).alive@ == old(self).alive@.push(true)
            },
    {
        let n = self.gens.len();
        let mut s: usize = 0;
        while s < n
            invariant
                self.gens@ == old(self).gens@,
                self.alive@ == old(self).alive@,
                n == self.gens@.len(),
                reg_wf(self.gens@, self.alive@),
                s <= n,
                forall|j: int| 0 <= j < s ==> !reusable_spec(self.gens@, self.alive@, j),
            decreases n - s,
        {
            if !self.alive[s] && self.gens[s] < u64::MAX {
                let gen = self.gens[s];
                assert(reusable_spec(old(self).gens@, old(self).alive@, s as int));
                self.alive.set(s, true);
                assert(exists|j: int| reusable_spec(old(self).gens@, old(self).alive@, j));
                return EntityHandle { slot: s, gen };
            }
            s += 1;
        }
        assert(forall|j: int| !reusable_spec(self.gens@, self.alive@, j));
        let gen: u64 = 0;
        self.gens.push(0);
        self.alive.push(true);
        EntityHandle { slot: n, gen }
    }

    /// Frees the handle's slot. A stale handle (generation mismatch) is a
    /// silent no-op, which is what makes repeated deletion requests for the
    /// same handle idempotent. On a real free the generation is bumped, so
    /// every outstanding handle to the slot goes stale at once.
    pub fn free(&mut self, h: EntityHandle)
        requires
            reg_wf(old(self).gens@, old(self).alive@),
        ensures
            reg_wf(final(self).gens@, final(self).alive@),
            if live_spec(old(self).gens@, old(self).alive@, h) {
                &&& final(self).alive@ == old(self).alive@.update(h.slot as int, false)
                &&& final(self).gens@ == old(self).gens@.update(
                    h.slot as int,
                    if h.gen < u64::MAX {
                        (h.gen + 1) as u64
                    } else {
                        h.gen
                    },
                )
            } else {
                &&& final(self).gens@ == old(self).gens@
                &&& final(self).alive@ == old(self).alive@
            },
            !live_spec(final(self).gens@, final(self).alive@, h),
    {
        if h.slot < self.gens.len() && self.alive[h.slot] && self.gens[h.slot] == h.gen {
            self.alive.set(h.slot, false);
            if h.gen < u64::MAX {
                self.gens.set(h.slot, h.gen + 1);
            } else {
                self.gens.set(h.slot, h.gen);
            }
        }
    }
}

} // verus!
