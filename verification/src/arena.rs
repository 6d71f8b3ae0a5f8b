//! A growable arena of entity slots with generation-checked handles.
//!
//! The arena issues `Handle`s that pair a slot index with the slot's
//! generation counter. Removing an entity bumps the slot's generation, so
//! every outstanding handle to it becomes stale: a stale handle never silently
//! aliases a reused slot, and every lookup through one fails explicitly.
//! Insertion hands the new handle to a builder closure before the entity is
//! stored, so an entity can embed its own identity in its own state.

use vstd::prelude::*;

verus! {

/// A generation-checked reference to an arena slot.
///
/// Two handles are equal iff both the slot index and the generation match.
/// A handle whose generation no longer matches the slot's current generation
/// is stale; the arena refuses it.
#[derive(Clone, Copy, Debug, PartialEq, Eq, PartialOrd, Ord, Hash, Structural)]
pub struct Handle {
    pub index: usize,
    pub generation: u64,
}

impl Handle {
    /// Splits the handle into its raw `(slot, generation)` pair, so it can be
    /// stored as opaque data across type-erased boundaries.
    pub fn into_raw_parts(self) -> (r: (usize, u64))
        ensures
            r.0 == self.index,
            r.1 == self.generation,
    {
        (self.index, self.generation)
    }

    /// Rebuilds a handle from its raw parts. The arena performs no check that
    /// the parts came from one of its own handles: reconstructing a handle for
    /// the wrong arena is the caller's responsibility.
    pub fn from_raw_parts(parts: (usize, u64)) -> (r: Handle)
        ensures
            r.index == parts.0,
            r.generation == parts.1,
    {
        Handle { index: parts.0, generation: parts.1 }
    }
}

struct Slot<T> {
    generation: u64,
    payload: Option<T>,
}

/// The entity table: a growable vector of slots plus a free list of vacant
/// slot indices available for reuse.
pub struct Arena<T> {
    slots: Vec<Slot<T>>,
    free: Vec<usize>,
}

impl<T> Arena<T> {
    /// Internal consistency: free-list entries are in range, vacant, and
    /// pairwise distinct, and every generation counter is positive.
    pub closed spec fn wf(self) -> bool {
        &&& forall|k: int|
            0 <= k < self.free@.len() ==> (#[trigger] self.free@[k]) < self.slots@.len()
                && self.slots@[self.free@[k] as int].payload is None
        &&& forall|k1: int, k2: int|
            0 <= k1 < k2 < self.free@.len() ==> self.free@[k1] != self.free@[k2]
        &&& forall|i: int|
            0 <= i < self.slots@.len() ==> (#[trigger] self.slots@[i].generation) >= 1
    }

    /// The number of slots the arena has ever allocated.
    pub closed spec fn slot_count(self) -> nat {
        self.slots@.len()
    }

    /// The current generation of slot `i`.
    pub closed spec fn gen_of(self, i: int) -> u64 {
        self.slots@[i].generation
    }

    /// A handle is valid iff it points at an occupied slot whose current
    /// generation matches the handle's.
    pub closed spec fn valid(self, h: Handle) -> bool {
        &&& h.index < self.slots@.len()
        &&& self.slots@[h.index as int].generation == h.generation
        &&& self.slots@[h.index as int].payload is Some
    }

    /// The entity a valid handle refers to.
    pub closed spec fn at(self, h: Handle) -> T {
        self.slots@[h.index as int].payload.unwrap()
    }

    /// The arena as a map from valid handles to entities.
    pub open spec fn contents(self) -> Map<Handle, T> {
        Map::new(|h: Handle| self.valid(h), |h: Handle| self.at(h))
    }

    /// The handle the next insertion will issue: the top of the free list at
    /// its current generation, or a brand-new slot at generation 1.
    pub closed spec fn next_handle(self) -> Handle {
        if self.free@.len() > 0 {
            Handle {
                index: self.free@.last(),
                generation: self.slots@[self.free@.last() as int].generation,
            }
        } else {
            Handle { index: self.slots@.len() as usize, generation: 1 }
        }
    }

    /// A handle is retired once its slot has moved past it: either the
    /// generation was bumped by a removal, or the slot reached the final
    /// generation and was withdrawn from reuse. A retired handle is never
    /// valid and is never issued again.
    pub closed spec fn retired(self, h: Handle) -> bool {
        &&& h.index < self.slots@.len()
        &&& {
            ||| self.slots@[h.index as int].generation > h.generation
            ||| (self.slots@[h.index as int].generation == h.generation
                && self.slots@[h.index as int].payload is None && !self.free@.contains(
                h.index,
            ))
        }
    }

    /// A handle whose entity has been taken out by `take` and not yet put
    /// back: the slot is vacant at the handle's own generation and withheld
    /// from the free list.
    pub closed spec fn reserved(self, h: Handle) -> bool {
        &&& h.index < self.slots@.len()
        &&& self.slots@[h.index as int].generation == h.generation
        &&& self.slots@[h.index as int].payload is None
        &&& !self.free@.contains(h.index)
    }

    /// An empty arena.
    pub fn new() -> (r: Self)
        ensures
            r.wf(),
            r.slot_count() == 0,
            r.contents() == Map::<Handle, T>::empty(),
    {
        let r = Arena { slots: Vec::new(), free: Vec::new() };
        proof {
            assert(r.contents() =~= Map::<Handle, T>::empty());
        }
        r
    }

    fn slot_store(&mut self, i: usize, s: Slot<T>)
        requires
            i < old(self).slots@.len(),
        ensures
            final(self).slots@ == old(self).slots@.update(i as int, s),
            final(self).free == old(self).free,
    {
        let _discarded = self.slots.remove(i);
        self.slots.insert(i, s);
        proof {
            assert(self.slots@ =~= old(self).slots@.update(i as int, s));
        }
    }

    /// Allocates a slot, derives its handle, invokes `build` with that handle
    /// so the entity can embed its own identity, stores the entity, and
    /// yields the builder's second result.
    pub fn insert<R, F: FnOnce(Handle) -> (T, R)>(&mut self, build: F) -> (r: R)
        requires
            old(self).wf(),
            call_requires(build, (old(self).next_handle(),)),
        ensures
            final(self).wf(),
            !old(self).valid(old(self).next_handle()),
            final(self).valid(old(self).next_handle()),
            exists|entity: T|
                #[trigger] call_ensures(build, (old(self).next_handle(),), (entity, r))
                    && final(self).contents() == old(self).contents().insert(
                    old(self).next_handle(),
                    entity,
                ),
            forall|h: Handle|
                #[trigger] old(self).valid(h) ==> final(self).valid(h) && final(self).at(h) == old(self).at(h),
            forall|h: Handle| final(self).valid(h) ==> h == old(self).next_handle() || old(self).valid(h),
            forall|h: Handle| #[trigger] old(self).retired(h) ==> final(self).retired(h),
            final(self).slot_count() >= old(self).slot_count(),
            forall|i: int| 0 <= i < old(self).slot_count() ==> final(self).gen_of(i) == old(self).gen_of(i),
    {
        let ghost pre = *self;
        let reused = self.free.len() > 0;
        let h: Handle;
        if reused {
            let idx = self.free.pop().unwrap();
            let g = self.slots[idx].generation;
            h = Handle { index: idx, generation: g };
        } else {
            h = Handle { index: self.slots.len(), generation: 1 };
        }
        assert(h == pre.next_handle());
        let (entity, r) = build(h);
        if reused {
            let g = h.generation;
            self.slot_store(h.index, Slot { generation: g, payload: Some(entity) });
        } else {
            self.slots.push(Slot { generation: 1, payload: Some(entity) });
        }
        proof {
            assert forall|h2: Handle| pre.valid(h2) implies self.valid(h2) && self.at(h2) == pre.at(
                h2,
            ) by {
                if reused && h2.index == h.index {
                    assert(pre.free@.contains(pre.free@.last()));
                }
            }
            assert(self.contents() =~= pre.contents().insert(h, entity));
        }
        r
    }

    /// Deallocates the entity behind a (non-stale) handle and retires the
    /// handle: the slot's generation is bumped past it, so every outstanding
    /// copy of the handle becomes stale before the slot can be reused.
    pub fn remove(&mut self, h: Handle)
        requires
            old(self).wf(),
            old(self).valid(h),
        ensures
            final(self).wf(),
            !final(self).valid(h),
            final(self).retired(h),
            final(self).contents() == old(self).contents().remove(h),
            forall|h2: Handle| h2 != h ==> final(self).valid(h2) == old(self).valid(h2),
            forall|h2: Handle| #[trigger] final(self).valid(h2) ==> final(self).at(h2) == old(self).at(h2),
            forall|h2: Handle| #[trigger] old(self).retired(h2) ==> final(self).retired(h2),
            final(self).slot_count() == old(self).slot_count(),
            forall|i: int|
                0 <= i < final(self).slot_count() && i != h.index ==> final(self).gen_of(i) == old(self).gen_of(
                    i,
                ),
            final(self).gen_of(h.index as int) >= old(self).gen_of(h.index as int),
    {
        let ghost pre = *self;
        let g = self.slots[h.index].generation;
        if g < u64::MAX {
            self.slot_store(h.index, Slot { generation: g + 1, payload: None });
            self.free.push(h.index);
        } else {
            self.slot_store(h.index, Slot { generation: g, payload: None });
        }
        proof {
            assert forall|k: int| 0 <= k < pre.free@.len() implies pre.free@[k] != h.index by {
                assert(pre.slots@[pre.free@[k] as int].payload is None);
            }
            assert(self.contents() =~= pre.contents().remove(h));
        }
    }

    /// True iff the handle is currently valid; the explicit staleness test.
    pub fn contains(&self, h: Handle) -> (r: bool)
        requires
            self.wf(),
        ensures
            r == self.valid(h),
    {
        h.index < self.slots.len() && self.slots[h.index].generation == h.generation
            && self.slots[h.index].payload.is_some()
    }

    /// Looks an entity up, failing explicitly (with `None`) on a stale
    /// handle.
    pub fn try_get(&self, h: Handle) -> (r: Option<&T>)
        requires
            self.wf(),
        ensures
            (r is Some) == self.valid(h),
            r matches Some(v) ==> *v == self.at(h),
    {
        if h.index < self.slots.len() && self.slots[h.index].generation == h.generation {
            match &self.slots[h.index].payload {
                Some(t) => Some(t),
                None => None,
            }
        } else {
            None
        }
    }

    /// Indexed access. Accessing through a stale handle is a programming
    /// contract violation, excluded by the precondition.
    pub fn get(&self, h: Handle) -> (r: &T)
        requires
            self.wf(),
            self.valid(h),
        ensures
            *r == self.at(h),
    {
        self.try_get(h).unwrap()
    }

    /// Replaces the entity behind a valid handle, returning the previous one.
    pub fn replace(&mut self, h: Handle, t: T) -> (old_t: T)
        requires
            old(self).wf(),
            old(self).valid(h),
        ensures
            final(self).wf(),
            old_t == old(self).at(h),
            final(self).contents() == old(self).contents().insert(h, t),
            forall|h2: Handle| final(self).valid(h2) == old(self).valid(h2),
            forall|h2: Handle| #[trigger] final(self).valid(h2) && h2 != h ==> final(self).at(h2) == old(
                self,
            ).at(h2),
            final(self).valid(h) && final(self).at(h) == t,
            forall|h2: Handle| #[trigger] old(self).retired(h2) ==> final(self).retired(h2),
            final(self).slot_count() == old(self).slot_count(),
            forall|i: int| 0 <= i < final(self).slot_count() ==> final(self).gen_of(i) == old(self).gen_of(i),
            final(self).next_handle() == old(self).next_handle(),
    {
        let ghost pre = *self;
        let g = self.slots[h.index].generation;
        let old_slot = self.slots.remove(h.index);
        self.slots.insert(h.index, Slot { generation: g, payload: Some(t) });
        proof {
            assert(self.slots@ =~= pre.slots@.update(h.index as int, self.slots@[h.index as int]));
            assert(self.contents() =~= pre.contents().insert(h, t));
        }
        match old_slot.payload {
            Some(t0) => t0,
            None => vstd::pervasive::unreached(),
        }
    }

    /// Takes the entity behind a valid handle out, leaving the slot reserved:
    /// vacant at the same generation and withheld from reuse until `put`
    /// restores it. `take` and `put` form a bracketed pair around in-place
    /// entity surgery within one engine call.
    pub(crate) fn take(&mut self, h: Handle) -> (t: T)
        requires
            old(self).wf(),
            old(self).valid(h),
        ensures
            final(self).wf(),
            t == old(self).at(h),
            final(self).reserved(h),
            final(self).contents() == old(self).contents().remove(h),
            forall|h2: Handle| h2 != h ==> final(self).valid(h2) == old(self).valid(h2),
            forall|h2: Handle| #[trigger] final(self).valid(h2) ==> final(self).at(h2) == old(self).at(h2),
            final(self).slot_count() == old(self).slot_count(),
            forall|i: int| 0 <= i < final(self).slot_count() ==> final(self).gen_of(i) == old(self).gen_of(i),
    {
        let ghost pre = *self;
        let g = self.slots[h.index].generation;
        let old_slot = self.slots.remove(h.index);
        self.slots.insert(h.index, Slot { generation: g, payload: None });
        proof {
            assert(self.slots@ =~= pre.slots@.update(h.index as int, self.slots@[h.index as int]));
            assert forall|k: int| 0 <= k < pre.free@.len() implies pre.free@[k] != h.index by {
                assert(pre.slots@[pre.free@[k] as int].payload is None);
            }
            assert(!pre.free@.contains(h.index));
            assert(self.contents() =~= pre.contents().remove(h));
        }
        match old_slot.payload {
            Some(t0) => t0,
            None => vstd::pervasive::unreached(),
        }
    }

    /// Puts an entity back into the slot `take` reserved, revalidating the
    /// same handle.
    pub(crate) fn put(&mut self, h: Handle, t: T)
        requires
            old(self).wf(),
            old(self).reserved(h),
        ensures
            final(self).wf(),
            final(self).valid(h),
            final(self).at(h) == t,
            final(self).contents() == old(self).contents().insert(h, t),
            forall|h2: Handle| h2 != h ==> final(self).valid(h2) == old(self).valid(h2),
            forall|h2: Handle| #[trigger] final(self).valid(h2) && h2 != h ==> final(self).at(h2) == old(
                self,
            ).at(h2),
            final(self).slot_count() == old(self).slot_count(),
            forall|i: int| 0 <= i < final(self).slot_count() ==> final(self).gen_of(i) == old(self).gen_of(i),
    {
        let ghost pre = *self;
        let g = self.slots[h.index].generation;
        let _discarded = self.slots.remove(h.index);
        self.slots.insert(h.index, Slot { generation: g, payload: Some(t) });
        proof {
            assert(self.slots@ =~= pre.slots@.update(h.index as int, self.slots@[h.index as int]));
            assert(self.contents() =~= pre.contents().insert(h, t));
        }
    }

    /// A handle is valid exactly when it is a key of the contents map.
    pub proof fn lemma_valid_iff_in_contents(self, h: Handle)
        ensures
            self.valid(h) <==> self.contents().contains_key(h),
            self.valid(h) ==> self.contents()[h] == self.at(h),
    {
    }

    /// A retired handle is stale: every lookup through it fails.
    pub proof fn lemma_retired_not_valid(self, h: Handle)
        requires
            self.wf(),
        ensures
            self.retired(h) ==> !self.valid(h),
    {
    }

    /// Law: staleness is permanent. `remove` leaves the removed handle
    /// retired, and both `insert` and `remove` promise to keep every
    /// retired handle retired; so across any chain of insertions and
    /// removals, a handle is valid from the insertion that issued it until
    /// the removal that retires it, and from then on every lookup through
    /// it fails and it is never issued again — a reused slot hands out a
    /// handle at a later generation that cannot alias the old one.
    pub proof fn lemma_staleness_is_permanent(pre: Self, post: Self, h: Handle)
        requires
            post.wf(),
            pre.retired(h),
            forall|h2: Handle| #[trigger] pre.retired(h2) ==> post.retired(h2),
        ensures
            post.retired(h),
            !post.valid(h),
            post.next_handle() != h,
    {
        post.lemma_retired_not_valid(h);
        post.lemma_retired_not_reissued(h);
    }

    /// A retired handle is never issued again: reusing its slot issues a
    /// handle at a later generation, so old references cannot alias the new
    /// entity.
    pub proof fn lemma_retired_not_reissued(self, h: Handle)
        requires
            self.wf(),
            self.retired(h),
        ensures
            self.next_handle() != h,
    {
        if self.free@.len() > 0 {
            let last = self.free@.last();
            assert(self.free@[self.free@.len() - 1] == last);
            assert(self.free@.contains(last));
            if last == h.index {
                assert(self.slots@[h.index as int].payload is None);
                if self.slots@[h.index as int].generation == h.generation {
                    assert(!self.free@.contains(h.index));
                }
                assert(self.slots@[h.index as int].generation > h.generation);
            }
        } else {
            broadcast use vstd::std_specs::vec::axiom_spec_len;

            assert(vstd::std_specs::vec::spec_vec_len(&self.slots) == self.slots@.len());
        }
    }
}

} // verus!
