//! Property schemas: a component type's one-time-built, immutable
//! description of its declared properties.
//!
//! A schema is built through `DepTypeBuilder`, which registers each property
//! with its default value and hands back an opaque, typed property identity.
//! Building is guarded by an explicit `DepTypeLock` owned by the component
//! type's host — the once-per-type rule is enforced by the builder's own
//! failure path, not by a hidden global. Sealing the builder yields a
//! `DepTypeToken`, the only way to construct a fresh, fully defaulted
//! property block (`DepObjProps`) for an instance of that component type.
//!
//! A property identity is scoped by `(owning component type, value type)`
//! through its type parameters, so using it against another component type
//! is a compile-time error, not a runtime check.

use core::marker::PhantomData;
use vstd::prelude::*;
use crate::reactive::{dist_fires, eq_obeys, OnChanged, Reactive};

verus! {

enum SchemaState {
    Free,
    Open,
    Built,
}

/// The per-component-type build guard: tracks whether that type's schema is
/// not yet begun, currently being built, or sealed.
pub struct DepTypeLock {
    state: SchemaState,
}

impl DepTypeLock {
    /// No builder has been opened for the component type yet.
    pub closed spec fn is_free(self) -> bool {
        self.state is Free
    }

    /// A builder is outstanding; a second one must not be opened.
    pub closed spec fn is_open(self) -> bool {
        self.state is Open
    }

    /// The schema has been sealed; no further builder may be opened.
    pub closed spec fn is_built(self) -> bool {
        self.state is Built
    }

    pub fn new() -> (r: Self)
        ensures
            r.is_free(),
    {
        DepTypeLock { state: SchemaState::Free }
    }
}

/// An opaque, typed property identity: an offset into the owning component
/// type's canonical property layout. Only the builder issues these.
pub struct DepProp<O, V> {
    index: usize,
    owner: PhantomData<O>,
    value: PhantomData<V>,
}

impl<O, V> Clone for DepProp<O, V> {
    fn clone(&self) -> (r: Self)
        ensures
            r == *self,
    {
        DepProp { index: self.index, owner: PhantomData, value: PhantomData }
    }
}

impl<O, V> Copy for DepProp<O, V> {

}

impl<O, V> DepProp<O, V> {
    /// The property's offset in its component type's layout.
    pub closed spec fn index(self) -> int {
        self.index as int
    }

    /// The offset as a machine integer.
    pub fn offset(&self) -> (i: usize)
        ensures
            i == self.index(),
    {
        self.index
    }
}

/// An in-progress schema definition for component type `O`, all of whose
/// properties hold values of type `V`.
pub struct DepTypeBuilder<O, V> {
    defaults: Vec<V>,
    owner: PhantomData<O>,
}

impl<O, V: Copy> DepTypeBuilder<O, V> {
    /// The defaults registered so far, in property order.
    pub closed spec fn defaults(self) -> Seq<V> {
        self.defaults@
    }

    /// Opens a schema definition for the component type guarded by `lock`.
    /// Fails — returns `None` and leaves the lock untouched — if another
    /// build for the same component type is already open or the schema was
    /// already sealed: property identities are offsets into a single
    /// canonical layout, and a second concurrent builder would corrupt it.
    pub fn new(lock: &mut DepTypeLock) -> (r: Option<DepTypeBuilder<O, V>>)
        ensures
            old(lock).is_free() ==> final(lock).is_open() && (r matches Some(b) && b.defaults()
                == Seq::<V>::empty()),
            !old(lock).is_free() ==> *final(lock) == *old(lock) && r is None,
    {
        match lock.state {
            SchemaState::Free => {
                lock.state = SchemaState::Open;
                Some(DepTypeBuilder { defaults: Vec::new(), owner: PhantomData })
            },
            _ => None,
        }
    }

    /// Appends one property with its default value, returning the property's
    /// opaque identity.
    pub fn prop(&mut self, default: V) -> (p: DepProp<O, V>)
        ensures
            final(self).defaults() == old(self).defaults().push(default),
            p.index() == old(self).defaults().len(),
    {
        let index = self.defaults.len();
        self.defaults.push(default);
        DepProp { index, owner: PhantomData, value: PhantomData }
    }

    /// Seals the schema into an immutable token. The lock moves to its final
    /// state, so no later builder can reopen the layout.
    pub fn build(self, lock: &mut DepTypeLock) -> (t: DepTypeToken<O, V>)
        requires
            old(lock).is_open(),
        ensures
            final(lock).is_built(),
            t.defaults() == self.defaults(),
    {
        lock.state = SchemaState::Built;
        DepTypeToken { defaults: self.defaults, owner: PhantomData }
    }
}

/// The sealed, immutable schema of a component type: each property's default
/// value, in property order.
pub struct DepTypeToken<O, V> {
    defaults: Vec<V>,
    owner: PhantomData<O>,
}

impl<O, V: Copy> DepTypeToken<O, V> {
    /// The schema's defaults, in property order.
    pub closed spec fn defaults(self) -> Seq<V> {
        self.defaults@
    }

    pub fn prop_count(&self) -> (n: usize)
        ensures
            n == self.defaults().len(),
    {
        self.defaults.len()
    }

    pub fn default_at(&self, i: usize) -> (v: V)
        requires
            i < self.defaults().len(),
        ensures
            v == self.defaults()[i as int],
    {
        self.defaults[i]
    }
}

/// One instance's property storage: exactly one reactive cell per property
/// of the owning component type's schema, each starting at the property's
/// registered default.
pub struct DepObjProps<O, V, H> {
    store: Vec<Reactive<V, H>>,
    owner: PhantomData<O>,
}

impl<O, V: Copy, H: Copy> DepObjProps<O, V, H> {
    /// The instance's cells, in property order.
    pub closed spec fn cells(self) -> Seq<Reactive<V, H>> {
        self.store@
    }

    /// A fresh storage block for one instance: a defaulted cell with no
    /// handler for each property of the schema. Each default is produced at
    /// instance-construction time, here.
    pub fn new(token: &DepTypeToken<O, V>) -> (r: Self)
        ensures
            r.cells().len() == token.defaults().len(),
            forall|i: int|
                0 <= i < r.cells().len() ==> (#[trigger] r.cells()[i]).val() == token.defaults()[i]
                    && r.cells()[i].watchers() == Seq::<H>::empty(),
    {
        let n = token.prop_count();
        let mut store: Vec<Reactive<V, H>> = Vec::new();
        let mut i: usize = 0;
        while i < n
            invariant
                i <= n,
                n == token.defaults().len(),
                store@.len() == i,
                forall|j: int|
                    0 <= j < i ==> (#[trigger] store@[j]).val() == token.defaults()[j]
                        && store@[j].watchers() == Seq::<H>::empty(),
            decreases n - i,
        {
            store.push(Reactive::new(token.default_at(i)));
            i += 1;
        }
        DepObjProps { store, owner: PhantomData }
    }

    /// The number of properties the block holds cells for.
    pub fn len(&self) -> (n: usize)
        ensures
            n == self.cells().len(),
    {
        self.store.len()
    }

    /// Read access to one property's cell.
    pub fn cell(&self, p: DepProp<O, V>) -> (r: &Reactive<V, H>)
        requires
            0 <= p.index() < self.cells().len(),
        ensures
            *r == self.cells()[p.index()],
    {
        &self.store[p.offset()]
    }

    /// Unconditional write to one property's cell; returns the previous
    /// value and the scheduled handlers.
    pub fn set(&mut self, p: DepProp<O, V>, v: V) -> (r: (V, OnChanged<H>))
        requires
            0 <= p.index() < old(self).cells().len(),
        ensures
            final(self).cells().len() == old(self).cells().len(),
            forall|j: int|
                0 <= j < old(self).cells().len() && j != p.index() ==> final(self).cells()[j] == old(
                    self,
                ).cells()[j],
            final(self).cells()[p.index()].val() == v,
            final(self).cells()[p.index()].watchers() == old(self).cells()[p.index()].watchers(),
            r.0 == old(self).cells()[p.index()].val(),
            r.1.fired() == old(self).cells()[p.index()].watchers(),
    {
        let i = p.offset();
        let mut cell = self.store.remove(i);
        let r = cell.set(v);
        self.store.insert(i, cell);
        proof {
            assert(final(self).cells() =~= old(self).cells().update(p.index(), cell));
        }
        r
    }

    /// Distinct-value write to one property's cell: handlers are scheduled
    /// only when the new value differs from the old one.
    pub fn set_dist(&mut self, p: DepProp<O, V>, v: V) -> (r: (V, OnChanged<H>)) where
        V: PartialEq,

        requires
            eq_obeys::<V>(),
            0 <= p.index() < old(self).cells().len(),
        ensures
            final(self).cells().len() == old(self).cells().len(),
            forall|j: int|
                0 <= j < old(self).cells().len() && j != p.index() ==> final(self).cells()[j] == old(
                    self,
                ).cells()[j],
            final(self).cells()[p.index()].val() == v,
            final(self).cells()[p.index()].watchers() == old(self).cells()[p.index()].watchers(),
            r.0 == old(self).cells()[p.index()].val(),
            r.1.fired() == dist_fires(
                old(self).cells()[p.index()].val(),
                v,
                old(self).cells()[p.index()].watchers(),
            ),
    {
        let i = p.offset();
        let mut cell = self.store.remove(i);
        let r = cell.set_dist(v);
        self.store.insert(i, cell);
        proof {
            assert(final(self).cells() =~= old(self).cells().update(p.index(), cell));
        }
        r
    }

    /// Registers one more change handler on one property's cell.
    pub fn on_changed(&mut self, p: DepProp<O, V>, handler: H)
        requires
            0 <= p.index() < old(self).cells().len(),
        ensures
            final(self).cells().len() == old(self).cells().len(),
            forall|j: int|
                0 <= j < old(self).cells().len() && j != p.index() ==> final(self).cells()[j] == old(
                    self,
                ).cells()[j],
            final(self).cells()[p.index()].val() == old(self).cells()[p.index()].val(),
            final(self).cells()[p.index()].watchers() == old(self).cells()[p.index()].watchers()
                .push(handler),
    {
        let i = p.offset();
        let mut cell = self.store.remove(i);
        cell.on_changed(handler);
        self.store.insert(i, cell);
        proof {
            assert(final(self).cells() =~= old(self).cells().update(p.index(), cell));
        }
    }
}

} // verus!
