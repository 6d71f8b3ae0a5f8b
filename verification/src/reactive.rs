//! The reactive storage cell: per property, per instance, a current value
//! plus an ordered list of change handlers. A write through `set` always
//! schedules the handlers; a write through `set_dist` schedules them only
//! when the new value differs from the old one — the filter that lets cyclic
//! recomputation networks settle at a fixed point.

use vstd::prelude::*;
use vstd::std_specs::cmp::PartialEqSpec;

verus! {

/// Executable equality on `V` agrees with mathematical equality. This is the
/// premise under which the distinct-value filter is meaningful; it holds for
/// the plain value types the engine stores.
pub open spec fn eq_obeys<V: PartialEq>() -> bool {
    &&& V::obeys_eq_spec()
    &&& forall|a: V, b: V| #[trigger] a.eq_spec(&b) <==> a == b
}

/// The handlers a distinct-value write schedules: none when the new value
/// equals the current one, all of them otherwise.
pub open spec fn dist_fires<V, H>(cur: V, new: V, watchers: Seq<H>) -> Seq<H> {
    if new == cur {
        Seq::<H>::empty()
    } else {
        watchers
    }
}

/// Driving the same value through the distinct-value filter twice in a row
/// notifies at most once: after the first write the stored value equals the
/// written one, so the second, identical write fires no handler.
pub proof fn lemma_set_dist_twice_silent<V, H>(v: V, watchers: Seq<H>)
    ensures
        dist_fires(v, v, watchers) == Seq::<H>::empty(),
{
}

/// The handlers one write scheduled, in registration order, each owed a call
/// with the value that was current before that write.
pub struct OnChanged<H> {
    items: Vec<H>,
}

impl<H: Copy> OnChanged<H> {
    /// The scheduled handlers, in registration order.
    pub closed spec fn fired(self) -> Seq<H> {
        self.items@
    }

    pub fn len(&self) -> (n: usize)
        ensures
            n == self.fired().len(),
    {
        self.items.len()
    }

    pub fn is_empty(&self) -> (b: bool)
        ensures
            b == (self.fired().len() == 0),
    {
        self.items.len() == 0
    }

    pub fn get(&self, i: usize) -> (h: H)
        requires
            i < self.fired().len(),
        ensures
            h == self.fired()[i as int],
    {
        self.items[i]
    }
}

fn copy_list<H: Copy>(hs: &Vec<H>) -> (r: Vec<H>)
    ensures
        r@ == hs@,
{
    let mut r: Vec<H> = Vec::new();
    let mut i: usize = 0;
    while i < hs.len()
        invariant
            i <= hs@.len(),
            r@ == hs@.subrange(0, i as int),
        decreases hs@.len() - i,
    {
        r.push(hs[i]);
        i += 1;
        proof {
            assert(r@ =~= hs@.subrange(0, i as int));
        }
    }
    proof {
        assert(r@ =~= hs@);
    }
    r
}

/// One property's per-instance storage: the current value and the ordered
/// handler list. Handlers are plain data tokens; the owner of the cell
/// interprets a scheduled token by running the behaviour it names.
pub struct Reactive<V, H> {
    value: V,
    handlers: Vec<H>,
}

impl<V: Copy, H: Copy> Reactive<V, H> {
    /// The current value.
    pub closed spec fn val(self) -> V {
        self.value
    }

    /// The registered change handlers, in registration order.
    pub closed spec fn watchers(self) -> Seq<H> {
        self.handlers@
    }

    /// A fresh cell holding the property's default value, with no handler.
    pub fn new(v: V) -> (r: Self)
        ensures
            r.val() == v,
            r.watchers() == Seq::<H>::empty(),
    {
        let r = Reactive { value: v, handlers: Vec::new() };
        proof {
            assert(r.watchers() =~= Seq::<H>::empty());
        }
        r
    }

    /// Reads the current value; no side effect.
    pub fn get(&self) -> (r: &V)
        ensures
            *r == self.val(),
    {
        &self.value
    }

    /// Unconditional write: overwrites the value, returns the previous one,
    /// and schedules every registered handler — even when the new value
    /// equals the old, so externally driven inputs can re-assert a value.
    pub fn set(&mut self, v: V) -> (r: (V, OnChanged<H>))
        ensures
            final(self).val() == v,
            final(self).watchers() == old(self).watchers(),
            r.0 == old(self).val(),
            r.1.fired() == old(self).watchers(),
    {
        let old_v = self.value;
        self.value = v;
        let items = copy_list(&self.handlers);
        (old_v, OnChanged { items })
    }

    /// Distinct-value write: overwrites the value and returns the previous
    /// one, but schedules the handlers only when the new value differs from
    /// the old. A feedback loop driven purely through this write stops
    /// propagating once it reaches a fixed point.
    pub fn set_dist(&mut self, v: V) -> (r: (V, OnChanged<H>)) where V: PartialEq
        requires
            eq_obeys::<V>(),
        ensures
            final(self).val() == v,
            final(self).watchers() == old(self).watchers(),
            r.0 == old(self).val(),
            r.1.fired() == dist_fires(old(self).val(), v, old(self).watchers()),
    {
        let old_v = self.value;
        self.value = v;
        let changed = !(v == old_v);
        let items = if changed {
            copy_list(&self.handlers)
        } else {
            Vec::new()
        };
        proof {
            if !changed {
                assert(OnChanged { items }.fired() =~= Seq::<H>::empty());
            }
        }
        (old_v, OnChanged { items })
    }

    /// Registers one more handler, to run after future writes; it does not
    /// fire retroactively for the current value.
    pub fn on_changed(&mut self, handler: H)
        ensures
            final(self).val() == old(self).val(),
            final(self).watchers() == old(self).watchers().push(handler),
    {
        self.handlers.push(handler);
    }
}

} // verus!
