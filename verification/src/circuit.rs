//! The worked consumer of the engine: a combinational-logic circuit of
//! two-input OR elements and inverters wired into (possibly cyclic) feedback
//! loops, together with the propagation machinery itself.
//!
//! Every chip is an entity in the arena; its element ("legs") carries a
//! property block built from the element type's schema. Change handlers are
//! plain data tokens stored in the cells; a write collects the scheduled
//! tokens and an explicit work stack interprets them depth-first, exactly as
//! nested re-entrant calls would run: a fired handler's own writes are
//! processed to completion before the next already-scheduled handler runs.
//! The whole propagation is pinned by a specification-level interpreter
//! (`spec_write`, `spec_fire`, `spec_run`); the executable engine is proved
//! to compute precisely what the interpreter says. Propagation runs on
//! explicit fuel: the unbounded recursion a misused unconditional `set`
//! could produce on a closed loop surfaces as an explicit out-of-fuel
//! result instead of a blown call stack.

use vstd::prelude::*;
use crate::arena::{Arena, Handle};
use crate::reactive::{eq_obeys, OnChanged, Reactive};
use crate::schema::{DepObjProps, DepProp, DepTypeBuilder, DepTypeLock, DepTypeToken};

verus! {

/// Executable equality on `bool` agrees with mathematical equality.
pub proof fn lemma_bool_eq_obeys()
    ensures
        eq_obeys::<bool>(),
{
}

/// Component-type identity of the two-input OR element.
pub struct OrComp;

/// Component-type identity of the inverter.
pub struct NotComp;

/// Which concrete element a chip's legs hold.
#[derive(Clone, Copy, Debug, PartialEq, Eq, Structural)]
pub enum LegsKind {
    Or,
    Not,
}

/// A typed property address: the owning element kind plus the property
/// identity issued by that kind's schema builder.
#[derive(Clone, Copy)]
pub enum PropSel {
    InOr(DepProp<OrComp, bool>),
    InNot(DepProp<NotComp, bool>),
}

/// The element kind a property address belongs to.
pub open spec fn sel_kind(sel: PropSel) -> LegsKind {
    match sel {
        PropSel::InOr(_) => LegsKind::Or,
        PropSel::InNot(_) => LegsKind::Not,
    }
}

/// The property offset a property address names.
pub open spec fn sel_index(sel: PropSel) -> int {
    match sel {
        PropSel::InOr(p) => p.index(),
        PropSel::InNot(p) => p.index(),
    }
}

/// A change handler, as plain data: the behaviour the engine runs when the
/// cell holding it fires.
#[derive(Clone, Copy)]
pub enum Handler {
    /// Recompute the owning OR element's output from its two inputs
    /// (distinct-value write).
    UpdateOr,
    /// Recompute the owning inverter's output from its input
    /// (distinct-value write).
    UpdateNot,
    /// Copy the owner's output into `dst` on the chip the owner's tag
    /// refers to (distinct-value write).
    Forward { dst: PropSel },
    /// Append the owner's output to the context's trace.
    TraceOut,
}

/// Why a propagation step failed. Each of these is a contract violation of
/// the driving code (or, for fuel, a diverging network), reported explicitly
/// instead of aborting mid-propagation.
#[derive(Clone, Copy, Debug, PartialEq, Eq, Structural)]
pub enum PropagateError {
    /// The propagation budget ran out before the network settled.
    OutOfFuel,
    /// A write or read went through a stale (removed) chip handle.
    StaleHandle,
    /// A property address was used against a chip of the other element kind.
    KindMismatch,
    /// A property offset lay outside the chip's schema.
    MissingProp,
}

/// A two-input OR element's property block.
pub struct OrLegs {
    props: DepObjProps<OrComp, bool, Handler>,
}

impl OrLegs {
    /// The element's cells, in property order.
    pub closed spec fn cell_list(self) -> Seq<Reactive<bool, Handler>> {
        self.props.cells()
    }
}

/// An inverter's property block.
pub struct NotLegs {
    props: DepObjProps<NotComp, bool, Handler>,
}

impl NotLegs {
    /// The element's cells, in property order.
    pub closed spec fn cell_list(self) -> Seq<Reactive<bool, Handler>> {
        self.props.cells()
    }
}

/// The type-erased element box stored in a chip: one owning value, downcast by
/// matching, with a mismatch reported as `KindMismatch`.
pub enum Legs {
    Or(OrLegs),
    Not(NotLegs),
}

/// A chip's identity: a plain data handle into the circuit's arena, so
/// chips can reference each other in cycles.
#[derive(Clone, Copy, Debug, PartialEq, Eq, PartialOrd, Ord, Hash, Structural)]
pub struct Chip(pub Handle);

/// The entity stored per chip: the chip's own handle (captured at
/// construction), the element box, and an opaque tag. The tag holds a plain
/// handle, the form cross-references take when they cross the type-erased
/// boundary.
pub struct ChipNode {
    chip: Chip,
    legs: Legs,
    tag: Handle,
}

/// The mathematical image of one reactive cell.
#[verifier::ext_equal]
pub struct CellView {
    pub value: bool,
    pub handlers: Seq<Handler>,
}

/// The mathematical image of one chip.
#[verifier::ext_equal]
pub struct NodeView {
    pub kind: LegsKind,
    pub cells: Seq<CellView>,
    pub tag: Handle,
    pub chip: Chip,
}

/// The mathematical image of a whole propagation state: every live chip
/// plus the observation trace.
#[verifier::ext_equal]
pub struct StateView {
    pub nodes: Map<Handle, NodeView>,
    pub trace: Seq<bool>,
}

/// The image of one cell.
pub open spec fn cell_view(c: Reactive<bool, Handler>) -> CellView {
    CellView { value: c.val(), handlers: c.watchers() }
}

/// The element kind of a legs box.
pub open spec fn legs_kind(l: Legs) -> LegsKind {
    match l {
        Legs::Or(_) => LegsKind::Or,
        Legs::Not(_) => LegsKind::Not,
    }
}

/// The cell images of a legs box, in property order.
pub open spec fn legs_cells(l: Legs) -> Seq<CellView> {
    match l {
        Legs::Or(o) => o.cell_list().map_values(|c: Reactive<bool, Handler>| cell_view(c)),
        Legs::Not(n) => n.cell_list().map_values(|c: Reactive<bool, Handler>| cell_view(c)),
    }
}

/// The image of one chip entity.
pub closed spec fn node_view(n: ChipNode) -> NodeView {
    NodeView { kind: legs_kind(n.legs), cells: legs_cells(n.legs), tag: n.tag, chip: n.chip }
}

/// The chip arena.
pub struct Circuit {
    arena: Arena<ChipNode>,
}

impl Circuit {
    pub closed spec fn wf(self) -> bool {
        self.arena.wf()
    }

    /// The live chips, as a map from handle to chip image.
    pub closed spec fn nodes(self) -> Map<Handle, NodeView> {
        self.arena.contents().map_values(|n: ChipNode| node_view(n))
    }

    /// The chip identity the next insertion will issue.
    pub closed spec fn next_chip(self) -> Chip {
        Chip(self.arena.next_handle())
    }

    /// An empty circuit.
    pub fn new() -> (r: Self)
        ensures
            r.wf(),
            r.nodes() == Map::<Handle, NodeView>::empty(),
    {
        let r = Circuit { arena: Arena::new() };
        proof {
            assert(r.nodes() =~= Map::<Handle, NodeView>::empty());
        }
        r
    }
}

/// The index of an element's output property in its canonical layout.
pub open spec fn out_index(kind: LegsKind) -> int {
    if kind is Or {
        2
    } else {
        1
    }
}

/// One scheduled handler call: which chip owns the fired cell, which
/// behaviour to run, and the value the cell held before the write that
/// scheduled it.
#[derive(Clone, Copy)]
pub struct Work {
    pub chip: Chip,
    pub handler: Handler,
    pub old: bool,
}

/// One write to one cell of one chip: the new node map, the scheduled
/// handler calls (in registration order, each carrying the pre-write
/// value), and the previous value. With `dist` set, an equal value
/// schedules nothing.
pub open spec fn spec_write(
    nodes: Map<Handle, NodeView>,
    chip: Chip,
    kind: LegsKind,
    idx: int,
    v: bool,
    dist: bool,
) -> Result<(Map<Handle, NodeView>, Seq<Work>, bool), PropagateError> {
    if !nodes.contains_key(chip.0) {
        Err(PropagateError::StaleHandle)
    } else {
        let n = nodes[chip.0];
        if n.kind != kind {
            Err(PropagateError::KindMismatch)
        } else if idx < 0 || idx >= n.cells.len() {
            Err(PropagateError::MissingProp)
        } else {
            let old_v = n.cells[idx].value;
            let n2 = NodeView {
                cells: n.cells.update(idx, CellView { value: v, handlers: n.cells[idx].handlers }),
                ..n
            };
            let fired = if dist && v == old_v {
                Seq::<Work>::empty()
            } else {
                n.cells[idx].handlers.map(|i: int, h: Handler| Work { chip, handler: h, old: old_v })
            };
            Ok((nodes.insert(chip.0, n2), fired, old_v))
        }
    }
}

/// Running one scheduled handler call: reads go to the current state, the
/// handler's own write is a distinct-value write, and the calls it
/// schedules are returned for the stack.
pub open spec fn spec_fire(s: StateView, w: Work) -> Result<
    (StateView, Seq<Work>),
    PropagateError,
> {
    if !s.nodes.contains_key(w.chip.0) {
        Err(PropagateError::StaleHandle)
    } else {
        let n = s.nodes[w.chip.0];
        match w.handler {
            Handler::UpdateOr => {
                if n.kind != LegsKind::Or {
                    Err(PropagateError::KindMismatch)
                } else if n.cells.len() < 3 {
                    Err(PropagateError::MissingProp)
                } else {
                    let v = n.cells[0].value || n.cells[1].value;
                    match spec_write(s.nodes, w.chip, LegsKind::Or, 2, v, true) {
                        Err(e) => Err(e),
                        Ok(p) => Ok((StateView { nodes: p.0, trace: s.trace }, p.1)),
                    }
                }
            },
            Handler::UpdateNot => {
                if n.kind != LegsKind::Not {
                    Err(PropagateError::KindMismatch)
                } else if n.cells.len() < 2 {
                    Err(PropagateError::MissingProp)
                } else {
                    let v = !n.cells[0].value;
                    match spec_write(s.nodes, w.chip, LegsKind::Not, 1, v, true) {
                        Err(e) => Err(e),
                        Ok(p) => Ok((StateView { nodes: p.0, trace: s.trace }, p.1)),
                    }
                }
            },
            Handler::Forward { dst } => {
                if out_index(n.kind) >= n.cells.len() {
                    Err(PropagateError::MissingProp)
                } else {
                    let v = n.cells[out_index(n.kind)].value;
                    match spec_write(s.nodes, Chip(n.tag), sel_kind(dst), sel_index(dst), v, true) {
                        Err(e) => Err(e),
                        Ok(p) => Ok((StateView { nodes: p.0, trace: s.trace }, p.1)),
                    }
                }
            },
            Handler::TraceOut => {
                if out_index(n.kind) >= n.cells.len() {
                    Err(PropagateError::MissingProp)
                } else {
                    Ok(
                        (
                            StateView {
                                nodes: s.nodes,
                                trace: s.trace.push(n.cells[out_index(n.kind)].value),
                            },
                            Seq::<Work>::empty(),
                        ),
                    )
                }
            },
        }
    }
}

/// Depth-first propagation: the front of the stack runs next, and the calls
/// it schedules go in front of the rest — exactly the order of nested
/// re-entrant handler calls. Each step costs one unit of fuel.
pub open spec fn spec_run(s: StateView, stack: Seq<Work>, fuel: nat) -> Result<
    StateView,
    PropagateError,
> decreases fuel,
{
    if stack.len() == 0 {
        Ok(s)
    } else if fuel == 0 {
        Err(PropagateError::OutOfFuel)
    } else {
        match spec_fire(s, stack[0]) {
            Err(e) => Err(e),
            Ok(p) => spec_run(p.0, p.1 + stack.skip(1), (fuel - 1) as nat),
        }
    }
}

/// A whole `set`/`set_dist` call: the initial write plus the full
/// propagation it sets off, returning the settled state and the previous
/// value of the written cell.
pub open spec fn spec_set(
    s: StateView,
    chip: Chip,
    sel: PropSel,
    v: bool,
    dist: bool,
    fuel: nat,
) -> Result<(StateView, bool), PropagateError> {
    match spec_write(s.nodes, chip, sel_kind(sel), sel_index(sel), v, dist) {
        Err(e) => Err(e),
        Ok(p) => match spec_run(StateView { nodes: p.0, trace: s.trace }, p.1, fuel) {
            Err(e) => Err(e),
            Ok(s2) => Ok((s2, p.2)),
        },
    }
}

/// Reading one property of one chip, `None` on any addressing fault.
pub open spec fn spec_get(nodes: Map<Handle, NodeView>, chip: Chip, sel: PropSel) -> Option<bool> {
    if nodes.contains_key(chip.0) && nodes[chip.0].kind == sel_kind(sel) && 0 <= sel_index(sel)
        < nodes[chip.0].cells.len() {
        Some(nodes[chip.0].cells[sel_index(sel)].value)
    } else {
        None
    }
}

/// Registering one more handler on one property of one chip.
pub open spec fn spec_on_changed(
    nodes: Map<Handle, NodeView>,
    chip: Chip,
    sel: PropSel,
    handler: Handler,
) -> Result<Map<Handle, NodeView>, PropagateError> {
    if !nodes.contains_key(chip.0) {
        Err(PropagateError::StaleHandle)
    } else {
        let n = nodes[chip.0];
        if n.kind != sel_kind(sel) {
            Err(PropagateError::KindMismatch)
        } else if sel_index(sel) < 0 || sel_index(sel) >= n.cells.len() {
            Err(PropagateError::MissingProp)
        } else {
            let c = n.cells[sel_index(sel)];
            Ok(
                nodes.insert(
                    chip.0,
                    NodeView {
                        kind: n.kind,
                        cells: n.cells.update(
                            sel_index(sel),
                            CellView { value: c.value, handlers: c.handlers.push(handler) },
                        ),
                        tag: n.tag,
                        chip: n.chip,
                    },
                ),
            )
        }
    }
}

/// The OR element's schema: the sealed token plus the three property
/// identities it issued — first input, second input, output.
pub struct OrLegsType {
    token: DepTypeToken<OrComp, bool>,
    in_1: DepProp<OrComp, bool>,
    in_2: DepProp<OrComp, bool>,
    out: DepProp<OrComp, bool>,
}

impl OrLegsType {
    /// The canonical OR layout: inputs at offsets 0 and 1, output at
    /// offset 2, all defaulting to false.
    pub closed spec fn wf(self) -> bool {
        &&& self.in_1.index() == 0
        &&& self.in_2.index() == 1
        &&& self.out.index() == 2
        &&& self.token.defaults() == seq![false, false, false]
    }

    /// Builds the OR schema exactly once per lock: a second invocation while
    /// the lock is not fresh fails to produce a token.
    pub fn new(lock: &mut DepTypeLock) -> (r: Option<OrLegsType>)
        ensures
            old(lock).is_free() ==> final(lock).is_built() && (r matches Some(t) && t.wf()),
            !old(lock).is_free() ==> r is None && *final(lock) == *old(lock),
    {
        match DepTypeBuilder::<OrComp, bool>::new(lock) {
            None => None,
            Some(mut builder) => {
                let in_1 = builder.prop(false);
                let in_2 = builder.prop(false);
                let out = builder.prop(false);
                let token = builder.build(lock);
                proof {
                    assert(token.defaults() =~= seq![false, false, false]);
                }
                Some(OrLegsType { token, in_1, in_2, out })
            },
        }
    }

    /// The first input's property identity.
    pub fn in_1(&self) -> (p: DepProp<OrComp, bool>)
        requires
            self.wf(),
        ensures
            p.index() == 0,
    {
        self.in_1
    }

    /// The second input's property identity.
    pub fn in_2(&self) -> (p: DepProp<OrComp, bool>)
        requires
            self.wf(),
        ensures
            p.index() == 1,
    {
        self.in_2
    }

    /// The output's property identity.
    pub fn out(&self) -> (p: DepProp<OrComp, bool>)
        requires
            self.wf(),
        ensures
            p.index() == 2,
    {
        self.out
    }
}

/// The inverter's schema: input then output.
pub struct NotLegsType {
    token: DepTypeToken<NotComp, bool>,
    in_: DepProp<NotComp, bool>,
    out: DepProp<NotComp, bool>,
}

impl NotLegsType {
    /// The canonical inverter layout: input at offset 0 (default false),
    /// output at offset 1 (default true, an inverter's image of its
    /// defaulted input).
    pub closed spec fn wf(self) -> bool {
        &&& self.in_.index() == 0
        &&& self.out.index() == 1
        &&& self.token.defaults() == seq![false, true]
    }

    /// Builds the inverter schema exactly once per lock.
    pub fn new(lock: &mut DepTypeLock) -> (r: Option<NotLegsType>)
        ensures
            old(lock).is_free() ==> final(lock).is_built() && (r matches Some(t) && t.wf()),
            !old(lock).is_free() ==> r is None && *final(lock) == *old(lock),
    {
        match DepTypeBuilder::<NotComp, bool>::new(lock) {
            None => None,
            Some(mut builder) => {
                let in_ = builder.prop(false);
                let out = builder.prop(true);
                let token = builder.build(lock);
                proof {
                    assert(token.defaults() =~= seq![false, true]);
                }
                Some(NotLegsType { token, in_, out })
            },
        }
    }

    /// The input's property identity.
    pub fn in_(&self) -> (p: DepProp<NotComp, bool>)
        requires
            self.wf(),
        ensures
            p.index() == 0,
    {
        self.in_
    }

    /// The output's property identity.
    pub fn out(&self) -> (p: DepProp<NotComp, bool>)
        requires
            self.wf(),
        ensures
            p.index() == 1,
    {
        self.out
    }
}

/// A fresh OR element's cells: both inputs watched by the recompute handler,
/// everything false.
pub open spec fn or_fresh_cells() -> Seq<CellView> {
    seq![
        CellView { value: false, handlers: seq![Handler::UpdateOr] },
        CellView { value: false, handlers: seq![Handler::UpdateOr] },
        CellView { value: false, handlers: Seq::<Handler>::empty() },
    ]
}

/// A fresh inverter's cells: the input watched by the recompute handler,
/// the output defaulted to true.
pub open spec fn not_fresh_cells() -> Seq<CellView> {
    seq![
        CellView { value: false, handlers: seq![Handler::UpdateNot] },
        CellView { value: true, handlers: Seq::<Handler>::empty() },
    ]
}

impl Chip {
    /// Inserts a new chip. The arena hands the new handle to a builder
    /// closure before the entity is stored, so the node embeds its own
    /// identity.
    pub fn new(circuit: &mut Circuit, legs: Legs, tag: Handle) -> (chip: Chip)
        requires
            old(circuit).wf(),
        ensures
            final(circuit).wf(),
            chip == old(circuit).next_chip(),
            !old(circuit).nodes().contains_key(chip.0),
            final(circuit).nodes() == old(circuit).nodes().insert(
                chip.0,
                NodeView { kind: legs_kind(legs), cells: legs_cells(legs), tag, chip },
            ),
    {
        let ghost pre = *circuit;
        let ghost gkind = legs_kind(legs);
        let ghost gcells = legs_cells(legs);
        let build = move |hh: Handle| -> (res: (ChipNode, Handle))
            ensures
                res.0.chip == Chip(hh),
                res.0.tag == tag,
                legs_kind(res.0.legs) == gkind,
                legs_cells(res.0.legs) == gcells,
                res.1 == hh,
            {
                (ChipNode { chip: Chip(hh), legs, tag }, hh)
            };
        let h = circuit.arena.insert(build);
        let chip = Chip(h);
        proof {
            assert(circuit.nodes() =~= pre.nodes().insert(
                chip.0,
                NodeView { kind: gkind, cells: gcells, tag, chip },
            ));
        }
        chip
    }
}

impl OrLegs {
    /// Builds a fresh OR element wired to recompute its output whenever either
    /// input changes, and inserts it as a new chip carrying `tag`.
    pub fn new(circuit: &mut Circuit, ty: &OrLegsType, tag: Handle) -> (chip: Chip)
        requires
            old(circuit).wf(),
            ty.wf(),
        ensures
            final(circuit).wf(),
            chip == old(circuit).next_chip(),
            !old(circuit).nodes().contains_key(chip.0),
            final(circuit).nodes() == old(circuit).nodes().insert(
                chip.0,
                NodeView { kind: LegsKind::Or, cells: or_fresh_cells(), tag, chip },
            ),
    {
        let mut props = DepObjProps::new(&ty.token);
        props.on_changed(ty.in_1(), Handler::UpdateOr);
        props.on_changed(ty.in_2(), Handler::UpdateOr);
        let legs = OrLegs { props };
        proof {
            assert(legs_cells(Legs::Or(legs)) =~~= or_fresh_cells());
        }
        Chip::new(circuit, Legs::Or(legs), tag)
    }
}

/// The type identities a capability context can be asked to resolve a
/// service by. The view tree's identity stands for a service this
/// context does not carry: asking for it fails, as resolution does for
/// any identity outside the bound set.
#[derive(Clone, Copy, Debug, PartialEq, Eq, Structural)]
pub enum ServiceId {
    CircuitService,
    OrSchemaService,
    NotSchemaService,
    ViewTreeService,
}

/// The capability context of one top-level call: the fixed set of ambient
/// services a propagation may use — the chip arena (the single mutably
/// exposed service), the two sealed element schemas (shared), and the
/// observation trace. It is built at the entry point from owned parts,
/// threaded by reference through every nested handler run, and dismantled
/// when the call returns; it is the sole substitute for global state.
pub struct Context {
    circuit: Circuit,
    or_legs: OrLegsType,
    not_legs: NotLegsType,
    trace: Vec<bool>,
}

impl Context {
    pub closed spec fn wf(self) -> bool {
        &&& self.circuit.wf()
        &&& self.or_legs.wf()
        &&& self.not_legs.wf()
    }

    /// The propagation state the context carries.
    pub closed spec fn sv(self) -> StateView {
        StateView { nodes: self.circuit.nodes(), trace: self.trace@ }
    }

    /// Binds the services for one top-level call; the trace starts empty.
    pub fn new(circuit: Circuit, or_legs: OrLegsType, not_legs: NotLegsType) -> (r: Context)
        requires
            circuit.wf(),
            or_legs.wf(),
            not_legs.wf(),
        ensures
            r.wf(),
            r.sv() == (StateView { nodes: circuit.nodes(), trace: Seq::<bool>::empty() }),
    {
        let r = Context { circuit, or_legs, not_legs, trace: Vec::new() };
        proof {
            assert(r.sv() =~~= (StateView { nodes: circuit.nodes(), trace: Seq::<bool>::empty() }));
        }
        r
    }

    /// Dismantles the context when the top-level call returns, handing the
    /// services and the trace back.
    pub fn into_parts(self) -> (r: (Circuit, OrLegsType, NotLegsType, Vec<bool>))
        requires
            self.wf(),
        ensures
            r.0.wf(),
            r.0.nodes() == self.sv().nodes,
            r.1.wf(),
            r.2.wf(),
            r.3@ == self.sv().trace,
    {
        (self.circuit, self.or_legs, self.not_legs, self.trace)
    }

    /// Shared access to the circuit service.
    pub fn circuit(&self) -> (c: &Circuit)
        requires
            self.wf(),
        ensures
            c.wf(),
            c.nodes() == self.sv().nodes,
    {
        &self.circuit
    }

    /// Shared access to the OR schema service.
    pub fn or_legs_type(&self) -> (t: &OrLegsType)
        requires
            self.wf(),
        ensures
            t.wf(),
    {
        &self.or_legs
    }

    /// Shared access to the inverter schema service.
    pub fn not_legs_type(&self) -> (t: &NotLegsType)
        requires
            self.wf(),
        ensures
            t.wf(),
    {
        &self.not_legs
    }

    /// The observation trace so far.
    pub fn trace(&self) -> (tr: &Vec<bool>)
        ensures
            tr@ == self.sv().trace,
    {
        &self.trace
    }

    /// The fixed, caller-declared set of service identities bound for this
    /// call; resolution fails for every identity outside it.
    pub open spec fn binds(id: ServiceId) -> bool {
        !(id is ViewTreeService)
    }

    /// The identities exposed mutably: exactly one service — the circuit —
    /// may be mutably borrowed for the context's lifetime; the rest are
    /// shared and read-only.
    pub open spec fn binds_mut(id: ServiceId) -> bool {
        id is CircuitService
    }

    /// Resolution by type identity: whether a shared borrow of the service
    /// named by `id` can be handed out. A caller that requires a service
    /// treats a failed resolution as fatal.
    pub fn resolves(&self, id: ServiceId) -> (r: bool)
        ensures
            r == Self::binds(id),
    {
        match id {
            ServiceId::ViewTreeService => false,
            _ => true,
        }
    }

    /// Resolution of the one mutably exposed service.
    pub fn resolves_mut(&self, id: ServiceId) -> (r: bool)
        ensures
            r == Self::binds_mut(id),
    {
        match id {
            ServiceId::CircuitService => true,
            _ => false,
        }
    }
}

/// One write to one cell, through the arena: takes the chip's node out,
/// writes the addressed cell, puts the node back, and packages the
/// scheduled handler calls.
fn exec_write(circuit: &mut Circuit, chip: Chip, sel: PropSel, v: bool, dist: bool) -> (r: Result<
    (bool, Vec<Work>),
    PropagateError,
>)
    requires
        old(circuit).wf(),
    ensures
        final(circuit).wf(),
        match spec_write(old(circuit).nodes(), chip, sel_kind(sel), sel_index(sel), v, dist) {
            Ok(p) => r matches Ok(q) && q.0 == p.2 && q.1@ == p.1 && final(circuit).nodes() == p.0,
            Err(e) => r == Err::<(bool, Vec<Work>), PropagateError>(e) && final(circuit).nodes()
                == old(circuit).nodes(),
        },
{
    let ghost pre = *circuit;
    if !circuit.arena.contains(chip.0) {
        proof {
            assert(!pre.nodes().contains_key(chip.0));
        }
        return Err(PropagateError::StaleHandle);
    }
    proof {
        assert(pre.nodes().contains_key(chip.0));
        assert(pre.nodes()[chip.0] == node_view(pre.arena.contents()[chip.0]));
    }
    let node = circuit.arena.take(chip.0);
    let ghost node0 = node;
    let ChipNode { chip: nchip, legs, tag } = node;
    let step: Result<(bool, OnChanged<Handler>), PropagateError>;
    let legs1: Legs;
    match legs {
        Legs::Or(mut or) => {
            match sel {
                PropSel::InOr(p) => {
                    if p.offset() < or.props.len() {
                        proof {
                            lemma_bool_eq_obeys();
                        }
                        let pr = if dist {
                            or.props.set_dist(p, v)
                        } else {
                            or.props.set(p, v)
                        };
                        step = Ok(pr);
                    } else {
                        step = Err(PropagateError::MissingProp);
                    }
                },
                PropSel::InNot(_) => {
                    step = Err(PropagateError::KindMismatch);
                },
            }
            legs1 = Legs::Or(or);
        },
        Legs::Not(mut nl) => {
            match sel {
                PropSel::InNot(p) => {
                    if p.offset() < nl.props.len() {
                        proof {
                            lemma_bool_eq_obeys();
                        }
                        let pr = if dist {
                            nl.props.set_dist(p, v)
                        } else {
                            nl.props.set(p, v)
                        };
                        step = Ok(pr);
                    } else {
                        step = Err(PropagateError::MissingProp);
                    }
                },
                PropSel::InOr(_) => {
                    step = Err(PropagateError::KindMismatch);
                },
            }
            legs1 = Legs::Not(nl);
        },
    }
    let node1 = ChipNode { chip: nchip, legs: legs1, tag };
    let ghost gnode1 = node1;
    circuit.arena.put(chip.0, node1);
    proof {
        assert(circuit.arena.contents() =~= pre.arena.contents().insert(chip.0, gnode1));
        assert(circuit.nodes() =~= pre.nodes().insert(chip.0, node_view(gnode1)));
    }
    match step {
        Err(e) => {
            proof {
                assert(node_view(gnode1) == node_view(node0));
                assert(circuit.nodes() =~= pre.nodes());
            }
            Err(e)
        },
        Ok((oldv, oc)) => {
            let ghost idx = sel_index(sel);
            let ghost n0 = node_view(node0);
            let ghost fspec = oc.fired().map(
                |i: int, hh: Handler| Work { chip, handler: hh, old: oldv },
            );
            let n = oc.len();
            let mut works: Vec<Work> = Vec::new();
            let mut i: usize = 0;
            while i < n
                invariant
                    i <= n,
                    n == oc.fired().len(),
                    works@.len() == i,
                    forall|j: int|
                        0 <= j < i ==> works@[j] == (Work {
                            chip,
                            handler: oc.fired()[j],
                            old: oldv,
                        }),
                decreases n - i,
            {
                works.push(Work { chip, handler: oc.get(i), old: oldv });
                i += 1;
            }
            proof {
                assert(works@ =~= fspec);
                assert(0 <= idx < n0.cells.len());
                assert(n0.cells[idx].value == oldv);
                assert(legs_cells(gnode1.legs) =~= n0.cells.update(
                    idx,
                    CellView { value: v, handlers: n0.cells[idx].handlers },
                ));
                let spec_n2 = (NodeView {
                    kind: n0.kind,
                    cells: n0.cells.update(
                        idx,
                        CellView { value: v, handlers: n0.cells[idx].handlers },
                    ),
                    tag: n0.tag,
                    chip: n0.chip,
                });
                assert(node_view(gnode1) =~~= spec_n2);
                if dist && v == oldv {
                    assert(fspec =~= Seq::<Work>::empty());
                } else {
                    assert(oc.fired() == n0.cells[idx].handlers);
                    assert(fspec =~= n0.cells[idx].handlers.map(
                        |i: int, h: Handler| Work { chip, handler: h, old: oldv },
                    ));
                }
            }
            Ok((oldv, works))
        },
    }
}

impl NotLegs {
    /// Builds a fresh inverter wired to recompute its output whenever its
    /// input changes, and inserts it as a new chip carrying `tag`.
    pub fn new(circuit: &mut Circuit, ty: &NotLegsType, tag: Handle) -> (chip: Chip)
        requires
            old(circuit).wf(),
            ty.wf(),
        ensures
            final(circuit).wf(),
            chip == old(circuit).next_chip(),
            !old(circuit).nodes().contains_key(chip.0),
            final(circuit).nodes() == old(circuit).nodes().insert(
                chip.0,
                NodeView { kind: LegsKind::Not, cells: not_fresh_cells(), tag, chip },
            ),
    {
        let mut props = DepObjProps::new(&ty.token);
        props.on_changed(ty.in_(), Handler::UpdateNot);
        let legs = NotLegs { props };
        proof {
            assert(legs_cells(Legs::Not(legs)) =~~= not_fresh_cells());
        }
        Chip::new(circuit, Legs::Not(legs), tag)
    }
}

/// Runs one scheduled handler call: reads go to the current state, the
/// handler's own write is a distinct-value write, and whatever that write
/// schedules is returned for the stack.
fn exec_fire(ctx: &mut Context, w: Work) -> (r: Result<Vec<Work>, PropagateError>)
    requires
        old(ctx).wf(),
    ensures
        final(ctx).wf(),
        match spec_fire(old(ctx).sv(), w) {
            Ok(p) => r matches Ok(works) && works@ == p.1 && final(ctx).sv() == p.0,
            Err(e) => r == Err::<Vec<Work>, PropagateError>(e),
        },
{
    let ghost pre = *ctx;
    if !ctx.circuit.arena.contains(w.chip.0) {
        proof {
            assert(!pre.sv().nodes.contains_key(w.chip.0));
        }
        return Err(PropagateError::StaleHandle);
    }
    proof {
        assert(pre.sv().nodes[w.chip.0] == node_view(pre.circuit.arena.contents()[w.chip.0]));
    }
    match w.handler {
        Handler::UpdateOr => {
            let a: bool;
            let b: bool;
            match &ctx.circuit.arena.get(w.chip.0).legs {
                Legs::Or(or) => {
                    if or.props.len() < 3 {
                        return Err(PropagateError::MissingProp);
                    }
                    a = *or.props.cell(ctx.or_legs.in_1()).get();
                    b = *or.props.cell(ctx.or_legs.in_2()).get();
                },
                Legs::Not(_) => {
                    return Err(PropagateError::KindMismatch);
                },
            }
            let out = ctx.or_legs.out();
            match exec_write(&mut ctx.circuit, w.chip, PropSel::InOr(out), a || b, true) {
                Err(e) => Err(e),
                Ok((_, works)) => {
                    proof {
                        assert(ctx.sv() =~~= (match spec_fire(pre.sv(), w) {
                            Ok(p) => p.0,
                            Err(_) => ctx.sv(),
                        }));
                    }
                    Ok(works)
                },
            }
        },
        Handler::UpdateNot => {
            let a: bool;
            match &ctx.circuit.arena.get(w.chip.0).legs {
                Legs::Not(nl) => {
                    if nl.props.len() < 2 {
                        return Err(PropagateError::MissingProp);
                    }
                    a = *nl.props.cell(ctx.not_legs.in_()).get();
                },
                Legs::Or(_) => {
                    return Err(PropagateError::KindMismatch);
                },
            }
            let out = ctx.not_legs.out();
            match exec_write(&mut ctx.circuit, w.chip, PropSel::InNot(out), !a, true) {
                Err(e) => Err(e),
                Ok((_, works)) => {
                    proof {
                        assert(ctx.sv() =~~= (match spec_fire(pre.sv(), w) {
                            Ok(p) => p.0,
                            Err(_) => ctx.sv(),
                        }));
                    }
                    Ok(works)
                },
            }
        },
        Handler::Forward { dst } => {
            let val: bool;
            let target: Chip;
            let node = ctx.circuit.arena.get(w.chip.0);
            target = Chip(node.tag);
            match &node.legs {
                Legs::Or(or) => {
                    if or.props.len() < 3 {
                        return Err(PropagateError::MissingProp);
                    }
                    val = *or.props.cell(ctx.or_legs.out()).get();
                },
                Legs::Not(nl) => {
                    if nl.props.len() < 2 {
                        return Err(PropagateError::MissingProp);
                    }
                    val = *nl.props.cell(ctx.not_legs.out()).get();
                },
            }
            match exec_write(&mut ctx.circuit, target, dst, val, true) {
                Err(e) => Err(e),
                Ok((_, works)) => {
                    proof {
                        assert(ctx.sv() =~~= (match spec_fire(pre.sv(), w) {
                            Ok(p) => p.0,
                            Err(_) => ctx.sv(),
                        }));
                    }
                    Ok(works)
                },
            }
        },
        Handler::TraceOut => {
            let val: bool;
            match &ctx.circuit.arena.get(w.chip.0).legs {
                Legs::Or(or) => {
                    if or.props.len() < 3 {
                        return Err(PropagateError::MissingProp);
                    }
                    val = *or.props.cell(ctx.or_legs.out()).get();
                },
                Legs::Not(nl) => {
                    if nl.props.len() < 2 {
                        return Err(PropagateError::MissingProp);
                    }
                    val = *nl.props.cell(ctx.not_legs.out()).get();
                },
            }
            ctx.trace.push(val);
            let works: Vec<Work> = Vec::new();
            proof {
                assert(works@ =~= Seq::<Work>::empty());
                assert(ctx.sv() =~~= (match spec_fire(pre.sv(), w) {
                    Ok(p) => p.0,
                    Err(_) => ctx.sv(),
                }));
            }
            Ok(works)
        },
    }
}

/// Depth-first propagation over an explicit work stack, one unit of fuel
/// per handler call. On success the context holds exactly the state the
/// specification interpreter computes; on failure propagation stops where
/// the fault occurred.
fn run_stack(ctx: &mut Context, stack: Vec<Work>, fuel: u64) -> (r: Result<(), PropagateError>)
    requires
        old(ctx).wf(),
    ensures
        final(ctx).wf(),
        match spec_run(old(ctx).sv(), stack@, fuel as nat) {
            Ok(s2) => r == Ok::<(), PropagateError>(()) && final(ctx).sv() == s2,
            Err(e) => r == Err::<(), PropagateError>(e),
        },
{
    let mut st = stack;
    let mut f = fuel;
    loop
        invariant
            ctx.wf(),
            spec_run(ctx.sv(), st@, f as nat) == spec_run(old(ctx).sv(), stack@, fuel as nat),
        decreases f,
    {
        if st.len() == 0 {
            return Ok(());
        }
        if f == 0 {
            return Err(PropagateError::OutOfFuel);
        }
        let ghost s_pre = ctx.sv();
        let ghost st_pre = st@;
        let w = st.remove(0);
        proof {
            assert(st@ =~= st_pre.skip(1));
        }
        match exec_fire(ctx, w) {
            Err(e) => {
                proof {
                    assert(spec_run(s_pre, st_pre, f as nat) == Err::<
                        StateView,
                        PropagateError,
                    >(e));
                }
                return Err(e);
            },
            Ok(mut items) => {
                items.append(&mut st);
                st = items;
                f = f - 1;
            },
        }
    }
}

impl Chip {
    /// Unconditional write with full propagation: overwrites the property,
    /// runs every registered handler (and, depth-first, everything those
    /// handlers set off), and returns the previous value. Handlers fire
    /// even when the written value equals the old one. On an error the
    /// propagation stops at the fault; the state then holds whatever
    /// prefix of the propagation had already run.
    pub fn set(self, ctx: &mut Context, sel: PropSel, value: bool, fuel: u64) -> (r: Result<
        bool,
        PropagateError,
    >)
        requires
            old(ctx).wf(),
        ensures
            final(ctx).wf(),
            match spec_set(old(ctx).sv(), self, sel, value, false, fuel as nat) {
                Ok(p) => r == Ok::<bool, PropagateError>(p.1) && final(ctx).sv() == p.0,
                Err(e) => r == Err::<bool, PropagateError>(e),
            },
    {
        match exec_write(&mut ctx.circuit, self, sel, value, false) {
            Err(e) => Err(e),
            Ok((oldv, works)) => match run_stack(ctx, works, fuel) {
                Err(e) => Err(e),
                Ok(()) => Ok(oldv),
            },
        }
    }

    /// Distinct-value write with full propagation: as `set`, but handlers
    /// fire only when the written value differs from the old one — the
    /// element that lets a cyclic feedback network settle.
    pub fn set_dist(self, ctx: &mut Context, sel: PropSel, value: bool, fuel: u64) -> (r: Result<
        bool,
        PropagateError,
    >)
        requires
            old(ctx).wf(),
        ensures
            final(ctx).wf(),
            match spec_set(old(ctx).sv(), self, sel, value, true, fuel as nat) {
                Ok(p) => r == Ok::<bool, PropagateError>(p.1) && final(ctx).sv() == p.0,
                Err(e) => r == Err::<bool, PropagateError>(e),
            },
    {
        match exec_write(&mut ctx.circuit, self, sel, value, true) {
            Err(e) => Err(e),
            Ok((oldv, works)) => match run_stack(ctx, works, fuel) {
                Err(e) => Err(e),
                Ok(()) => Ok(oldv),
            },
        }
    }

    /// Reads one property, with no side effect; fails explicitly (`None`)
    /// on a stale handle or a bad address.
    pub fn get(self, circuit: &Circuit, sel: PropSel) -> (r: Option<bool>)
        requires
            circuit.wf(),
        ensures
            r == spec_get(circuit.nodes(), self, sel),
    {
        match circuit.arena.try_get(self.0) {
            None => None,
            Some(node) => {
                proof {
                    assert(circuit.nodes()[self.0] == node_view(circuit.arena.contents()[self.0]));
                }
                match &node.legs {
                    Legs::Or(or) => match sel {
                        PropSel::InOr(p) => {
                            if p.offset() < or.props.len() {
                                Some(*or.props.cell(p).get())
                            } else {
                                None
                            }
                        },
                        PropSel::InNot(_) => None,
                    },
                    Legs::Not(nl) => match sel {
                        PropSel::InNot(p) => {
                            if p.offset() < nl.props.len() {
                                Some(*nl.props.cell(p).get())
                            } else {
                                None
                            }
                        },
                        PropSel::InOr(_) => None,
                    },
                }
            },
        }
    }

    /// Registers a change handler on one property, to run after future
    /// writes; it does not fire for the property's current value.
    pub fn on_changed(self, circuit: &mut Circuit, sel: PropSel, handler: Handler) -> (r: Result<
        (),
        PropagateError,
    >)
        requires
            old(circuit).wf(),
        ensures
            final(circuit).wf(),
            match spec_on_changed(old(circuit).nodes(), self, sel, handler) {
                Ok(m) => r == Ok::<(), PropagateError>(()) && final(circuit).nodes() == m,
                Err(e) => r == Err::<(), PropagateError>(e) && final(circuit).nodes() == old(
                    circuit,
                ).nodes(),
            },
    {
        let ghost pre = *circuit;
        if !circuit.arena.contains(self.0) {
            proof {
                assert(!pre.nodes().contains_key(self.0));
            }
            return Err(PropagateError::StaleHandle);
        }
        proof {
            assert(pre.nodes()[self.0] == node_view(pre.arena.contents()[self.0]));
        }
        let node = circuit.arena.take(self.0);
        let ghost node0 = node;
        let ChipNode { chip: nchip, legs, tag } = node;
        let step: Result<(), PropagateError>;
        let legs1: Legs;
        match legs {
            Legs::Or(mut or) => {
                match sel {
                    PropSel::InOr(p) => {
                        if p.offset() < or.props.len() {
                            or.props.on_changed(p, handler);
                            step = Ok(());
                        } else {
                            step = Err(PropagateError::MissingProp);
                        }
                    },
                    PropSel::InNot(_) => {
                        step = Err(PropagateError::KindMismatch);
                    },
                }
                legs1 = Legs::Or(or);
            },
            Legs::Not(mut nl) => {
                match sel {
                    PropSel::InNot(p) => {
                        if p.offset() < nl.props.len() {
                            nl.props.on_changed(p, handler);
                            step = Ok(());
                        } else {
                            step = Err(PropagateError::MissingProp);
                        }
                    },
                    PropSel::InOr(_) => {
                        step = Err(PropagateError::KindMismatch);
                    },
                }
                legs1 = Legs::Not(nl);
            },
        }
        let node1 = ChipNode { chip: nchip, legs: legs1, tag };
        let ghost gnode1 = node1;
        circuit.arena.put(self.0, node1);
        proof {
            assert(circuit.arena.contents() =~= pre.arena.contents().insert(self.0, gnode1));
            assert(circuit.nodes() =~= pre.nodes().insert(self.0, node_view(gnode1)));
        }
        match step {
            Err(e) => {
                proof {
                    assert(node_view(gnode1) == node_view(node0));
                    assert(circuit.nodes() =~= pre.nodes());
                }
                Err(e)
            },
            Ok(()) => {
                proof {
                    let idx = sel_index(sel);
                    let n0 = node_view(node0);
                    assert(legs_cells(gnode1.legs) =~= n0.cells.update(
                        idx,
                        CellView {
                            value: n0.cells[idx].value,
                            handlers: n0.cells[idx].handlers.push(handler),
                        },
                    ));
                    assert(node_view(gnode1) =~~= (NodeView {
                        kind: n0.kind,
                        cells: n0.cells.update(
                            idx,
                            CellView {
                                value: n0.cells[idx].value,
                                handlers: n0.cells[idx].handlers.push(handler),
                            },
                        ),
                        tag: n0.tag,
                        chip: n0.chip,
                    }));
                }
                Ok(())
            },
        }
    }

    /// The chip's tag. Going through a stale handle is a contract
    /// violation, excluded by the precondition.
    pub fn tag(self, circuit: &Circuit) -> (t: Handle)
        requires
            circuit.wf(),
            circuit.nodes().contains_key(self.0),
        ensures
            t == circuit.nodes()[self.0].tag,
    {
        proof {
            assert(circuit.nodes()[self.0] == node_view(circuit.arena.contents()[self.0]));
        }
        circuit.arena.get(self.0).tag
    }

    /// Overwrites the chip's tag.
    pub fn set_tag(self, circuit: &mut Circuit, tag: Handle)
        requires
            old(circuit).wf(),
            old(circuit).nodes().contains_key(self.0),
        ensures
            final(circuit).wf(),
            final(circuit).nodes() == old(circuit).nodes().insert(
                self.0,
                NodeView {
                    kind: old(circuit).nodes()[self.0].kind,
                    cells: old(circuit).nodes()[self.0].cells,
                    tag,
                    chip: old(circuit).nodes()[self.0].chip,
                },
            ),
    {
        let ghost pre = *circuit;
        proof {
            assert(pre.nodes()[self.0] == node_view(pre.arena.contents()[self.0]));
        }
        let mut node = circuit.arena.take(self.0);
        node.tag = tag;
        let ghost gnode1 = node;
        circuit.arena.put(self.0, node);
        proof {
            assert(circuit.arena.contents() =~= pre.arena.contents().insert(self.0, gnode1));
            assert(circuit.nodes() =~= pre.nodes().insert(self.0, node_view(gnode1)));
            assert(node_view(gnode1) =~~= (NodeView {
                kind: pre.nodes()[self.0].kind,
                cells: pre.nodes()[self.0].cells,
                tag,
                chip: pre.nodes()[self.0].chip,
            }));
        }
    }

    /// Law: handlers always observe the value that was current before the
    /// triggering write. The scheduled calls carry that value with them,
    /// even though storage is updated to the new value before any handler
    /// runs — so the value a handler receives is untouched by whatever
    /// nested handlers overwrite in between.
    pub proof fn lemma_handlers_observe_pre_write_value(
        nodes: Map<Handle, NodeView>,
        chip: Chip,
        kind: LegsKind,
        idx: int,
        v: bool,
        dist: bool,
    )
        ensures
            spec_write(nodes, chip, kind, idx, v, dist) matches Ok(p) ==> {
                &&& p.2 == nodes[chip.0].cells[idx].value
                &&& forall|i: int|
                    0 <= i < p.1.len() ==> (#[trigger] p.1[i]) == (Work {
                        chip,
                        handler: nodes[chip.0].cells[idx].handlers[i],
                        old: p.2,
                    })
            },
    {
    }

    /// Law: an unconditional write schedules every registered handler on
    /// every call, whether or not the written value equals the old one.
    pub proof fn lemma_set_always_fires(
        nodes: Map<Handle, NodeView>,
        chip: Chip,
        kind: LegsKind,
        idx: int,
        v: bool,
    )
        ensures
            spec_write(nodes, chip, kind, idx, v, false) matches Ok(p) ==> p.1.len()
                == nodes[chip.0].cells[idx].handlers.len(),
    {
    }

    /// Law: the distinct-value filter. Writing the current value schedules
    /// nothing; after any distinct-value write the cell holds the written
    /// value; hence a second identical distinct-value write in a row
    /// schedules nothing — handlers fire at most once for the pair.
    pub proof fn lemma_set_dist_filter(
        nodes: Map<Handle, NodeView>,
        chip: Chip,
        kind: LegsKind,
        idx: int,
        v: bool,
    )
        ensures
            spec_write(nodes, chip, kind, idx, v, true) matches Ok(p) ==> {
                &&& (v == nodes[chip.0].cells[idx].value ==> p.1 == Seq::<Work>::empty())
                &&& p.0[chip.0].cells[idx].value == v
                &&& (spec_write(p.0, chip, kind, idx, v, true) matches Ok(q) && q.1 == Seq::<
                    Work,
                >::empty())
            },
    {
    }

    /// Law: a settled network stays settled. A whole distinct-value call
    /// that re-asserts a property's current value is silent — no handler
    /// is scheduled, no fuel is consumed, and the state (trace included)
    /// comes back exactly unchanged.
    pub proof fn lemma_set_dist_stable(s: StateView, chip: Chip, sel: PropSel, fuel: nat)
        requires
            s.nodes.contains_key(chip.0),
            s.nodes[chip.0].kind == sel_kind(sel),
            0 <= sel_index(sel) < s.nodes[chip.0].cells.len(),
        ensures
            spec_set(s, chip, sel, s.nodes[chip.0].cells[sel_index(sel)].value, true, fuel)
                == Ok::<(StateView, bool), PropagateError>(
                (s, s.nodes[chip.0].cells[sel_index(sel)].value),
            ),
    {
        let idx = sel_index(sel);
        let n = s.nodes[chip.0];
        let v = n.cells[idx].value;
        assert(n.cells.update(idx, CellView { value: v, handlers: n.cells[idx].handlers })
            =~= n.cells);
        assert((NodeView {
            kind: n.kind,
            cells: n.cells.update(idx, CellView { value: v, handlers: n.cells[idx].handlers }),
            tag: n.tag,
            chip: n.chip,
        }) =~~= n);
        assert(s.nodes.insert(chip.0, n) =~= s.nodes);
        assert((StateView { nodes: s.nodes.insert(chip.0, n), trace: s.trace }) =~~= s);
    }

    /// Removes the chip from the circuit, retiring its handle: every
    /// outstanding copy of the handle becomes stale, and a later reuse of
    /// the slot issues a handle at a later generation.
    pub fn remove(self, circuit: &mut Circuit)
        requires
            old(circuit).wf(),
            old(circuit).nodes().contains_key(self.0),
        ensures
            final(circuit).wf(),
            final(circuit).nodes() == old(circuit).nodes().remove(self.0),
    {
        let ghost pre = *circuit;
        circuit.arena.remove(self.0);
        proof {
            assert(circuit.nodes() =~= pre.nodes().remove(self.0));
        }
    }
}

} // verus!
