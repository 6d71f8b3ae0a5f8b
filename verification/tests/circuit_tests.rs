use dep_obj::arena::Handle;
use dep_obj::circuit::{
    Chip, Circuit, Context, Handler, NotLegs, NotLegsType, OrLegs, OrLegsType, PropSel, ServiceId,
    PropagateError,
};
use dep_obj::schema::DepTypeLock;

const FUEL: u64 = 1000;

fn element_types() -> (OrLegsType, NotLegsType) {
    let mut or_lock = DepTypeLock::new();
    let or_ty = OrLegsType::new(&mut or_lock).unwrap();
    let mut not_lock = DepTypeLock::new();
    let not_ty = NotLegsType::new(&mut not_lock).unwrap();
    (or_ty, not_ty)
}

#[test]
fn element_type_builds_exactly_once_per_lock() {
    let mut or_lock = DepTypeLock::new();
    assert!(OrLegsType::new(&mut or_lock).is_some());
    // the schema is sealed: the second invocation yields no token
    assert!(OrLegsType::new(&mut or_lock).is_none());
}

#[test]
fn or_element_recomputes_output() {
    let (or_ty, not_ty) = element_types();
    let in_1 = or_ty.in_1();
    let in_2 = or_ty.in_2();
    let out = or_ty.out();
    let mut circuit = Circuit::new();
    let dummy = Handle::from_raw_parts((0, 1));
    let chip = OrLegs::new(&mut circuit, &or_ty, dummy);
    let mut ctx = Context::new(circuit, or_ty, not_ty);
    assert_eq!(chip.get(ctx.circuit(), PropSel::InOr(out)), Some(false));
    let old = chip.set(&mut ctx, PropSel::InOr(in_1), true, FUEL).unwrap();
    assert_eq!(old, false);
    assert_eq!(chip.get(ctx.circuit(), PropSel::InOr(out)), Some(true));
    chip.set(&mut ctx, PropSel::InOr(in_1), false, FUEL).unwrap();
    assert_eq!(chip.get(ctx.circuit(), PropSel::InOr(out)), Some(false));
    chip.set(&mut ctx, PropSel::InOr(in_2), true, FUEL).unwrap();
    assert_eq!(chip.get(ctx.circuit(), PropSel::InOr(out)), Some(true));
}

#[test]
fn not_element_recomputes_output() {
    let (or_ty, not_ty) = element_types();
    let in_ = not_ty.in_();
    let out = not_ty.out();
    let mut circuit = Circuit::new();
    let dummy = Handle::from_raw_parts((0, 1));
    let chip = NotLegs::new(&mut circuit, &not_ty, dummy);
    let mut ctx = Context::new(circuit, or_ty, not_ty);
    // the output defaults to the image of the defaulted input
    assert_eq!(chip.get(ctx.circuit(), PropSel::InNot(out)), Some(true));
    chip.set(&mut ctx, PropSel::InNot(in_), true, FUEL).unwrap();
    assert_eq!(chip.get(ctx.circuit(), PropSel::InNot(out)), Some(false));
}

#[test]
fn set_always_fires_and_set_dist_filters() {
    let (or_ty, not_ty) = element_types();
    let in_2 = or_ty.in_2();
    let out = or_ty.out();
    let mut circuit = Circuit::new();
    let dummy = Handle::from_raw_parts((0, 1));
    let chip = OrLegs::new(&mut circuit, &or_ty, dummy);
    // observe every firing of the second input through the trace
    chip.on_changed(&mut circuit, PropSel::InOr(in_2), Handler::TraceOut).unwrap();
    let mut ctx = Context::new(circuit, or_ty, not_ty);
    chip.set(&mut ctx, PropSel::InOr(in_2), true, FUEL).unwrap();
    chip.set(&mut ctx, PropSel::InOr(in_2), true, FUEL).unwrap();
    // an unconditional write fires on every call, changed value or not
    assert_eq!(ctx.trace().len(), 2);
    // a distinct-value write of the current value fires nothing
    chip.set_dist(&mut ctx, PropSel::InOr(in_2), true, FUEL).unwrap();
    assert_eq!(ctx.trace().len(), 2);
    chip.set_dist(&mut ctx, PropSel::InOr(in_2), false, FUEL).unwrap();
    assert_eq!(ctx.trace().len(), 3);
    assert_eq!(chip.get(ctx.circuit(), PropSel::InOr(out)), Some(false));
}

#[test]
fn stale_chip_fails_explicitly() {
    let (or_ty, not_ty) = element_types();
    let in_1 = or_ty.in_1();
    let out = or_ty.out();
    let mut circuit = Circuit::new();
    let dummy = Handle::from_raw_parts((0, 1));
    let chip = OrLegs::new(&mut circuit, &or_ty, dummy);
    chip.remove(&mut circuit);
    assert_eq!(chip.get(&circuit, PropSel::InOr(out)), None);
    let mut ctx = Context::new(circuit, or_ty, not_ty);
    let r = chip.set(&mut ctx, PropSel::InOr(in_1), true, FUEL);
    assert_eq!(r, Err(PropagateError::StaleHandle));
}

#[test]
fn reused_chip_slot_does_not_alias() {
    let (or_ty, not_ty) = element_types();
    let out = or_ty.out();
    let mut circuit = Circuit::new();
    let dummy = Handle::from_raw_parts((0, 1));
    let first = OrLegs::new(&mut circuit, &or_ty, dummy);
    first.remove(&mut circuit);
    let second = OrLegs::new(&mut circuit, &or_ty, dummy);
    assert_eq!(second.0.index, first.0.index);
    assert_ne!(second.0.generation, first.0.generation);
    assert_ne!(first, second);
    assert_eq!(first.get(&circuit, PropSel::InOr(out)), None);
    assert_eq!(second.get(&circuit, PropSel::InOr(out)), Some(false));
    let _keep = Context::new(circuit, or_ty, not_ty);
}

#[test]
fn wrong_element_kind_fails_explicitly() {
    let (or_ty, not_ty) = element_types();
    let in_1 = or_ty.in_1();
    let mut circuit = Circuit::new();
    let dummy = Handle::from_raw_parts((0, 1));
    let inverter = NotLegs::new(&mut circuit, &not_ty, dummy);
    assert_eq!(inverter.get(&circuit, PropSel::InOr(in_1)), None);
    let mut ctx = Context::new(circuit, or_ty, not_ty);
    let r = inverter.set(&mut ctx, PropSel::InOr(in_1), true, FUEL);
    assert_eq!(r, Err(PropagateError::KindMismatch));
}

#[test]
fn propagation_runs_out_of_fuel_explicitly() {
    let (or_ty, not_ty) = element_types();
    let in_1 = or_ty.in_1();
    let mut circuit = Circuit::new();
    let dummy = Handle::from_raw_parts((0, 1));
    let chip = OrLegs::new(&mut circuit, &or_ty, dummy);
    let mut ctx = Context::new(circuit, or_ty, not_ty);
    // the write schedules the recompute handler, but no budget remains
    let r = chip.set(&mut ctx, PropSel::InOr(in_1), true, 0);
    assert_eq!(r, Err(PropagateError::OutOfFuel));
}

fn build_latch() -> (Context, Chip, Chip) {
    let (or_ty, not_ty) = element_types();
    let or_in_2 = or_ty.in_2();
    let or_out = or_ty.out();
    let not_in = not_ty.in_();
    let not_out = not_ty.out();
    let mut circuit = Circuit::new();
    let dummy = Handle::from_raw_parts((0, 1));
    // two inverters cross-wired through two two-input OR elements
    let not_1 = NotLegs::new(&mut circuit, &not_ty, dummy);
    let not_2 = NotLegs::new(&mut circuit, &not_ty, dummy);
    let or_1 = OrLegs::new(&mut circuit, &or_ty, not_1.0);
    let or_2 = OrLegs::new(&mut circuit, &or_ty, not_2.0);
    not_1.set_tag(&mut circuit, or_2.0);
    not_2.set_tag(&mut circuit, or_1.0);
    not_1.on_changed(
        &mut circuit,
        PropSel::InNot(not_out),
        Handler::Forward { dst: PropSel::InOr(or_in_2) },
    )
    .unwrap();
    not_2.on_changed(
        &mut circuit,
        PropSel::InNot(not_out),
        Handler::Forward { dst: PropSel::InOr(or_in_2) },
    )
    .unwrap();
    or_1.on_changed(
        &mut circuit,
        PropSel::InOr(or_out),
        Handler::Forward { dst: PropSel::InNot(not_in) },
    )
    .unwrap();
    or_2.on_changed(
        &mut circuit,
        PropSel::InOr(or_out),
        Handler::Forward { dst: PropSel::InNot(not_in) },
    )
    .unwrap();
    // observe the first inverter's output
    not_1.on_changed(&mut circuit, PropSel::InNot(not_out), Handler::TraceOut).unwrap();
    let mut ctx = Context::new(circuit, or_ty, not_ty);
    // drive the latch into a known stable state
    or_1.set(&mut ctx, PropSel::InOr(or_in_2), true, FUEL).unwrap();
    or_2.set(&mut ctx, PropSel::InOr(or_in_2), true, FUEL).unwrap();
    not_1.set(&mut ctx, PropSel::InNot(not_in), true, FUEL).unwrap();
    not_2.set(&mut ctx, PropSel::InNot(not_in), true, FUEL).unwrap();
    let in_1 = or_ty_in_1(&ctx);
    or_1.set_dist(&mut ctx, PropSel::InOr(in_1), false, FUEL).unwrap();
    or_2.set_dist(&mut ctx, PropSel::InOr(in_1), false, FUEL).unwrap();
    (ctx, or_1, or_2)
}

fn or_ty_in_1(ctx: &Context) -> dep_obj::schema::DepProp<dep_obj::circuit::OrComp, bool> {
    ctx.or_legs_type().in_1()
}

fn not_ty_out(ctx: &Context) -> dep_obj::schema::DepProp<dep_obj::circuit::NotComp, bool> {
    ctx.not_legs_type().out()
}

#[test]
fn sr_latch_settles_and_toggles() {
    let (mut ctx, or_1, or_2) = build_latch();
    // the stabilization phase leaves this trace behind
    assert_eq!(ctx.trace().as_slice(), &[false, true, false, true]);
    let baseline = ctx.trace().len();
    // each forcing pulse flips the latch into the other stable state
    let in_1 = or_ty_in_1(&ctx);
    or_1.set_dist(&mut ctx, PropSel::InOr(in_1), true, FUEL).unwrap();
    or_1.set_dist(&mut ctx, PropSel::InOr(in_1), false, FUEL).unwrap();
    or_2.set_dist(&mut ctx, PropSel::InOr(in_1), true, FUEL).unwrap();
    or_2.set_dist(&mut ctx, PropSel::InOr(in_1), false, FUEL).unwrap();
    or_1.set_dist(&mut ctx, PropSel::InOr(in_1), true, FUEL).unwrap();
    or_1.set_dist(&mut ctx, PropSel::InOr(in_1), false, FUEL).unwrap();
    or_2.set_dist(&mut ctx, PropSel::InOr(in_1), true, FUEL).unwrap();
    or_2.set_dist(&mut ctx, PropSel::InOr(in_1), false, FUEL).unwrap();
    let tail: Vec<bool> = ctx.trace()[baseline..].to_vec();
    assert_eq!(tail, vec![false, true, false, true]);
    // the latch ends in the state last forced
    let latch_out = not_ty_out(&ctx);
    let not_1 = dep_obj::circuit::Chip(dep_obj::arena::Handle::from_raw_parts((0, 1)));
    assert_eq!(not_1.get(ctx.circuit(), PropSel::InNot(latch_out)), Some(true));
}

#[test]
fn settled_network_ignores_repeated_writes() {
    let (mut ctx, or_1, _or_2) = build_latch();
    let baseline = ctx.trace().len();
    let in_1 = or_ty_in_1(&ctx);
    // re-asserting the settled value through the distinct-value filter
    // produces zero additional propagation
    or_1.set_dist(&mut ctx, PropSel::InOr(in_1), false, FUEL).unwrap();
    or_1.set_dist(&mut ctx, PropSel::InOr(in_1), false, FUEL).unwrap();
    assert_eq!(ctx.trace().len(), baseline);
}

#[test]
fn context_resolves_only_its_bound_services() {
    let (or_ty, not_ty) = element_types();
    let circuit = Circuit::new();
    let ctx = Context::new(circuit, or_ty, not_ty);
    assert!(ctx.resolves(ServiceId::CircuitService));
    assert!(ctx.resolves(ServiceId::OrSchemaService));
    assert!(ctx.resolves(ServiceId::NotSchemaService));
    // an identity outside the bound set fails to resolve
    assert!(!ctx.resolves(ServiceId::ViewTreeService));
    // only one service is exposed mutably
    assert!(ctx.resolves_mut(ServiceId::CircuitService));
    assert!(!ctx.resolves_mut(ServiceId::OrSchemaService));
}
