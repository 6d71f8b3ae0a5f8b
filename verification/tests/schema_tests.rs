use dep_obj::reactive::Reactive;
use dep_obj::schema::{DepObjProps, DepTypeBuilder, DepTypeLock};

struct Widget;

#[test]
fn second_concurrent_builder_fails() {
    let mut lock = DepTypeLock::new();
    let first: Option<DepTypeBuilder<Widget, u32>> = DepTypeBuilder::new(&mut lock);
    assert!(first.is_some());
    // the first build is still open: a second one must not be
    let second: Option<DepTypeBuilder<Widget, u32>> = DepTypeBuilder::new(&mut lock);
    assert!(second.is_none());
}

#[test]
fn schema_builds_exactly_once() {
    let mut lock = DepTypeLock::new();
    let mut builder: DepTypeBuilder<Widget, u32> = DepTypeBuilder::new(&mut lock).unwrap();
    let _p = builder.prop(1);
    let token = builder.build(&mut lock);
    assert_eq!(token.prop_count(), 1);
    // the schema is sealed: no later builder may reopen the layout
    let again: Option<DepTypeBuilder<Widget, u32>> = DepTypeBuilder::new(&mut lock);
    assert!(again.is_none());
}

#[test]
fn instance_storage_starts_at_the_registered_defaults() {
    let mut lock = DepTypeLock::new();
    let mut builder: DepTypeBuilder<Widget, u32> = DepTypeBuilder::new(&mut lock).unwrap();
    let a = builder.prop(11);
    let b = builder.prop(22);
    let token = builder.build(&mut lock);
    assert_eq!(token.prop_count(), 2);
    assert_eq!(token.default_at(0), 11);
    assert_eq!(token.default_at(1), 22);
    let props: DepObjProps<Widget, u32, u8> = DepObjProps::new(&token);
    assert_eq!(props.len(), 2);
    let ca: &Reactive<u32, u8> = props.cell(a);
    let cb: &Reactive<u32, u8> = props.cell(b);
    assert_eq!(*ca.get(), 11);
    assert_eq!(*cb.get(), 22);
}

#[test]
fn property_writes_address_the_right_cell() {
    let mut lock = DepTypeLock::new();
    let mut builder: DepTypeBuilder<Widget, u32> = DepTypeBuilder::new(&mut lock).unwrap();
    let a = builder.prop(0);
    let b = builder.prop(0);
    let token = builder.build(&mut lock);
    let mut props: DepObjProps<Widget, u32, u8> = DepObjProps::new(&token);
    props.on_changed(a, 1);
    let (old_a, fired_a) = props.set(a, 5);
    assert_eq!(old_a, 0);
    assert_eq!(fired_a.len(), 1);
    let (old_b, fired_b) = props.set_dist(b, 9);
    assert_eq!(old_b, 0);
    // no handler was registered on the second property
    assert_eq!(fired_b.len(), 0);
    assert_eq!(*props.cell(a).get(), 5);
    assert_eq!(*props.cell(b).get(), 9);
}
