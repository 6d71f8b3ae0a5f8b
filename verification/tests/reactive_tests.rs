use dep_obj::reactive::Reactive;

#[test]
fn set_always_schedules_handlers() {
    let mut cell: Reactive<u32, u8> = Reactive::new(0);
    cell.on_changed(1);
    cell.on_changed(2);
    let (old1, fired1) = cell.set(5);
    assert_eq!(old1, 0);
    assert_eq!(fired1.len(), 2);
    // re-asserting the same value still schedules every handler
    let (old2, fired2) = cell.set(5);
    assert_eq!(old2, 5);
    assert_eq!(fired2.len(), 2);
}

#[test]
fn set_dist_schedules_at_most_once_for_a_repeated_value() {
    let mut cell: Reactive<u32, u8> = Reactive::new(0);
    cell.on_changed(1);
    let (old1, fired1) = cell.set_dist(7);
    assert_eq!(old1, 0);
    assert_eq!(fired1.len(), 1);
    // the second, identical write schedules nothing
    let (old2, fired2) = cell.set_dist(7);
    assert_eq!(old2, 7);
    assert_eq!(fired2.len(), 0);
    assert!(fired2.is_empty());
}

#[test]
fn set_dist_of_current_value_is_silent() {
    let mut cell: Reactive<u32, u8> = Reactive::new(3);
    cell.on_changed(1);
    let (old, fired) = cell.set_dist(3);
    assert_eq!(old, 3);
    assert!(fired.is_empty());
}

#[test]
fn writes_return_the_previous_value() {
    let mut cell: Reactive<u32, u8> = Reactive::new(10);
    let (a, _) = cell.set(20);
    assert_eq!(a, 10);
    let (b, _) = cell.set_dist(30);
    assert_eq!(b, 20);
    assert_eq!(*cell.get(), 30);
}

#[test]
fn handlers_fire_in_registration_order() {
    let mut cell: Reactive<u32, u8> = Reactive::new(0);
    cell.on_changed(9);
    cell.on_changed(4);
    cell.on_changed(7);
    let (_, fired) = cell.set(1);
    assert_eq!(fired.len(), 3);
    assert_eq!(fired.get(0), 9);
    assert_eq!(fired.get(1), 4);
    assert_eq!(fired.get(2), 7);
}

#[test]
fn on_changed_does_not_fire_retroactively() {
    let mut cell: Reactive<u32, u8> = Reactive::new(0);
    let (_, fired) = cell.set(5);
    assert_eq!(fired.len(), 0);
    cell.on_changed(1);
    assert_eq!(*cell.get(), 5);
}
