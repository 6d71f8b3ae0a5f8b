use dep_obj::arena::{Arena, Handle};

#[test]
fn handle_valid_until_remove() {
    let mut arena: Arena<u32> = Arena::new();
    let h = arena.insert(|h: Handle| (41u32, h));
    assert!(arena.contains(h));
    assert_eq!(arena.try_get(h), Some(&41));
    assert_eq!(*arena.get(h), 41);
    arena.remove(h);
    assert!(!arena.contains(h));
    assert_eq!(arena.try_get(h), None);
}

#[test]
fn insert_hands_handle_to_builder() {
    // the entity can embed its own identity before it is stored
    let mut arena: Arena<(usize, u64)> = Arena::new();
    let h = arena.insert(|h: Handle| (h.into_raw_parts(), h));
    assert_eq!(*arena.get(h), (h.index, h.generation));
}

#[test]
fn reused_slot_gets_fresh_generation() {
    let mut arena: Arena<u32> = Arena::new();
    let a = arena.insert(|h: Handle| (1u32, h));
    arena.remove(a);
    let b = arena.insert(|h: Handle| (2u32, h));
    // the freed slot is reused, but under a new generation
    assert_eq!(b.index, a.index);
    assert_ne!(b.generation, a.generation);
    assert_ne!(a, b);
    // the old handle does not alias the new entity
    assert_eq!(arena.try_get(a), None);
    assert_eq!(arena.try_get(b), Some(&2));
}

#[test]
fn removal_of_one_entity_leaves_others_valid() {
    let mut arena: Arena<u32> = Arena::new();
    let a = arena.insert(|h: Handle| (1u32, h));
    let b = arena.insert(|h: Handle| (2u32, h));
    let c = arena.insert(|h: Handle| (3u32, h));
    arena.remove(b);
    assert_eq!(arena.try_get(a), Some(&1));
    assert_eq!(arena.try_get(b), None);
    assert_eq!(arena.try_get(c), Some(&3));
}

#[test]
fn replace_swaps_entity_in_place() {
    let mut arena: Arena<u32> = Arena::new();
    let a = arena.insert(|h: Handle| (7u32, h));
    let old = arena.replace(a, 9);
    assert_eq!(old, 7);
    assert_eq!(*arena.get(a), 9);
    assert!(arena.contains(a));
}

#[test]
fn raw_parts_round_trip() {
    let h = Handle::from_raw_parts((3, 5));
    assert_eq!(h.index, 3);
    assert_eq!(h.generation, 5);
    assert_eq!(h.into_raw_parts(), (3, 5));
}

#[test]
fn handles_are_ordered_and_hashable() {
    let a = Handle::from_raw_parts((0, 1));
    let b = Handle::from_raw_parts((0, 2));
    let c = Handle::from_raw_parts((1, 1));
    assert!(a < b);
    assert!(b < c);
    let mut set = std::collections::HashSet::new();
    set.insert(a);
    set.insert(b);
    assert!(set.contains(&a));
    assert!(!set.contains(&c));
}
