use dep_obj::geometry::{Point, Vector};

#[test]
fn point_offset_moves_by_the_vector() {
    assert_eq!(
        Point { x: 1, y: 2 }.offset(Vector { x: 5, y: -10 }),
        Point { x: 6, y: -8 }
    );
}

#[test]
fn point_offset_wraps_on_overflow() {
    assert_eq!(
        Point { x: i16::MAX, y: 0 }.offset(Vector { x: 1, y: 0 }),
        Point { x: i16::MIN, y: 0 }
    );
}

#[test]
fn offset_from_recovers_the_displacement() {
    let a = Point { x: 6, y: -8 };
    let b = Point { x: 1, y: 2 };
    let d = a.offset_from(b);
    assert_eq!(d, Vector { x: 5, y: -10 });
    assert_eq!(b.offset(d), a);
}
