//! Tests of the clamped arithmetic helpers and the collision grid.

use gridsim::collision::CollisionArray;
use gridsim::{add_clamped, sub_clamped};

#[test]
fn clamped_arithmetic_saturates() {
    assert_eq!(add_clamped(1, 2), 3);
    assert_eq!(add_clamped(i32::MAX, 1), i32::MAX);
    assert_eq!(add_clamped(i32::MIN, -1), i32::MIN);
    assert_eq!(sub_clamped(5, 7), -2);
    assert_eq!(sub_clamped(i32::MIN, 1), i32::MIN);
    assert_eq!(sub_clamped(i32::MAX, -1), i32::MAX);
}

#[test]
fn collision_grid_blocks_outside_and_where_set() {
    let mut col = CollisionArray::from_used_rect((0, 0), (7, 7));
    assert!(!col.get_at(0, 0));
    assert!(!col.get_at(7, 7));
    assert!(col.get_at(8, 0));
    assert!(col.get_at(-1, 3));

    col.set_at(3, 4, true);
    assert!(col.get_at(3, 4));
    assert!(!col.get_at(4, 3));
    col.set_at(3, 4, false);
    assert!(!col.get_at(3, 4));

    // Setting out of range changes nothing.
    col.set_at(99, 99, true);
    assert!(!col.get_at(7, 7));
}

#[test]
fn empty_grid_blocks_everywhere() {
    let col = CollisionArray::new();
    assert!(col.get_at(0, 0));
    assert!(col.get_at(5, 5));
}
