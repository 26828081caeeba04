//! Tests of the brute-force adjacency oracle, cross-checked against the
//! spatial index.

use gridsim::checker::{LazyChecker, TestObject};
use gridsim::spatial::SpatialHash;

#[test]
fn oracle_reports_objects_within_distance() {
    let mut c = LazyChecker::new(5);
    c.insert(1, TestObject::new((0, 0)));
    c.insert(2, TestObject::new((5, 5)));
    c.insert(3, TestObject::new((6, 0)));

    let near = c.get_adjacent((0, 0));
    assert_eq!(near, vec![1, 2]);
    assert_eq!(c.get_object(3).pos, (6, 0));

    c.remove(2);
    assert_eq!(c.get_adjacent((0, 0)), vec![1]);
}

#[test]
fn oracle_and_index_agree_on_a_dense_field() {
    // Cell size 1 with radius d makes the index's cell neighborhood match
    // the oracle's Chebyshev ball exactly.
    let d = 2;
    let mut oracle = LazyChecker::new(d);
    let mut index = SpatialHash::<i32>::new(1, (-8, -8), (8, 8), d);
    let mut id = 0;
    for x in -4..=4 {
        for y in -4..=4 {
            oracle.insert(id, TestObject::new((x, y)));
            index.insert(id, 0, (x, y));
            id += 1;
        }
    }
    for qx in -3..=3 {
        for qy in -3..=3 {
            let mut a = oracle.get_adjacent((qx, qy));
            let mut b: Vec<i32> =
                index.for_each_adjacent((qx, qy)).into_iter().map(|e| e.0).collect();
            a.sort();
            b.sort();
            assert_eq!(a, b);
        }
    }
}
