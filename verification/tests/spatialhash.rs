//! Tests of the grid-bucketed spatial index: construction, coordinate
//! mapping, insertion, removal, relocation, and the incremental
//! newly-adjacent walk.

use gridsim::spatial::{MoveDelta, SpatialHash};

fn payload() -> i32 {
    0
}

#[test]
fn test_new_empty_grid() {
    let hash = SpatialHash::<i32>::new(8, (0, 0), (31, 31), 3);

    assert_eq!(hash.grid_size(), 8);
    assert_eq!(hash.topleft(), (0, 0));
    // 0/8 = 0, 31/8 = 3
    // 0, 1, 2, 3 -> 4 width
    assert_eq!(hash.width(), 4);
    assert_eq!(hash.check_radius(), 3);
    assert_eq!(hash.bucket_count(), 16); // 4 * 4 = 16 cells
}

#[test]
fn test_smallpos_conversion() {
    let hash = SpatialHash::<i32>::new(8, (0, 0), (31, 31), 3);

    assert_eq!(hash.get_smallpos((0, 0)), (0, 0));
    assert_eq!(hash.get_smallpos((7, 7)), (0, 0));
    assert_eq!(hash.get_smallpos((8, 8)), (1, 1));
    assert_eq!(hash.get_smallpos((15, 15)), (1, 1));

    assert_eq!(hash.get_smallpos((-1, -1)), (-1, -1));
    assert_eq!(hash.get_smallpos((-8, -17)), (-1, -3));
    assert_eq!(hash.get_smallpos((-9, -16)), (-2, -2));
}

#[test]
fn test_index_conversion() {
    let hash = SpatialHash::<i32>::new(8, (0, 0), (31, 31), 3);

    assert_eq!(hash.smallpos_to_index((0, 0)), Some(0));
    assert_eq!(hash.smallpos_to_index((3, 0)), Some(3));
    assert_eq!(hash.smallpos_to_index((0, 3)), Some(12));
    assert_eq!(hash.smallpos_to_index((3, 3)), Some(15));

    assert_eq!(hash.smallpos_to_index((-1, 0)), None);
    assert_eq!(hash.smallpos_to_index((0, -11)), None);
    assert_eq!(hash.smallpos_to_index((3, -2)), None);
    assert_eq!(hash.smallpos_to_index((-1, 2)), None);

    assert_eq!(hash.smallpos_to_index((4, 3)), None);
}

#[test]
fn test_insert_and_query_single_element() {
    let mut hash = SpatialHash::<i32>::new(8, (0, 0), (31, 31), 3);
    let player_data = payload();

    hash.insert(42, player_data, (10, 10));

    // Check that element was inserted correctly
    let index = hash.pos_to_index((10, 10)).unwrap();
    assert_eq!(hash.bucket_at(index).len(), 1);
    assert_eq!(hash.bucket_at(index)[0].0, 42);

    // Verify it can be found when querying adjacent cells
    let mut found_ids = Vec::new();
    for item in hash.for_each_adjacent((10, 10)) {
        found_ids.push(item.0);
    }

    assert_eq!(found_ids.len(), 1);
    assert_eq!(found_ids[0], 42);
}

#[test]
fn test_insert_multiple_elements_same_cell() {
    let mut hash = SpatialHash::<i32>::new(8, (0, 0), (31, 31), 3);
    let player_data = payload();

    hash.insert(1, player_data, (10, 10));
    hash.insert(2, player_data, (11, 10));

    let index = hash.pos_to_index((10, 9)).unwrap();
    assert_eq!(hash.bucket_at(index).len(), 2);
    assert_eq!(hash.bucket_at(index)[0].0, 1);
    assert_eq!(hash.bucket_at(index)[1].0, 2);
}

#[test]
fn test_insert_different_cells() {
    let mut hash = SpatialHash::<i32>::new(8, (0, 0), (31, 31), 3);
    let player_data = payload();

    hash.insert(1, player_data, (10, 10)); // Cell (1,1)
    hash.insert(2, player_data, (20, 20)); // Cell (2,2)

    let index1 = hash.pos_to_index((10, 10)).unwrap();
    let index2 = hash.pos_to_index((20, 20)).unwrap();

    assert_eq!(hash.bucket_at(index1).len(), 1);
    assert_eq!(hash.bucket_at(index2).len(), 1);
    assert_eq!(hash.bucket_at(index1)[0].0, 1);
    assert_eq!(hash.bucket_at(index2)[0].0, 2);
}

#[test]
fn test_remove_existing_element() {
    let mut hash = SpatialHash::<i32>::new(8, (0, 0), (31, 31), 3);
    let player_data = payload();

    hash.insert(42, player_data, (10, 10));
    let removed = hash.remove(42, (10, 10));

    assert!(removed.is_some());
    assert_eq!(removed.unwrap().0, 42);

    let index = hash.pos_to_index((10, 10)).unwrap();
    assert_eq!(hash.bucket_at(index).len(), 0);
}

#[test]
fn test_remove_nonexistent_element() {
    let mut hash = SpatialHash::<i32>::new(8, (0, 0), (31, 31), 3);
    let player_data = payload();

    hash.insert(42, player_data, (10, 10));
    let removed = hash.remove(99, (10, 10));

    assert!(removed.is_none());
    // Should still have the original element
    let index = hash.pos_to_index((10, 10)).unwrap();
    assert_eq!(hash.bucket_at(index).len(), 1);
    assert_eq!(hash.bucket_at(index)[0].0, 42);
}

#[test]
fn test_update_position_same_cell() {
    let mut hash = SpatialHash::<i32>::new(8, (0, 0), (31, 31), 3);
    let player_data = payload();

    hash.insert(42, player_data, (10, 10));
    hash.update_pos(42, (10, 10), (15, 15)); // Same cell

    let index = hash.pos_to_index((10, 10)).unwrap();
    assert_eq!(hash.bucket_at(index).len(), 1);
    assert_eq!(hash.bucket_at(index)[0].0, 42);
}

#[test]
fn test_update_position_different_cells() {
    let mut hash = SpatialHash::<i32>::new(8, (0, 0), (31, 31), 3);
    let player_data = payload();

    hash.insert(42, player_data, (10, 10)); // Cell (1,1)
    hash.update_pos(42, (10, 10), (20, 20)); // Cell (2,2)

    let old_index = hash.pos_to_index((10, 10)).unwrap();
    let new_index = hash.pos_to_index((20, 20)).unwrap();

    assert_eq!(hash.bucket_at(old_index).len(), 0);
    assert_eq!(hash.bucket_at(new_index).len(), 1);
    assert_eq!(hash.bucket_at(new_index)[0].0, 42);
}

#[test]
fn test_query_adjacent_elements() {
    let mut hash = SpatialHash::<i32>::new(8, (0, 0), (31, 31), 3);
    let player_data = payload();

    // Insert elements in cells that should be adjacent to center cell
    hash.insert(1, player_data, (10, 10)); // Cell (1,1)
    hash.insert(2, player_data, (20, 20)); // Cell (2,2)
    hash.insert(3, player_data, (5, 5)); // Cell (0,0)

    let mut found_ids = Vec::new();
    for item in hash.for_each_adjacent((15, 15)) {
        found_ids.push(item.0);
    }

    // Should find all three elements since they're within check_radius of (1,1)
    assert_eq!(found_ids.len(), 3);
    assert!(found_ids.contains(&1));
    assert!(found_ids.contains(&2));
    assert!(found_ids.contains(&3));
}

#[test]
fn test_query_adjacent_no_elements() {
    let mut hash = SpatialHash::<i32>::new(8, (0, 0), (31, 31), 1);
    let player_data = payload();

    // Insert elements in cells that should be adjacent to center cell
    hash.insert(1, player_data, (10, 10)); // Cell (1,1)
    hash.insert(2, player_data, (20, 20)); // Cell (2,2)
    hash.insert(3, player_data, (5, 5)); // Cell (0,0)

    let mut found_ids = Vec::new();
    for item in hash.for_each_adjacent((5, 6)) {
        found_ids.push(item.0);
    }

    assert_eq!(found_ids.len(), 2);
    assert!(found_ids.contains(&1));
    assert!(!found_ids.contains(&2)); // (2, 2 is outside of check radius of 1 around 0, 0)
    assert!(found_ids.contains(&3));
}

#[test]
fn test_negative_coordinates() {
    let mut hash = SpatialHash::<i32>::new(8, (-16, -16), (15, 15), 3);
    let player_data = payload();

    // Test negative coordinates
    hash.insert(42, player_data, (-10, -10)); // Should be in cell (-2,-2)

    let index = hash.smallpos_to_index((-2, -2)).unwrap();
    assert_eq!(hash.bucket_at(index).len(), 1);
    assert_eq!(hash.bucket_at(index)[0].0, 42);
}

#[test]
fn test_pos_to_index_out_of_bounds() {
    let hash = SpatialHash::<i32>::new(8, (0, 0), (31, 31), 3);

    assert_eq!(hash.pos_to_index((-1, 0)), None);
    assert_eq!(hash.pos_to_index((0, -1)), None);
    assert_eq!(hash.pos_to_index((32, 0)), None);
    assert_eq!(hash.pos_to_index((0, 32)), None);
}

#[test]
fn test_get_existing_element() {
    let mut hash = SpatialHash::<i32>::new(8, (0, 0), (31, 31), 3);
    let player_data = payload();

    hash.insert(42, player_data, (10, 10));

    let result = hash.get((10, 10), 42);
    assert!(result.is_some());

    let result = hash.get((10, 10), 99);
    assert!(result.is_none());
}

#[test]
fn test_update_position_nonexistent_element() {
    let mut hash = SpatialHash::<i32>::new(8, (0, 0), (31, 31), 3);

    let result = hash.update_pos(42, (10, 10), (20, 20));
    assert!(matches!(result, MoveDelta::NoMove));

    let mut count = 0;
    for _item in result.for_each_with(&hash) {
        count += 1;
    }

    assert_eq!(count, 0);
}

#[test]
fn test_move_delta_no_move() {
    let mut hash = SpatialHash::<i32>::new(8, (0, 0), (31, 31), 1);
    let player_data = payload();

    // Insert elements in cells that will be adjacent to the new position
    hash.insert(1, player_data, (10, 10)); // Cell (1,1) - should be adjacent to (1,1)
    hash.insert(2, player_data, (20, 20)); // Cell (2,2) - should be adjacent to (1,1)
    hash.insert(3, player_data, (5, 5)); // Cell (0,0) - should be adjacent to (1,1)

    // Move from (10, 10) to (15, 15) - same cell
    let result = hash.update_pos(1, (10, 10), (15, 15));
    assert!(matches!(result, MoveDelta::NoMove));
}

#[test]
fn test_move_delta_some_move() {
    let mut hash = SpatialHash::<i32>::new(8, (0, 0), (31, 31), 3);
    let player_data = payload();

    // Insert elements in cells that will be adjacent to the new position
    hash.insert(1, player_data, (10, 10)); // Cell (1,1)
    hash.insert(2, player_data, (20, 20)); // Cell (2,2)
    hash.insert(3, player_data, (5, 5)); // Cell (0,0)

    // Move from (10, 10) to (25, 25) - different cell (3,3)
    let delta = hash.update_pos(1, (10, 10), (25, 25));

    // Should return a Delta since it moved to a different cell
    match delta {
        MoveDelta::Delta { from, to, check_radius, exclude_id } => {
            assert_eq!(from, (1, 1));
            assert_eq!(to, (3, 3));
            assert_eq!(check_radius, 3);
            assert_eq!(exclude_id, 1);
        }
        MoveDelta::NoMove => panic!("Expected Delta, got NoMove"),
    }
}

#[test]
fn test_move_delta_for_each_with_adjacent_elements() {
    let mut hash = SpatialHash::<i32>::new(8, (0, 0), (31, 31), 1);
    let player_data = payload();

    hash.insert(1, player_data, (5, 5)); // Cell (0,0)
    hash.insert(2, player_data, (20, 20)); // Cell (2,2)
    hash.insert(3, player_data, (10, 10)); // Cell (1,1)

    // Move from (5, 5) to (16, 16) - to different cell (2,2)
    let delta = hash.update_pos(1, (5, 5), (16, 16));

    let mut found_ids = Vec::new();
    for item in delta.for_each_with(&hash) {
        found_ids.push(item.0);
    }

    println!("{:?}", found_ids);

    // Should find only the elements that are now within adjacency range of (2,2) but weren't before
    // That is - id 2
    assert_eq!(found_ids.len(), 1);
    assert_eq!(found_ids[0], 2);
}

#[test]
fn test_move_delta_for_each_wide_check_radius() {
    let mut hash = SpatialHash::<i32>::new(8, (0, 0), (60, 60), 3);
    let player_data = payload();

    // Insert elements that are NOT in any adjacent cell to new position
    hash.insert(1, player_data, (10, 10)); // Cell (1,1)
    hash.insert(2, player_data, (50, 50)); // Cell (6,6)
    hash.insert(3, player_data, (32, 32)); // Cell (4,4)
    hash.insert(4, player_data, (40, 40)); // Cell (5,5)

    // Move from (10, 10) to (25, 25) - different cell (3,3)
    let delta = hash.update_pos(1, (10, 10), (25, 25));

    let mut found_ids = Vec::new();

    for item in delta.for_each_with(&hash) {
        found_ids.push(item.0);
    }

    // Elements with ids 2 and 4 should enter the adjacency
    // We do not know the order they will appear though.
    assert_eq!(found_ids.len(), 2);
    assert!(found_ids.contains(&2));
    assert!(found_ids.contains(&4));
}

#[test]
fn spawn_query_same_cell_scenario() {
    // Grid (0,0)-(31,31), cell size 8, radius 3: four cells each axis.
    let mut hash = SpatialHash::<i32>::new(8, (0, 0), (31, 31), 3);
    assert_eq!(hash.width(), 4);
    assert_eq!(hash.height(), 4);

    hash.insert(42, payload(), (10, 10));
    let adjacent: Vec<i32> = hash.for_each_adjacent((15, 15)).into_iter().map(|e| e.0).collect();
    assert_eq!(adjacent, vec![42]);
}

#[test]
fn newly_adjacent_skips_mover_and_old_neighbors() {
    // Move id 1 from (5,5) to (16,16) with radius 1: the id at (20,20) just
    // entered the neighborhood, the one at (10,10) was already in it, and
    // the mover itself is never reported.
    let mut hash = SpatialHash::<i32>::new(8, (0, 0), (31, 31), 1);
    hash.insert(1, payload(), (5, 5));
    hash.insert(7, payload(), (20, 20));
    hash.insert(9, payload(), (10, 10));

    let delta = hash.update_pos(1, (5, 5), (16, 16));
    let newly: Vec<i32> = delta.for_each_with(&hash).into_iter().map(|e| e.0).collect();
    assert_eq!(newly, vec![7]);
    assert!(!newly.contains(&1));
    assert!(!newly.contains(&9));
}

#[test]
fn negative_quadrant_positions_share_a_cell() {
    let hash = SpatialHash::<i32>::new(8, (-16, -16), (15, 15), 3);
    let expect = hash.get_smallpos((-9, -16));
    assert_eq!(expect, (-2, -2));
    for x in -16..=-9 {
        for y in -16..=-9 {
            assert_eq!(hash.get_smallpos((x, y)), expect);
        }
    }
}

#[test]
fn payload_can_be_edited_in_place() {
    let mut hash = SpatialHash::<i32>::new(8, (0, 0), (31, 31), 3);
    hash.insert(42, 7, (10, 10));

    if let Some(p) = hash.get_mut((10, 10), 42) {
        *p = 9;
    } else {
        panic!("expected a payload");
    }
    assert_eq!(hash.get((10, 10), 42), Some(&9));
    assert!(hash.get_mut((10, 10), 99).is_none());
}
