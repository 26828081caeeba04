//! Tests of the live player session: the two-slot movement buffer and the
//! change flags.

use gridsim::player::Player;
use gridsim::playerdata::PlayerData;

#[test]
fn movement_buffer_keeps_first_and_newest() {
    let mut p = Player::new(PlayerData::from_name(String::from("a"), 1));
    p.insert_next_move(1, 0, 1);
    p.insert_next_move(2, 0, 1);
    p.insert_next_move(3, 0, 1);

    // The first move is still pending; the third overwrote the second.
    assert_eq!(*p.peek_next_move(), Some((1, 0, 1)));
    p.eat_next_move();
    assert_eq!(*p.peek_next_move(), Some((3, 0, 1)));
    p.eat_next_move();
    assert_eq!(*p.peek_next_move(), None);
}

#[test]
fn peek_prefers_pending_move() {
    let mut p = Player::new(PlayerData::from_name(String::from("a"), 1));
    assert_eq!(*p.peek_next_move(), None);
    p.insert_next_move(4, 4, 2);
    assert_eq!(*p.peek_next_move(), Some((4, 4, 2)));
}

#[test]
fn position_and_change_flags() {
    let mut p = Player::new(PlayerData::from_name(String::from("a"), 7));
    p.set_full_pos(3, 4, 2);
    assert_eq!(p.get_pos(), (3, 4));
    assert_eq!(p.get_full_pos(), (3, 4, 2));
    assert_eq!(p.ticks_since_move, 0);
    assert_eq!(p.x(), 3);
    assert_eq!(p.y(), 4);
    assert_eq!(p.pid(), 7);

    assert_eq!(p.data_version(), 0);
    p.set_public_change();
    assert_eq!(p.data_version(), 1);
    assert!(p.data_just_updated);
    p.set_private_change();
    assert!(p.private_data_just_updated);

    let data = p.into_data();
    assert_eq!(data.pid, 7);
}
