//! Tests of the event channel: accumulation in push order, exhaustive
//! drains, and the fresh-queue guarantee for late pushes.

use gridsim::events::{EQueue, GameEvent, ServerEvent};

fn net_of(e: &GameEvent) -> i32 {
    match e {
        GameEvent::PlayerDisconnected { net_id } => *net_id,
        _ => panic!("unexpected event"),
    }
}

#[test]
fn events_accumulate_in_push_order() {
    let mut q = EQueue::new();
    for tick in 1..=5 {
        q.push_game(GameEvent::PlayerDisconnected { net_id: tick });
    }
    let drained = q.iter_game();
    assert_eq!(drained.len(), 5);
    for (i, e) in drained.iter().enumerate() {
        assert_eq!(net_of(e), i as i32 + 1);
    }
}

#[test]
fn drain_returns_exactly_what_was_pushed_before_it() {
    let mut q = EQueue::new();
    q.push_game(GameEvent::PlayerDisconnected { net_id: 1 });
    q.push_game(GameEvent::PlayerDisconnected { net_id: 2 });

    let first = q.iter_game();
    assert_eq!(first.len(), 2);
    assert_eq!(net_of(&first[0]), 1);
    assert_eq!(net_of(&first[1]), 2);

    // A second drain right after returns nothing.
    let second = q.iter_game();
    assert!(second.is_empty());

    // Events raised after a drain land in the fresh queue, for next tick.
    q.push_game(GameEvent::PlayerDisconnected { net_id: 3 });
    let third = q.iter_game();
    assert_eq!(third.len(), 1);
    assert_eq!(net_of(&third[0]), 3);
}

#[test]
fn server_queue_is_independent_of_game_queue() {
    let mut q = EQueue::new();
    q.push_server(ServerEvent::PlayerForceDisconnect { net_id: 9 });
    q.push_game(GameEvent::PlayerDisconnected { net_id: 1 });

    let servers = q.iter_server();
    assert_eq!(servers.len(), 1);
    assert!(matches!(servers[0], ServerEvent::PlayerForceDisconnect { net_id: 9 }));

    let games = q.iter_game();
    assert_eq!(games.len(), 1);

    assert!(q.iter_server().is_empty());
    assert!(q.iter_game().is_empty());
}
