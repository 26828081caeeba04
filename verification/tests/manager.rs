//! Tests of the session manager: the join lifecycle, the duplicate-login
//! guard, persistence requests, eviction, and the friend-invite flows.

use gridsim::collision::CollisionArray;
use gridsim::events::{GameEvent, GenericPlayerEvent, ServerEvent};
use gridsim::manager::{DbRequest, GameManager, PLAYER_DATA_TIMEOUT};
use gridsim::playerdata::PlayerData;

fn manager_with_map() -> GameManager {
    let mut m = GameManager::new(String::from("srv1"));
    m.register_map(String::from("map1"), CollisionArray::from_used_rect((0, 0), (31, 31)));
    m
}

fn join(m: &mut GameManager, net_id: i32, pid: i32, name: &str) {
    m.push_game_event(GameEvent::PlayerJoined { net_id, pid });
    m.tick();
    let requests = m.drain_db_requests();
    assert!(requests.iter().any(|r| matches!(r,
        DbRequest::Retrieve { pid: p, lock: true } if *p == pid)));
    m.on_db_retrieved(pid, Some(PlayerData::from_name(String::from(name), pid)));
}

#[test]
fn a_join_loads_spawns_and_activates() {
    let mut m = manager_with_map();
    join(&mut m, 7, 100, "alice");
    assert_eq!(m.get_pid_net_id(100), Some(7));
    assert_eq!(m.instance_count(), 1);
    let events = m.drain_server_events();
    assert!(events.iter().any(|e| matches!(e,
        ServerEvent::PlayerDataResponse { net_id: 7, .. })));
}

#[test]
fn a_join_for_an_active_pid_is_rejected_and_changes_nothing() {
    let mut m = manager_with_map();
    join(&mut m, 7, 100, "alice");
    let _ = m.drain_server_events();

    // The same pid tries to join on a second connection.
    m.push_game_event(GameEvent::PlayerJoined { net_id: 8, pid: 100 });
    m.tick();
    let events = m.drain_server_events();
    assert!(events.iter().any(|e| matches!(e,
        ServerEvent::PlayerForceDisconnect { net_id: 8 })));
    // No retrieval was issued and the existing entry is untouched.
    assert!(m.drain_db_requests().is_empty());
    assert_eq!(m.get_pid_net_id(100), Some(7));
}

#[test]
fn a_malformed_load_force_disconnects_the_connection() {
    let mut m = manager_with_map();
    m.push_game_event(GameEvent::PlayerJoined { net_id: 9, pid: 42 });
    m.tick();
    let _ = m.drain_db_requests();
    m.on_db_retrieved(42, None);
    let events = m.drain_server_events();
    assert!(events.iter().any(|e| matches!(e,
        ServerEvent::PlayerForceDisconnect { net_id: 9 })));
    assert_eq!(m.get_pid_net_id(42), None);
}

#[test]
fn a_disconnect_saves_with_unlock_and_caches_the_record() {
    let mut m = manager_with_map();
    join(&mut m, 7, 100, "alice");
    let _ = m.drain_db_requests();

    m.push_game_event(GameEvent::PlayerDisconnected { net_id: 7 });
    m.tick();
    let requests = m.drain_db_requests();
    assert!(requests.iter().any(|r| matches!(r,
        DbRequest::Save { pid: 100, unlock: true, data } if data.server_name.is_empty())));
    // The pid is no longer online, but its record is cached.
    assert_eq!(m.get_pid_net_id(100), None);
}

#[test]
fn a_cached_record_ages_out() {
    let mut m = manager_with_map();
    join(&mut m, 7, 100, "alice");
    m.push_game_event(GameEvent::PlayerDisconnected { net_id: 7 });
    m.tick();
    let _ = m.drain_db_requests();
    let _ = m.drain_server_events();

    // An immediate lookup is served from the cache without a new retrieval.
    m.push_game_event(GameEvent::PDataRequest { pid: 100, net_id: 20 });
    m.tick();
    assert!(m.drain_db_requests().is_empty());
    assert!(m.drain_server_events().iter().any(|e| matches!(e,
        ServerEvent::PlayerDataResponse { net_id: 20, .. })));

    // After the idle timeout the cache is evicted; the next lookup goes to
    // the collaborator again.
    for _ in 0..=PLAYER_DATA_TIMEOUT {
        m.tick();
    }
    m.push_game_event(GameEvent::PDataRequest { pid: 100, net_id: 21 });
    m.tick();
    let requests = m.drain_db_requests();
    assert!(requests.iter().any(|r| matches!(r,
        DbRequest::Retrieve { pid: 100, lock: false })));
}

#[test]
fn friend_invites_expire_softly() {
    let mut m = manager_with_map();
    join(&mut m, 7, 100, "alice");
    let _ = m.drain_server_events();

    // Accepting an invite that never existed yields an expired notice.
    m.push_game_event(GameEvent::GenericEvent {
        event: GenericPlayerEvent::FriendAccept { pid: 999 },
        net_id: 7,
    });
    m.tick();
    let events = m.drain_server_events();
    assert!(events.iter().any(|e| matches!(e,
        ServerEvent::PlayerChat { text, net_id: 7, is_dm: false, .. }
            if text == "Friend invite expired.")));
    assert_eq!(m.get_pid_net_id(100), Some(7));
}

#[test]
fn an_accepted_invite_makes_both_players_friends() {
    let mut m = manager_with_map();
    join(&mut m, 7, 100, "alice");
    join(&mut m, 8, 200, "bob");
    let _ = m.drain_server_events();

    m.push_game_event(GameEvent::GenericEvent {
        event: GenericPlayerEvent::FriendRequest { pid: 200 },
        net_id: 7,
    });
    m.tick();
    let events = m.drain_server_events();
    assert!(events.iter().any(|e| matches!(e,
        ServerEvent::GenericResponse {
            response: gridsim::events::GenericServerResponse::GotFriendRequest { pid: 100, .. },
            net_id: 8,
        })));

    m.push_game_event(GameEvent::GenericEvent {
        event: GenericPlayerEvent::FriendAccept { pid: 100 },
        net_id: 8,
    });
    m.tick();
    let alice = m.get_net_id_playerdata(7).unwrap();
    let bob = m.get_net_id_playerdata(8).unwrap();
    assert!(alice.friends.contains(&200));
    assert!(bob.friends.contains(&100));
}

#[test]
fn shutdown_saves_and_disconnects_everyone() {
    let mut m = manager_with_map();
    join(&mut m, 7, 100, "alice");
    join(&mut m, 8, 200, "bob");
    let _ = m.drain_db_requests();
    let _ = m.drain_server_events();

    m.full_save();
    assert!(m.is_shutting_down());
    let requests = m.drain_db_requests();
    assert_eq!(requests.iter().filter(|r| matches!(r,
        DbRequest::Save { unlock: true, .. })).count(), 2);
    let events = m.drain_server_events();
    assert!(events.iter().any(|e| matches!(e,
        ServerEvent::PlayerForceDisconnect { net_id: 7 })));
    assert!(events.iter().any(|e| matches!(e,
        ServerEvent::PlayerForceDisconnect { net_id: 8 })));
    assert_eq!(m.get_pid_net_id(100), None);
}

#[test]
fn a_transfer_moves_the_player_atomically() {
    let mut m = manager_with_map();
    m.register_map(String::from("map2"), CollisionArray::from_used_rect((0, 0), (31, 31)));
    join(&mut m, 7, 100, "alice");
    let _ = m.drain_server_events();

    m.push_game_event(GameEvent::PlayerJoinInstance {
        mapname: String::from("map2"),
        x: 3,
        y: 4,
        net_id: 7,
    });
    m.tick();
    assert_eq!(m.instance_count(), 2);
    let d = m.get_net_id_playerdata(7).unwrap();
    assert_eq!((d.x, d.y), (3, 4));
    assert_eq!(d.location, "map2");
    // Still one active entry for the pid, still the same connection.
    assert_eq!(m.get_pid_net_id(100), Some(7));
}

#[test]
fn ticking_instances_resolves_buffered_moves() {
    let mut m = manager_with_map();
    join(&mut m, 7, 100, "alice");
    m.push_game_event(GameEvent::PlayerMove { x: 1, y: 0, speed: 1, net_id: 7 });
    m.tick();
    m.tick_instances();
    let d = m.get_net_id_playerdata(7).unwrap();
    assert_eq!((d.x, d.y), (1, 0));
}

#[test]
fn direct_messages_reach_online_targets() {
    let mut m = manager_with_map();
    join(&mut m, 7, 100, "alice");
    join(&mut m, 8, 200, "bob");
    let _ = m.drain_server_events();

    // Chat addressed at a pid becomes a direct message for its connection.
    m.push_game_event(GameEvent::PlayerChat {
        text: String::from("psst"),
        target_pid: 200,
        net_id: 7,
    });
    // The chat becomes a direct-message game event, processed next tick.
    m.tick();
    m.tick();
    let events = m.drain_server_events();
    assert!(events.iter().any(|e| matches!(e,
        ServerEvent::PlayerChat { text, is_dm: true, net_id: 8, .. } if text == "psst")));
}

#[test]
fn lookups_for_unknown_pids_wait_for_the_load() {
    let mut m = manager_with_map();
    join(&mut m, 7, 100, "alice");
    let _ = m.drain_server_events();
    let _ = m.drain_db_requests();

    m.push_game_event(GameEvent::PDataRequest { pid: 555, net_id: 7 });
    m.tick();
    let requests = m.drain_db_requests();
    assert!(requests.iter().any(|r| matches!(r,
        DbRequest::Retrieve { pid: 555, lock: false })));
    assert!(m.drain_server_events().is_empty());

    m.on_db_retrieved(555, Some(PlayerData::from_name(String::from("carol"), 555)));
    let events = m.drain_server_events();
    assert!(events.iter().any(|e| matches!(e,
        ServerEvent::PlayerDataResponse { net_id: 7, .. })));
    // Nobody was joining with that pid, so it stays offline (cached).
    assert_eq!(m.get_pid_net_id(555), None);
}
