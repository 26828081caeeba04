//! Tests of the instance tick loop: movement resolution against the
//! collision grid, walk triggers, script effects, and chat.

use gridsim::collision::CollisionArray;
use gridsim::entity::{Entity, ScriptResponse};
use gridsim::events::{EQueue, GameEvent, GenericPlayerEvent, ServerEvent};
use gridsim::instance::{Instance, ScriptTrigger, TriggerKind};
use gridsim::player::Player;
use gridsim::playerdata::PlayerData;

fn open_map() -> CollisionArray {
    CollisionArray::from_used_rect((0, 0), (31, 31))
}

fn player_at(pid: i32, x: i32, y: i32) -> Player {
    let mut d = PlayerData::from_name(format!("p{}", pid), pid);
    d.x = x;
    d.y = y;
    Player::new(d)
}

#[test]
fn a_legal_move_commits_after_its_delay() {
    let mut inst = Instance::new(String::from("m"), open_map());
    let mut q = EQueue::new();
    inst.spawn_player(player_at(1, 5, 5), 10, &mut q);

    inst.player_move(6, 5, 1, 10);
    inst.tick(&mut q);
    let p = inst.get_net_id_playerdata(10).unwrap();
    assert_eq!((p.data.x, p.data.y), (6, 5));
}

#[test]
fn a_move_into_a_blocked_cell_is_rejected_and_dequeued() {
    let mut col = open_map();
    col.set_at(6, 5, true);
    let mut inst = Instance::new(String::from("m"), col);
    let mut q = EQueue::new();
    inst.spawn_player(player_at(1, 5, 5), 10, &mut q);

    inst.player_move(6, 5, 1, 10);
    inst.tick(&mut q);
    let p = inst.get_net_id_playerdata(10).unwrap();
    assert_eq!((p.data.x, p.data.y), (5, 5));
    // The rejected move is gone; another tick does not retry it.
    inst.tick(&mut q);
    let p = inst.get_net_id_playerdata(10).unwrap();
    assert_eq!((p.data.x, p.data.y), (5, 5));
}

#[test]
fn a_jump_further_than_one_step_is_rejected() {
    let mut inst = Instance::new(String::from("m"), open_map());
    let mut q = EQueue::new();
    inst.spawn_player(player_at(1, 5, 5), 10, &mut q);

    inst.player_move(9, 9, 1, 10);
    inst.tick(&mut q);
    let p = inst.get_net_id_playerdata(10).unwrap();
    assert_eq!((p.data.x, p.data.y), (5, 5));
}

#[test]
fn a_move_waits_for_its_speed() {
    let mut inst = Instance::new(String::from("m"), open_map());
    let mut q = EQueue::new();
    inst.spawn_player(player_at(1, 5, 5), 10, &mut q);

    inst.player_move(5, 6, 3, 10);
    inst.tick(&mut q);
    assert_eq!(inst.get_net_id_playerdata(10).unwrap().data.y, 5);
    inst.tick(&mut q);
    assert_eq!(inst.get_net_id_playerdata(10).unwrap().data.y, 5);
    inst.tick(&mut q);
    assert_eq!(inst.get_net_id_playerdata(10).unwrap().data.y, 6);
}

#[test]
fn walking_onto_a_walkable_entity_raises_a_trigger() {
    let mut inst = Instance::new(String::from("m"), open_map());
    let mut q = EQueue::new();
    inst.spawn_player(player_at(1, 5, 5), 10, &mut q);
    inst.handle_entity_response(
        0,
        ScriptResponse::register_entity(Entity::new((6, 5), false, 1, true, String::new())),
        &mut q,
    );

    inst.player_move(6, 5, 1, 10);
    inst.tick(&mut q);

    let triggers: Vec<ScriptTrigger> = inst.drain_triggers();
    assert_eq!(triggers.len(), 1);
    assert_eq!(triggers[0].entity_id, 1);
    assert_eq!(triggers[0].net_id, 10);
    assert_eq!(triggers[0].kind, TriggerKind::Walk);
    assert!(inst.drain_triggers().is_empty());
}

#[test]
fn interacting_with_a_nearby_entity_raises_a_trigger() {
    let mut inst = Instance::new(String::from("m"), open_map());
    let mut q = EQueue::new();
    inst.spawn_player(player_at(1, 5, 5), 10, &mut q);
    inst.handle_entity_response(
        0,
        ScriptResponse::register_entity(Entity::new((6, 5), true, 1, false, String::new())),
        &mut q,
    );

    inst.handle_generic_event(
        GenericPlayerEvent::Interaction { x: 6, y: 5, entity_id: 1 },
        10,
        &mut q,
    );
    let triggers = inst.drain_triggers();
    assert_eq!(triggers.len(), 1);
    assert_eq!(triggers[0].kind, TriggerKind::Interaction);
}

#[test]
fn interacting_from_too_far_earns_a_notice() {
    let mut inst = Instance::new(String::from("m"), open_map());
    let mut q = EQueue::new();
    inst.spawn_player(player_at(1, 5, 5), 10, &mut q);
    inst.handle_entity_response(
        0,
        ScriptResponse::register_entity(Entity::new((9, 9), true, 1, false, String::new())),
        &mut q,
    );
    let _ = q.iter_server();

    inst.handle_generic_event(
        GenericPlayerEvent::Interaction { x: 9, y: 9, entity_id: 1 },
        10,
        &mut q,
    );
    assert!(inst.drain_triggers().is_empty());
    let events = q.iter_server();
    assert_eq!(events.len(), 1);
    assert!(matches!(&events[0],
        ServerEvent::PlayerChat { text, net_id: 10, is_dm: false, .. } if text == "Too far!"));
}

#[test]
fn script_effects_change_gold_and_items() {
    let mut inst = Instance::new(String::from("m"), open_map());
    let mut q = EQueue::new();
    inst.spawn_player(player_at(1, 5, 5), 10, &mut q);

    inst.handle_entity_response(0, ScriptResponse::change_gold(25, 10), &mut q);
    assert_eq!(inst.get_net_id_playerdata(10).unwrap().data.gold, 25);

    let item = gridsim::item::Item::new(
        String::from("log"), String::from("Log"), String::from("wood"), true, 2);
    inst.handle_entity_response(0, ScriptResponse::give_item(item, 10), &mut q);
    let p = inst.get_net_id_playerdata(10).unwrap();
    assert_eq!(p.data.equipped_item.as_ref().unwrap().count, 2);

    inst.handle_entity_response(
        0, ScriptResponse::take_item(String::from("log"), 2, 10), &mut q);
    let p = inst.get_net_id_playerdata(10).unwrap();
    assert!(p.data.equipped_item.is_none());

    inst.handle_entity_response(
        0, ScriptResponse::give_xp(String::from("mining"), 100, 10), &mut q);
    let p = inst.get_net_id_playerdata(10).unwrap();
    assert_eq!(p.data.skills.get(gridsim::skills::Skill::Mining), 2);
}

#[test]
fn zone_chat_reaches_every_resident() {
    let mut inst = Instance::new(String::from("m"), open_map());
    let mut q = EQueue::new();
    inst.spawn_player(player_at(1, 5, 5), 10, &mut q);
    inst.spawn_player(player_at(2, 6, 5), 11, &mut q);
    let _ = q.iter_server();

    inst.broadcast_chat(String::from("hello"), -1, 10, &mut q);
    let events = q.iter_server();
    let mut recipients = Vec::new();
    for e in events.iter() {
        if let ServerEvent::PlayerChat { text, net_id, .. } = e {
            assert_eq!(text, "hello");
            recipients.push(*net_id);
        }
    }
    assert_eq!(recipients, vec![10, 11]);
}

#[test]
fn a_despawned_player_is_announced_next_tick() {
    let mut inst = Instance::new(String::from("m"), open_map());
    let mut q = EQueue::new();
    inst.spawn_player(player_at(1, 5, 5), 10, &mut q);
    inst.spawn_player(player_at(2, 6, 5), 11, &mut q);
    let _ = q.iter_server();

    let gone = inst.despawn_player(10);
    assert_eq!(gone.unwrap().pid(), 1);
    assert!(inst.get_net_id_playerdata(10).is_none());
    assert!(inst.despawn_player(10).is_none());

    inst.tick(&mut q);
    let events = q.iter_server();
    assert!(events.iter().any(|e| matches!(e,
        ServerEvent::GenericResponse {
            response: gridsim::events::GenericServerResponse::DespawnPlayer { pid: 1 },
            net_id: 11,
        })));
}

#[test]
fn a_completed_move_is_broadcast_on_the_next_tick() {
    let mut inst = Instance::new(String::from("m"), open_map());
    let mut q = EQueue::new();
    inst.spawn_player(player_at(1, 5, 5), 10, &mut q);
    inst.spawn_player(player_at(2, 6, 5), 11, &mut q);
    inst.player_move(5, 6, 1, 10);
    inst.tick(&mut q);
    let _ = q.iter_server();

    // The tick after the commit reports the mover's new position to both
    // neighbors (including themselves).
    inst.tick(&mut q);
    let events = q.iter_server();
    let mut told = Vec::new();
    for e in events.iter() {
        if let ServerEvent::PlayerMoveResponse { x: 5, y: 6, pid: 1, net_id, .. } = e {
            told.push(*net_id);
        }
    }
    assert!(told.contains(&10));
    assert!(told.contains(&11));
}

#[test]
fn moving_entities_are_announced_to_their_neighborhood() {
    let mut inst = Instance::new(String::from("m"), open_map());
    let mut q = EQueue::new();
    inst.spawn_player(player_at(1, 5, 5), 10, &mut q);
    inst.handle_entity_response(
        0,
        ScriptResponse::register_entity(Entity::new((6, 5), false, 1, false, String::new())),
        &mut q,
    );
    let _ = q.iter_server();

    inst.handle_entity_response(1, ScriptResponse::move_self(7, 5, 2), &mut q);
    inst.tick(&mut q);
    let events = q.iter_server();
    assert!(events.iter().any(|e| matches!(e,
        ServerEvent::EntityMoveResponse { x: 7, y: 5, entity_id: 1, net_id: 10, .. })));
}

#[test]
fn inventory_rearrangement_events_apply_to_the_record() {
    let mut inst = Instance::new(String::from("m"), open_map());
    let mut q = EQueue::new();
    inst.spawn_player(player_at(1, 5, 5), 10, &mut q);

    let sword = gridsim::item::Item::new(
        String::from("sword"), String::from("Sword"), String::from("sharp"), false, 1);
    let shield = gridsim::item::Item::new(
        String::from("shield"), String::from("Shield"), String::from("wide"), false, 1);
    inst.handle_entity_response(0, ScriptResponse::give_item(sword, 10), &mut q);
    inst.handle_entity_response(0, ScriptResponse::give_item(shield, 10), &mut q);
    // Sword is equipped, shield is in slot 0.
    let p = inst.get_net_id_playerdata(10).unwrap();
    assert_eq!(p.data.equipped_item.as_ref().unwrap().id_string(), "sword");
    assert_eq!(p.data.get_item(0).unwrap().id_string(), "shield");

    // Equipping slot 0 swaps hand and slot.
    inst.handle_generic_event(GenericPlayerEvent::EquipItem { from: 0 }, 10, &mut q);
    let p = inst.get_net_id_playerdata(10).unwrap();
    assert_eq!(p.data.equipped_item.as_ref().unwrap().id_string(), "shield");
    assert_eq!(p.data.get_item(0).unwrap().id_string(), "sword");

    // Swapping two slots moves the item.
    inst.handle_generic_event(GenericPlayerEvent::SwapItems { from: 0, to: 5 }, 10, &mut q);
    let p = inst.get_net_id_playerdata(10).unwrap();
    assert!(p.data.get_item(0).is_none());
    assert_eq!(p.data.get_item(5).unwrap().id_string(), "sword");
}

#[test]
fn entity_data_requests_are_answered_for_valid_targets() {
    let mut inst = Instance::new(String::from("m"), open_map());
    let mut q = EQueue::new();
    let mut e = Entity::new((6, 5), true, 1, false, String::from("rock"));
    e.set_public_value(String::from("hue"), String::from("gray"));
    inst.handle_entity_response(0, ScriptResponse::register_entity(e), &mut q);
    let _ = q.iter_server();

    inst.get_entity_data(6, 5, 1, 10, &mut q);
    let events = q.iter_server();
    assert_eq!(events.len(), 1);
    assert!(matches!(&events[0],
        ServerEvent::EntityDataResponse { interactable: true, walkable: false,
            related_scene, entity_id: 1, net_id: 10, .. } if related_scene == "rock"));

    // A wrong id, or a position hashing to a cell without the entity, is
    // silently dropped.
    inst.get_entity_data(6, 5, 99, 10, &mut q);
    inst.get_entity_data(20, 20, 1, 10, &mut q);
    assert!(q.iter_server().is_empty());
}
