//! Tests of the persistent record: inventory insertion and removal, the
//! experience curve, and the null record.

use gridsim::item::Item;
use gridsim::playerdata::{PlayerData, MAX_ITEMS};
use gridsim::skills::Skill;

fn log_stack(count: i32) -> Item {
    Item::new(String::from("log"), String::from("Log"), String::from("wood"), true, count)
}

fn unique(i: i32) -> Item {
    Item::new(format!("relic{}", i), String::from("Relic"), String::from("old"), false, 1)
}

#[test]
fn insert_fills_hand_then_stacks() {
    let mut d = PlayerData::from_name(String::from("a"), 1);
    assert!(d.insert_item(log_stack(2)));
    assert_eq!(d.equipped_item.as_ref().unwrap().count, 2);

    // The same id stacks onto the equipped item.
    assert!(d.insert_item(log_stack(3)));
    assert_eq!(d.equipped_item.as_ref().unwrap().count, 5);

    // A different id lands on the first free slot.
    assert!(d.insert_item(unique(0)));
    assert_eq!(d.get_item(0).unwrap().id_string(), "relic0");
}

#[test]
fn insert_fails_when_full() {
    let mut d = PlayerData::from_name(String::from("a"), 1);
    assert!(d.insert_item(unique(-1)));
    for i in 0..MAX_ITEMS as i32 {
        assert!(d.insert_item(unique(i)));
    }
    assert!(!d.insert_item(unique(99)));
}

#[test]
fn remove_drains_then_empties_a_slot() {
    let mut d = PlayerData::from_name(String::from("a"), 1);
    assert!(d.insert_item(log_stack(5)));
    assert!(d.remove_item("log", 2));
    assert_eq!(d.equipped_item.as_ref().unwrap().count, 3);
    assert!(d.remove_item("log", 3));
    assert!(d.equipped_item.is_none());
    assert!(!d.remove_item("log", 1));
}

#[test]
fn xp_levels_follow_the_squared_curve() {
    let mut d = PlayerData::from_name(String::from("a"), 1);
    // Level 1 with 99 progress stays level 1.
    assert_eq!(d.add_xp(Skill::Mining, 99), 0);
    assert_eq!(d.skills.get(Skill::Mining), 1);
    // One more point crosses 1*1*100.
    assert_eq!(d.add_xp(Skill::Mining, 1), 1);
    assert_eq!(d.skills.get(Skill::Mining), 2);
    assert_eq!(d.skill_progress.get(Skill::Mining), 100);
    // 2*2*100 = 400 is the next threshold.
    assert_eq!(d.add_xp(Skill::Mining, 299), 0);
    assert_eq!(d.add_xp(Skill::Mining, 1), 1);
    assert_eq!(d.skills.get(Skill::Mining), 3);
}

#[test]
fn xp_caps_at_one_hundred() {
    let mut d = PlayerData::from_name(String::from("a"), 1);
    let delta = d.add_xp(Skill::Magic, i32::MAX);
    assert_eq!(delta, 99);
    assert_eq!(d.skills.get(Skill::Magic), 100);
    assert_eq!(d.skill_progress.get(Skill::Magic), 0);
    // A capped skill gains nothing more.
    assert_eq!(d.add_xp(Skill::Magic, 1000), 0);
}

#[test]
fn null_records_have_empty_names() {
    let null = PlayerData::null();
    assert!(null.is_null());
    let named = PlayerData::from_name(String::from("x"), 3);
    assert!(!named.is_null());
}

#[test]
fn minimal_records_blank_the_private_parts() {
    let mut d = PlayerData::from_name(String::from("a"), 1);
    d.gold = 500;
    d.friends.push(7);
    assert!(d.insert_item(log_stack(2)));
    let m = d.get_minimal();
    assert_eq!(m.name, d.name);
    assert_eq!(m.pid, 1);
    assert_eq!(m.gold, 0);
    assert!(m.friends.is_empty());
    assert!(m.equipped_item.is_some());
    for i in 0..MAX_ITEMS {
        assert!(m.get_item(i).is_none());
    }
}
