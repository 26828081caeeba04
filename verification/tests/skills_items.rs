//! Tests of skill parsing and item stacking.

use gridsim::item::Item;
use gridsim::skills::{Skill, Skills};

#[test]
fn skill_names_round_trip() {
    let names = Skill::skill_strs();
    assert_eq!(names.len(), 10);
    for name in names.iter() {
        let skill = Skill::try_from_str(name);
        assert!(skill.is_some());
        assert_eq!(Skill::skill_strs()[skill.unwrap().index()], *name);
    }
    assert_eq!(Skill::try_from_str("mining"), Some(Skill::Mining));
    assert_eq!(Skill::try_from_str("telekinesis"), None);
    assert_eq!(Skill::try_from_str(""), None);
}

#[test]
fn skills_start_at_level_one() {
    let s = Skills::default();
    assert_eq!(s.get(Skill::Woodcutting), 1);
    assert_eq!(s.get(Skill::Ranged), 1);
}

#[test]
fn items_stack_by_id() {
    let mut a = Item::new(
        String::from("log"), String::from("Log"), String::from("wood"), true, 3);
    let b = Item::new(
        String::from("log"), String::from("Log"), String::from("wood"), true, 4);
    assert!(a.try_combine(b).is_none());
    assert_eq!(a.count, 7);

    let c = Item::new(
        String::from("ore"), String::from("Ore"), String::from("rock"), true, 1);
    let back = a.try_combine(c);
    assert!(back.is_some());
    assert_eq!(back.unwrap().id_string(), "ore");
    assert_eq!(a.count, 7);
}

#[test]
fn items_split_off_a_stack() {
    let mut a = Item::new(
        String::from("log"), String::from("Log"), String::from("wood"), true, 5);
    let piece = a.try_split(2).unwrap();
    assert_eq!(piece.count, 2);
    assert_eq!(piece.id_string(), "log");
    assert_eq!(a.count, 3);

    // Can't reduce the stack to zero, and unstackables never split.
    assert!(a.try_split(3).is_none());
    let mut solo = Item::new(
        String::from("sword"), String::from("Sword"), String::from("sharp"), false, 1);
    assert!(solo.try_split(1).is_none());
}
