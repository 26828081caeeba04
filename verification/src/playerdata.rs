//! The persistent player record: identity, position, skills, inventory,
//! gold and friends, together with the inventory and experience rules the
//! simulation applies to it.

use vstd::prelude::*;
use crate::item::Item;
use crate::skills::{Skill, Skills, SkillProgress, skill_slot};
use crate::{add_clamped, clamped, find_first, lemma_find_first_spec, str_eq, sub_clamped};

verus! {

/// Capacity of the inventory grid.
pub const MAX_ITEMS: usize = 40;

/// A player's persistent record.
pub struct PlayerData {
    pub name: String,
    pub pid: i32,
    /// Name of the server currently holding the record, empty when unlocked.
    pub server_name: String,
    /// Map the player was last on.
    pub location: String,
    pub x: i32,
    pub y: i32,
    pub skills: Skills,
    pub skill_progress: SkillProgress,
    pub gold: i32,
    pub equipped_item: Option<Item>,
    pub items: Vec<Option<Item>>,
    pub friends: Vec<i32>,
}

/// A slot holding a stackable item with the given id.
pub open spec fn stacks_with(slot: Option<Item>, id: Seq<char>) -> bool {
    match slot {
        Some(e) => e.spec_stackable() && e.spec_id() == id,
        None => false,
    }
}

/// A slot holding an item with the given id.
pub open spec fn holds_id(slot: Option<Item>, id: Seq<char>) -> bool {
    match slot {
        Some(e) => e.spec_id() == id,
        None => false,
    }
}

/// The old slot after a stack of `added` more of the same item (clamped).
pub open spec fn stacked(slot_old: Option<Item>, added: int, slot_new: Option<Item>) -> bool {
    match (slot_old, slot_new) {
        (Some(a), Some(b)) => b.same_kind(a) && b.count as int == clamped(a.count + added),
        _ => false,
    }
}

/// The old slot after `amount` of its stack is taken: emptied when nothing
/// positive remains.
pub open spec fn drained(slot_old: Option<Item>, amount: int, slot_new: Option<Item>) -> bool {
    match slot_old {
        Some(a) => if clamped(a.count - amount) <= 0 {
            slot_new is None
        } else {
            match slot_new {
                Some(b) => b.same_kind(a) && b.count as int == clamped(a.count - amount),
                None => false,
            }
        },
        None => false,
    }
}

/// All fields except the skill tables.
pub open spec fn same_identity(a: PlayerData, b: PlayerData) -> bool {
    &&& a.name == b.name
    &&& a.pid == b.pid
    &&& a.server_name == b.server_name
    &&& a.location == b.location
    &&& a.x == b.x
    &&& a.y == b.y
    &&& a.gold == b.gold
    &&& a.equipped_item == b.equipped_item
    &&& a.items@ == b.items@
    &&& a.friends@ == b.friends@
}

/// All fields except the inventory (equipped slot and item grid).
pub open spec fn same_but_inventory(a: PlayerData, b: PlayerData) -> bool {
    &&& a.name == b.name
    &&& a.pid == b.pid
    &&& a.server_name == b.server_name
    &&& a.location == b.location
    &&& a.x == b.x
    &&& a.y == b.y
    &&& a.gold == b.gold
    &&& a.skills.levels() == b.skills.levels()
    &&& a.skill_progress.table() == b.skill_progress.table()
    &&& a.friends@ == b.friends@
}

/// Record equality up to the abstract contents of the container fields.
pub open spec fn like(a: PlayerData, b: PlayerData) -> bool {
    &&& same_identity(a, b)
    &&& a.skills.levels() == b.skills.levels()
    &&& a.skill_progress.table() == b.skill_progress.table()
}

/// The exact effect of storing `item` into a record (`insert_item`):
/// stacking onto the equipped slot, filling an empty hand, or landing on the
/// first inventory slot that stacks or is free; `ok` is false exactly when
/// the inventory is full.
pub open spec fn inserted(a: PlayerData, item: Item, b: PlayerData, ok: bool) -> bool {
    &&& same_but_inventory(a, b)
    &&& ({
        let id = item.spec_id();
        if stacks_with(a.equipped_item, id) {
            ok && stacked(a.equipped_item, item.count as int, b.equipped_item)
                && b.items@ == a.items@
        } else if a.equipped_item is None {
            ok && b.equipped_item == Some(item) && b.items@ == a.items@
        } else {
            b.equipped_item == a.equipped_item
                && match find_first(a.items@, |slot: Option<Item>| slot is None || stacks_with(slot, id)) {
                Some(j) => ok && (if a.items@[j] is None {
                    b.items@ == a.items@.update(j, Some(item))
                } else {
                    b.items@.len() == a.items@.len()
                        && stacked(a.items@[j], item.count as int, b.items@[j])
                        && b.items@ == a.items@.update(j, b.items@[j])
                }),
                None => !ok && b.items@ == a.items@,
            }
        }
    })
}

/// The exact effect of taking `amount` of the item `id` out of a record
/// (`remove_item`): the equipped slot first, then the first inventory slot
/// holding the id; `ok` is false exactly when no slot holds the id.
pub open spec fn removed(a: PlayerData, id: Seq<char>, amount: int, b: PlayerData, ok: bool) -> bool {
    &&& same_but_inventory(a, b)
    &&& if holds_id(a.equipped_item, id) {
        ok && drained(a.equipped_item, amount, b.equipped_item) && b.items@ == a.items@
    } else {
        b.equipped_item == a.equipped_item
            && match find_first(a.items@, |slot: Option<Item>| holds_id(slot, id)) {
            Some(j) => ok
                && b.items@.len() == a.items@.len()
                && drained(a.items@[j], amount, b.items@[j])
                && b.items@ == a.items@.update(j, b.items@[j]),
            None => !ok && b.items@ == a.items@,
        }
    }
}

/// The exact effect of adding experience to a skill (`add_xp`): the level
/// rises to the first one whose squared threshold exceeds the accumulated
/// progress, capped at 100 (which also resets the progress); `delta` is the
/// number of levels gained.
pub open spec fn xp_added(a: PlayerData, skill: Skill, amount: i32, b: PlayerData, delta: int) -> bool {
    &&& same_identity(a, b)
    &&& ({
        let slot = skill_slot(skill);
        let before = a.skills.levels()[slot] as int;
        if before == 100 {
            delta == 0
                && b.skills.levels() == a.skills.levels()
                && b.skill_progress.table() == a.skill_progress.table()
        } else {
            let p = clamped(a.skill_progress.table()[slot] + amount);
            let newl = before + delta;
            &&& delta >= 0
            &&& newl <= 100
            &&& b.skills.levels() == a.skills.levels().update(slot, newl as u8)
            &&& if newl < 100 {
                b.skill_progress.table() == a.skill_progress.table().update(slot, p as i32)
                    && p < newl * newl * 100
                    && (newl == before || p >= (newl - 1) * (newl - 1) * 100)
            } else {
                b.skill_progress.table() == a.skill_progress.table().update(slot, 0i32)
                    && p >= 99 * 99 * 100
            }
        }
    })
}

impl PlayerData {
    /// Structural invariant: a full inventory grid and bounded skill levels.
    pub open spec fn wf(self) -> bool {
        &&& self.items@.len() == MAX_ITEMS
        &&& self.skills.wf()
        &&& self.skill_progress.wf()
        &&& forall|i: int| 0 <= i < self.skills.levels().len()
            ==> #[trigger] self.skills.levels()[i] <= 100
    }

    /// A fresh record carrying only a name and a pid.
    pub fn from_name(name: String, pid: i32) -> (r: Self)
        ensures
            r.wf(),
            r.name == name,
            r.pid == pid,
            r.friends@ == Seq::<i32>::empty(),
            r.location@ == "map1"@,
            r.server_name@ == Seq::<char>::empty(),
            r.x == 0 && r.y == 0 && r.gold == 0,
            r.equipped_item is None,
            forall|i: int| 0 <= i < MAX_ITEMS ==> #[trigger] r.items@[i] is None,
    {
        let mut r = Self::default();
        r.name = name;
        r.pid = pid;
        r
    }

    /// The empty record that stands for "no such player".
    pub fn null() -> (r: Self)
        ensures
            r.wf(),
            r.name@ == Seq::<char>::empty(),
            r.location@ == Seq::<char>::empty(),
            r.pid == -1,
            r.x == 0 && r.y == 0,
    {
        let mut r = Self::default();
        r.name = String::new();
        r.location = String::new();
        r
    }

    /// Whether this is the "no such player" record: an empty name.
    pub fn is_null(&self) -> (r: bool)
        ensures
            r == (self.name@.len() == 0),
    {
        proof {
            reveal_strlit("");
        }
        let r = str_eq(self.name.as_str(), "");
        proof {
            if self.name@.len() == 0 {
                assert(self.name@ =~= ""@);
            }
        }
        r
    }

    /// Whether a record satisfies its structural invariant, decided at run
    /// time: used on records that arrive from outside (a decoded load).
    pub fn check_wf(&self) -> (r: bool)
        ensures
            r == self.wf(),
    {
        if self.items.len() != MAX_ITEMS {
            return false;
        }
        if !self.skills.check_wf() || !self.skill_progress.check_wf() {
            return false;
        }
        let mut i: usize = 0;
        while i < crate::skills::NUM_SKILLS
            invariant
                self.skills.wf(),
                i <= crate::skills::NUM_SKILLS,
                forall|k: int| 0 <= k < i ==> #[trigger] self.skills.levels()[k] <= 100,
            decreases crate::skills::NUM_SKILLS - i,
        {
            if self.skills.level_at(i) > 100 {
                return false;
            }
            i = i + 1;
        }
        true
    }

    /// The item at an inventory index, `None` for an empty or out-of-range
    /// slot.
    pub fn get_item(&self, index: usize) -> (r: Option<&Item>)
        requires
            self.wf(),
        ensures
            match r {
                Some(it) => index < MAX_ITEMS && self.items@[index as int] == Some(*it),
                None => index >= MAX_ITEMS || self.items@[index as int] is None,
            },
    {
        if index >= MAX_ITEMS {
            return None;
        }
        match &self.items[index] {
            Some(it) => Some(it),
            None => None,
        }
    }

    /// Stores an item: it stacks onto the equipped item when the ids match,
    /// fills an empty hand, and otherwise lands on the first inventory slot
    /// that stacks or is free. Returns false (changing nothing) when the
    /// inventory is full.
    pub fn insert_item(&mut self, item: Item) -> (r: bool)
        requires
            old(self).wf(),
        ensures
            final(self).wf(),
            inserted(*old(self), item, *final(self), r),
    {
        let ghost id = item.spec_id();
        match &self.equipped_item {
            Some(existing) => {
                if existing.stackable() && str_eq(existing.id_string(), item.id_string()) {
                    let mut merged = existing.clone();
                    merged.count = add_clamped(merged.count, item.count);
                    self.equipped_item = Some(merged);
                    return true;
                }
            },
            None => {
                self.equipped_item = Some(item);
                return true;
            },
        }

        let ghost pred = |slot: Option<Item>| slot is None || stacks_with(slot, id);
        let n = self.items.len();
        let mut i: usize = 0;
        while i < n
            invariant
                n == self.items@.len(),
                i <= n,
                forall|k: int| 0 <= k < i ==> !pred(#[trigger] self.items@[k]),
                pred == (|slot: Option<Item>| slot is None || stacks_with(slot, id)),
                id == item.spec_id(),
                *self == *old(self),
                old(self).wf(),
                !stacks_with(old(self).equipped_item, id),
                old(self).equipped_item is Some,
            decreases n - i,
        {
            let mut done = false;
            match &self.items[i] {
                Some(existing) => {
                    if existing.stackable() && str_eq(existing.id_string(), item.id_string()) {
                        done = true;
                    }
                },
                None => {
                    done = true;
                },
            }
            if done {
                proof {
                    lemma_find_first_spec(self.items@, pred);
                    let fj = find_first(self.items@, pred);
                    assert(pred(self.items@[i as int]));
                    if let Some(j) = fj {
                        assert(j == i) by {
                            if j < i {
                                assert(!pred(self.items@[j]));
                            }
                            if i < j {
                                assert(!pred(self.items@[i as int]));
                            }
                        }
                    }
                }
                let slot_value = match &self.items[i] {
                    Some(existing) => {
                        let mut merged = existing.clone();
                        merged.count = add_clamped(merged.count, item.count);
                        Some(merged)
                    },
                    None => Some(item),
                };
                self.items.set(i, slot_value);
                return true;
            }
            i = i + 1;
        }
        proof {
            lemma_find_first_spec(self.items@, pred);
            if let Some(j) = find_first(self.items@, pred) {
                assert(!pred(self.items@[j]));
            }
        }
        false
    }

    /// Takes `amount` off the first stack carrying `id_string` — the equipped
    /// slot first, then the inventory — emptying the slot when nothing
    /// positive remains. Returns false (changing nothing) when no item
    /// carries the id. Assumes the amount asked for is what the slot holds or
    /// less; a larger amount still just empties the slot.
    pub fn remove_item(&mut self, id_string: &str, amount: i32) -> (r: bool)
        requires
            old(self).wf(),
        ensures
            final(self).wf(),
            removed(*old(self), id_string@, amount as int, *final(self), r),
    {
        let ghost id = id_string@;
        match &self.equipped_item {
            Some(existing) => {
                if str_eq(existing.id_string(), id_string) {
                    let remaining = sub_clamped(existing.count, amount);
                    if remaining <= 0 {
                        self.equipped_item = None;
                    } else {
                        let mut kept = existing.clone();
                        kept.count = remaining;
                        self.equipped_item = Some(kept);
                    }
                    return true;
                }
            },
            None => {},
        }

        let ghost pred = |slot: Option<Item>| holds_id(slot, id);
        let n = self.items.len();
        let mut i: usize = 0;
        while i < n
            invariant
                n == self.items@.len(),
                i <= n,
                forall|k: int| 0 <= k < i ==> !pred(#[trigger] self.items@[k]),
                pred == (|slot: Option<Item>| holds_id(slot, id)),
                id == id_string@,
                *self == *old(self),
                old(self).wf(),
                !holds_id(old(self).equipped_item, id),
            decreases n - i,
        {
            let mut matched = false;
            match &self.items[i] {
                Some(existing) => {
                    if str_eq(existing.id_string(), id_string) {
                        matched = true;
                    }
                },
                None => {},
            }
            if matched {
                proof {
                    lemma_find_first_spec(self.items@, pred);
                    let fj = find_first(self.items@, pred);
                    assert(pred(self.items@[i as int]));
                    if let Some(j) = fj {
                        assert(j == i) by {
                            if j < i {
                                assert(!pred(self.items@[j]));
                            }
                            if i < j {
                                assert(!pred(self.items@[i as int]));
                            }
                        }
                    }
                }
                let slot_value = match &self.items[i] {
                    Some(existing) => {
                        let remaining = sub_clamped(existing.count, amount);
                        if remaining <= 0 {
                            None
                        } else {
                            let mut kept = existing.clone();
                            kept.count = remaining;
                            Some(kept)
                        }
                    },
                    None => None,
                };
                self.items.set(i, slot_value);
                return true;
            }
            i = i + 1;
        }
        proof {
            lemma_find_first_spec(self.items@, pred);
            if let Some(j) = find_first(self.items@, pred) {
                assert(!pred(self.items@[j]));
            }
        }
        false
    }

    /// The publicly visible part of the record: identity, position, levels
    /// and the equipped item, with progress, gold, inventory and friends
    /// blanked.
    pub fn get_minimal(&self) -> (r: Self)
        requires
            self.wf(),
        ensures
            r.wf(),
            r.name == self.name,
            r.pid == self.pid,
            r.server_name == self.server_name,
            r.location == self.location,
            r.x == self.x && r.y == self.y,
            r.skills.levels() == self.skills.levels(),
            r.equipped_item == self.equipped_item,
            r.gold == 0,
            r.friends@ == Seq::<i32>::empty(),
            forall|i: int| 0 <= i < MAX_ITEMS ==> #[trigger] r.items@[i] is None,
            forall|i: int| 0 <= i < r.skill_progress.table().len()
                ==> #[trigger] r.skill_progress.table()[i] == 0i32,
    {
        let equipped_item = match &self.equipped_item {
            Some(it) => Some(it.clone()),
            None => None,
        };
        Self {
            name: self.name.clone(),
            pid: self.pid,
            server_name: self.server_name.clone(),
            location: self.location.clone(),
            x: self.x,
            y: self.y,
            skills: self.skills.clone(),
            skill_progress: SkillProgress::default(),
            gold: 0,
            equipped_item,
            items: empty_inventory(),
            friends: Vec::new(),
        }
    }

    /// Adds experience to a skill and levels it up as far as the accumulated
    /// progress carries it: the new level is the first one whose threshold
    /// (level squared, times one hundred) exceeds the progress, capped at
    /// 100, where the cap also resets the progress. Returns the number of
    /// levels gained.
    pub fn add_xp(&mut self, skill: Skill, amount: i32) -> (delta: i32)
        requires
            old(self).wf(),
        ensures
            final(self).wf(),
            xp_added(*old(self), skill, amount, *final(self), delta as int),
    {
        let level_before = self.skills.get(skill);
        if level_before == 100 {
            return 0;
        }
        let p = add_clamped(self.skill_progress.get(skill), amount);
        self.skill_progress.set(skill, p);

        let mut level_after: i32 = level_before as i32;
        while (p as i64) >= level_threshold(level_after)
            invariant
                level_before as int <= level_after <= 4635,
                level_after == level_before as int || p >= (level_after - 1) * (level_after - 1) * 100,
                p as int == clamped(old(self).skill_progress.table()[skill_slot(skill)] + amount),
            decreases 4700 - level_after,
        {
            proof {
                assert(level_after <= 4634) by (nonlinear_arith)
                    requires
                        p as int >= level_after as int * level_after as int * 100,
                        p <= i32::MAX,
                        level_after >= 0;
            }
            level_after = level_after + 1;
        }

        if level_after >= 100 {
            proof {
                assert((level_after - 1) * (level_after - 1) >= 99 * 99) by (nonlinear_arith)
                    requires level_after >= 100;
                assert(old(self).skill_progress.table().update(skill_slot(skill), p)
                    .update(skill_slot(skill), 0i32)
                    =~= old(self).skill_progress.table().update(skill_slot(skill), 0i32));
            }
            self.skills.set(skill, 100);
            self.skill_progress.set(skill, 0);
            return 100 - level_before as i32;
        }
        self.skills.set(skill, level_after as u8);
        level_after - level_before as i32
    }
}

/// The experience threshold below a level: level squared, times one hundred.
fn level_threshold(level: i32) -> (t: i64)
    requires
        0 <= level <= 4635,
    ensures
        t == level as int * level as int * 100,
{
    proof {
        assert(0 <= level as int * level as int <= 4635 * 4635) by (nonlinear_arith)
            requires 0 <= level <= 4635;
    }
    let la = level as i64;
    la * la * 100
}

/// A full grid of empty inventory slots.
fn empty_inventory() -> (r: Vec<Option<Item>>)
    ensures
        r@.len() == MAX_ITEMS,
        forall|i: int| 0 <= i < MAX_ITEMS ==> #[trigger] r@[i] is None,
{
    let mut r: Vec<Option<Item>> = Vec::new();
    let mut i: usize = 0;
    while i < MAX_ITEMS
        invariant
            i <= MAX_ITEMS,
            r@.len() == i,
            forall|k: int| 0 <= k < i ==> #[trigger] r@[k] is None,
        decreases MAX_ITEMS - i,
    {
        r.push(None);
        i = i + 1;
    }
    r
}

impl Clone for PlayerData {
    /// A copy whose fields carry the same abstract values.
    fn clone(&self) -> (res: Self)
        ensures
            like(res, *self),
    {
        let equipped_item = match &self.equipped_item {
            Some(it) => Some(it.clone()),
            None => None,
        };
        let mut items: Vec<Option<Item>> = Vec::new();
        let mut i: usize = 0;
        while i < self.items.len()
            invariant
                i <= self.items.len(),
                items@ == self.items@.take(i as int),
            decreases self.items.len() - i,
        {
            let slot = match &self.items[i] {
                Some(it) => Some(it.clone()),
                None => None,
            };
            items.push(slot);
            proof {
                assert(self.items@.take(i + 1)
                    =~= self.items@.take(i as int).push(self.items@[i as int]));
            }
            i = i + 1;
        }
        proof {
            assert(self.items@.take(self.items@.len() as int) =~= self.items@);
        }
        Self {
            name: self.name.clone(),
            pid: self.pid,
            server_name: self.server_name.clone(),
            location: self.location.clone(),
            x: self.x,
            y: self.y,
            skills: self.skills.clone(),
            skill_progress: self.skill_progress.clone(),
            gold: self.gold,
            equipped_item,
            items,
            friends: crate::clone_vec_copy(&self.friends),
        }
    }
}

/// A new player's starting record: level-1 skills, no progress, an empty
/// inventory, and the starting map.
impl Default for PlayerData {
    fn default() -> (r: Self)
        ensures
            r.wf(),
            r.name@ == Seq::<char>::empty(),
            r.pid == -1,
            r.server_name@ == Seq::<char>::empty(),
            r.location@ == "map1"@,
            r.x == 0 && r.y == 0 && r.gold == 0,
            r.equipped_item is None,
            r.friends@ == Seq::<i32>::empty(),
            forall|i: int| 0 <= i < MAX_ITEMS ==> #[trigger] r.items@[i] is None,
            forall|i: int| 0 <= i < r.skills.levels().len()
                ==> #[trigger] r.skills.levels()[i] == 1u8,
            forall|i: int| 0 <= i < r.skill_progress.table().len()
                ==> #[trigger] r.skill_progress.table()[i] == 0i32,
    {
        Self {
            name: String::new(),
            pid: -1,
            server_name: String::new(),
            location: String::from_str("map1"),
            x: 0,
            y: 0,
            skills: Skills::default(),
            skill_progress: SkillProgress::default(),
            gold: 0,
            equipped_item: None,
            items: empty_inventory(),
            friends: Vec::new(),
        }
    }
}

} // verus!
