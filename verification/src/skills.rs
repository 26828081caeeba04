//! Player skills: the closed set of trainable skills, and the per-player
//! tables of skill levels and experience progress.

use vstd::prelude::*;
use crate::str_eq;

verus! {

/// Number of skills a player record tracks.
pub const NUM_SKILLS: usize = 10;

#[derive(Clone, Copy, PartialEq, Eq, Structural, Debug)]
pub enum Skill {
    Woodcutting,
    Mining,
    Smelting,
    Crafting,
    Farming,
    Strength,
    Agility,
    Endurance,
    Magic,
    Ranged,
}

/// Position of a skill in the per-player tables.
pub open spec fn skill_slot(s: Skill) -> int {
    match s {
        Skill::Woodcutting => 0int,
        Skill::Mining => 1int,
        Skill::Smelting => 2int,
        Skill::Crafting => 3int,
        Skill::Farming => 4int,
        Skill::Strength => 5int,
        Skill::Agility => 6int,
        Skill::Endurance => 7int,
        Skill::Magic => 8int,
        Skill::Ranged => 9int,
    }
}

/// The skill a name denotes, if any.
pub open spec fn skill_of_chars(s: Seq<char>) -> Option<Skill> {
    if s == "woodcutting"@ {
        Some(Skill::Woodcutting)
    } else if s == "mining"@ {
        Some(Skill::Mining)
    } else if s == "smelting"@ {
        Some(Skill::Smelting)
    } else if s == "crafting"@ {
        Some(Skill::Crafting)
    } else if s == "farming"@ {
        Some(Skill::Farming)
    } else if s == "strength"@ {
        Some(Skill::Strength)
    } else if s == "agility"@ {
        Some(Skill::Agility)
    } else if s == "endurance"@ {
        Some(Skill::Endurance)
    } else if s == "magic"@ {
        Some(Skill::Magic)
    } else if s == "ranged"@ {
        Some(Skill::Ranged)
    } else {
        None
    }
}

impl Skill {
    /// Index of this skill in the level and progress tables.
    pub fn index(self) -> (i: usize)
        ensures
            i == skill_slot(self),
    {
        match self {
            Skill::Woodcutting => 0,
            Skill::Mining => 1,
            Skill::Smelting => 2,
            Skill::Crafting => 3,
            Skill::Farming => 4,
            Skill::Strength => 5,
            Skill::Agility => 6,
            Skill::Endurance => 7,
            Skill::Magic => 8,
            Skill::Ranged => 9,
        }
    }

    /// Parses a skill name; unknown names yield `None`.
    pub fn try_from_str(s: &str) -> (r: Option<Skill>)
        ensures
            r == skill_of_chars(s@),
    {
        if str_eq(s, "woodcutting") {
            Some(Skill::Woodcutting)
        } else if str_eq(s, "mining") {
            Some(Skill::Mining)
        } else if str_eq(s, "smelting") {
            Some(Skill::Smelting)
        } else if str_eq(s, "crafting") {
            Some(Skill::Crafting)
        } else if str_eq(s, "farming") {
            Some(Skill::Farming)
        } else if str_eq(s, "strength") {
            Some(Skill::Strength)
        } else if str_eq(s, "agility") {
            Some(Skill::Agility)
        } else if str_eq(s, "endurance") {
            Some(Skill::Endurance)
        } else if str_eq(s, "magic") {
            Some(Skill::Magic)
        } else if str_eq(s, "ranged") {
            Some(Skill::Ranged)
        } else {
            None
        }
    }

    /// The canonical skill names, in table order.
    pub fn skill_strs() -> (r: [&'static str; NUM_SKILLS])
        ensures
            r@[0]@ == "woodcutting"@,
            r@[1]@ == "mining"@,
            r@[2]@ == "smelting"@,
            r@[3]@ == "crafting"@,
            r@[4]@ == "farming"@,
            r@[5]@ == "strength"@,
            r@[6]@ == "agility"@,
            r@[7]@ == "endurance"@,
            r@[8]@ == "magic"@,
            r@[9]@ == "ranged"@,
    {
        [
            "woodcutting",
            "mining",
            "smelting",
            "crafting",
            "farming",
            "strength",
            "agility",
            "endurance",
            "magic",
            "ranged",
        ]
    }
}

/// Skill levels, one per skill, each between 1 and 100.
pub struct Skills {
    levels: Vec<u8>,
}

impl Skills {
    /// The level table as a sequence indexed by `skill_slot`.
    pub closed spec fn levels(self) -> Seq<u8> {
        self.levels@
    }

    pub open spec fn wf(self) -> bool {
        self.levels().len() == NUM_SKILLS
    }

    pub fn get(&self, s: Skill) -> (v: u8)
        requires
            self.wf(),
        ensures
            v == self.levels()[skill_slot(s)],
    {
        let i = s.index();
        self.levels[i]
    }

    /// The level at a table index.
    pub fn level_at(&self, i: usize) -> (v: u8)
        requires
            self.wf(),
            i < NUM_SKILLS,
        ensures
            v == self.levels()[i as int],
    {
        self.levels[i]
    }

    /// Whether the table has its full shape, decided at run time.
    pub fn check_wf(&self) -> (r: bool)
        ensures
            r == self.wf(),
    {
        self.levels.len() == NUM_SKILLS
    }

    pub fn set(&mut self, s: Skill, v: u8)
        requires
            old(self).wf(),
        ensures
            final(self).wf(),
            final(self).levels() == old(self).levels().update(skill_slot(s), v),
    {
        let i = s.index();
        self.levels.set(i, v);
    }
}

impl Clone for Skills {
    fn clone(&self) -> (res: Self)
        ensures
            res.levels() == self.levels(),
    {
        let mut levels: Vec<u8> = Vec::new();
        let mut i: usize = 0;
        while i < self.levels.len()
            invariant
                i <= self.levels.len(),
                levels@ == self.levels@.take(i as int),
            decreases self.levels.len() - i,
        {
            levels.push(self.levels[i]);
            proof {
                assert(self.levels@.take(i + 1)
                    =~= self.levels@.take(i as int).push(self.levels@[i as int]));
            }
            i = i + 1;
        }
        proof {
            assert(self.levels@.take(self.levels@.len() as int) =~= self.levels@);
        }
        Skills { levels }
    }
}

/// Every skill starts at level 1.
impl Default for Skills {
    fn default() -> (r: Self)
        ensures
            r.wf(),
            forall|i: int| 0 <= i < NUM_SKILLS ==> r.levels()[i] == 1u8,
    {
        Skills { levels: vec![1u8; NUM_SKILLS] }
    }
}

/// Experience accumulated toward the next level, one counter per skill.
pub struct SkillProgress {
    progress: Vec<i32>,
}

impl SkillProgress {
    /// The progress table as a sequence indexed by `skill_slot`.
    pub closed spec fn table(self) -> Seq<i32> {
        self.progress@
    }

    pub open spec fn wf(self) -> bool {
        self.table().len() == NUM_SKILLS
    }

    pub fn get(&self, s: Skill) -> (v: i32)
        requires
            self.wf(),
        ensures
            v == self.table()[skill_slot(s)],
    {
        let i = s.index();
        self.progress[i]
    }

    /// Whether the table has its full shape, decided at run time.
    pub fn check_wf(&self) -> (r: bool)
        ensures
            r == self.wf(),
    {
        self.progress.len() == NUM_SKILLS
    }

    pub fn set(&mut self, s: Skill, v: i32)
        requires
            old(self).wf(),
        ensures
            final(self).wf(),
            final(self).table() == old(self).table().update(skill_slot(s), v),
    {
        let i = s.index();
        self.progress.set(i, v);
    }
}

impl Clone for SkillProgress {
    fn clone(&self) -> (res: Self)
        ensures
            res.table() == self.table(),
    {
        let mut progress: Vec<i32> = Vec::new();
        let mut i: usize = 0;
        while i < self.progress.len()
            invariant
                i <= self.progress.len(),
                progress@ == self.progress@.take(i as int),
            decreases self.progress.len() - i,
        {
            progress.push(self.progress[i]);
            proof {
                assert(self.progress@.take(i + 1)
                    =~= self.progress@.take(i as int).push(self.progress@[i as int]));
            }
            i = i + 1;
        }
        proof {
            assert(self.progress@.take(self.progress@.len() as int) =~= self.progress@);
        }
        SkillProgress { progress }
    }
}

/// Every counter starts at zero.
impl Default for SkillProgress {
    fn default() -> (r: Self)
        ensures
            r.wf(),
            forall|i: int| 0 <= i < NUM_SKILLS ==> r.table()[i] == 0i32,
    {
        SkillProgress { progress: vec![0i32; NUM_SKILLS] }
    }
}

} // verus!
