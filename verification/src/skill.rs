//! Skills and their experience-point progression.
use std::collections::HashMap;
use vstd::prelude::*;

verus! {

broadcast use vstd::std_specs::hash::group_hash_axioms;

/// Every distinct skill; each maps to an activity.
#[derive(Clone, Copy, Debug, PartialEq, Eq, Hash, Structural)]
pub enum SkillType {
    Mining,
    Smelting,
    Fabrication,
    Logistics,
}

/// Position of a skill in declaration order; the key under which
/// [`PlayerSkills`] stores it.
pub open spec fn skill_index(s: SkillType) -> u8 {
    match s {
        SkillType::Mining => 0,
        SkillType::Smelting => 1,
        SkillType::Fabrication => 2,
        SkillType::Logistics => 3,
    }
}

/// Human-readable name of a skill.
pub open spec fn skill_name(s: SkillType) -> Seq<char> {
    match s {
        SkillType::Mining => "Mining"@,
        SkillType::Smelting => "Smelting"@,
        SkillType::Fabrication => "Fabrication"@,
        SkillType::Logistics => "Logistics"@,
    }
}

impl SkillType {
    /// Position in declaration order (0 to 3).
    pub fn index(self) -> (r: u8)
        ensures
            r == skill_index(self),
    {
        match self {
            SkillType::Mining => 0,
            SkillType::Smelting => 1,
            SkillType::Fabrication => 2,
            SkillType::Logistics => 3,
        }
    }

    /// The skill stored under `i`, if any.
    pub fn from_index(i: u8) -> (r: Option<SkillType>)
        ensures
            match r {
                Some(s) => skill_index(s) == i,
                None => i >= 4,
            },
    {
        if i == 0 {
            Some(SkillType::Mining)
        } else if i == 1 {
            Some(SkillType::Smelting)
        } else if i == 2 {
            Some(SkillType::Fabrication)
        } else if i == 3 {
            Some(SkillType::Logistics)
        } else {
            None
        }
    }

    /// Human-readable name, e.g. "Mining".
    pub fn name(self) -> (s: &'static str)
        ensures
            s@ == skill_name(self),
    {
        match self {
            SkillType::Mining => "Mining",
            SkillType::Smelting => "Smelting",
            SkillType::Fabrication => "Fabrication",
            SkillType::Logistics => "Logistics",
        }
    }
}

/// How many experience points make one display level.
pub const XP_PER_LEVEL: u32 = 100;

/// Accumulated experience points of one skill.
#[derive(Clone, Copy, Debug, PartialEq, Eq, Structural)]
pub struct SkillLevel(u32);

impl View for SkillLevel {
    type V = u32;

    /// The experience points.
    closed spec fn view(&self) -> u32 {
        self.0
    }
}

/// `a + b`, held at `u32::MAX`.
pub open spec fn sat_add_u32(a: u32, b: u32) -> u32 {
    if a + b > u32::MAX {
        u32::MAX
    } else {
        (a + b) as u32
    }
}

/// The display level of an experience total.
pub open spec fn level_of(xp: u32) -> u32 {
    xp / XP_PER_LEVEL
}

impl Default for SkillLevel {
    fn default() -> (s: SkillLevel)
        ensures
            s@ == 0,
    {
        SkillLevel(0)
    }
}

impl SkillLevel {
    pub fn new(xp: u32) -> (s: SkillLevel)
        ensures
            s@ == xp,
    {
        SkillLevel(xp)
    }

    /// Raw experience points.
    pub fn xp(&self) -> (r: u32)
        ensures
            r == self@,
    {
        self.0
    }

    /// Display level: whole hundreds of experience points.
    pub fn level(&self) -> (r: u32)
        ensures
            r == level_of(self@),
    {
        self.0 / XP_PER_LEVEL
    }

    /// Adds experience from an activity; the total stops at `u32::MAX`.
    pub fn add_xp(&mut self, amount: u32)
        ensures
            final(self)@ == sat_add_u32(old(self)@, amount),
    {
        self.0 = self.0.saturating_add(amount);
    }
}

/// Experience never decreases and the level never drops when experience is
/// added.
pub proof fn lemma_add_xp_monotone(xp: u32, amount: u32)
    ensures
        sat_add_u32(xp, amount) >= xp,
        level_of(sat_add_u32(xp, amount)) >= level_of(xp),
        xp + amount <= u32::MAX ==> sat_add_u32(xp, amount) == xp + amount,
{
    vstd::arithmetic::div_mod::lemma_div_is_ordered(
        xp as int,
        sat_add_u32(xp, amount) as int,
        XP_PER_LEVEL as int,
    );
}

/// Experience points of each entry of a level map.
pub open spec fn xp_map(m: Map<u8, SkillLevel>) -> Map<u8, u32> {
    m.map_values(|l: SkillLevel| l@)
}

/// A player's experience in every skill, keyed by the skill's index.
/// A skill that was never used has no entry.
#[derive(Clone, Debug)]
pub struct PlayerSkills {
    skills: HashMap<u8, SkillLevel>,
}

impl PlayerSkills {
    /// Experience of every stored entry, keyed by skill index.
    pub closed spec fn entries(&self) -> Map<u8, u32> {
        xp_map(self.skills@)
    }

    /// The level of a skill: its entry, or zero experience.
    pub open spec fn level_spec(&self, skill: SkillType) -> u32 {
        if self.entries().contains_key(skill_index(skill)) {
            self.entries()[skill_index(skill)]
        } else {
            0
        }
    }

    /// The stored entries (for saving).
    pub fn skills_map(&self) -> (m: &HashMap<u8, SkillLevel>)
        ensures
            xp_map(m@) == self.entries(),
    {
        &self.skills
    }

    /// Builds from stored entries (for loading).
    pub fn from_map(skills: HashMap<u8, SkillLevel>) -> (p: PlayerSkills)
        ensures
            p.entries() == xp_map(skills@),
    {
        PlayerSkills { skills }
    }

    /// Adds experience to a skill, creating its entry if needed.
    pub fn add_xp(&mut self, skill_type: SkillType, amount: u32)
        ensures
            final(self).entries() == old(self).entries().insert(
                skill_index(skill_type),
                sat_add_u32(old(self).level_spec(skill_type), amount),
            ),
    {
        let key = skill_type.index();
        let mut level = match self.skills.get(&key) {
            Some(l) => *l,
            None => SkillLevel::default(),
        };
        level.add_xp(amount);
        self.skills.insert(key, level);
    }

    /// The current level of a skill; zero experience if never used.
    pub fn get_level(&self, skill_type: SkillType) -> (l: SkillLevel)
        ensures
            l@ == self.level_spec(skill_type),
    {
        let key = skill_type.index();
        match self.skills.get(&key) {
            Some(l) => *l,
            None => SkillLevel::default(),
        }
    }
}

impl Default for PlayerSkills {
    fn default() -> (p: PlayerSkills)
        ensures
            p.entries() == Map::<u8, u32>::empty(),
    {
        PlayerSkills { skills: HashMap::new() }
    }
}

/// Adding experience to one skill leaves every other skill unchanged, and
/// the skill itself gains exactly the (saturated) amount.
pub proof fn lemma_add_xp_isolated(before: PlayerSkills, after: PlayerSkills, s: SkillType, amount: u32, other: SkillType)
    requires
        after.entries() == before.entries().insert(
            skill_index(s),
            sat_add_u32(before.level_spec(s), amount),
        ),
    ensures
        after.level_spec(s) == sat_add_u32(before.level_spec(s), amount),
        other != s ==> after.level_spec(other) == before.level_spec(other),
{
}

} // verus!
