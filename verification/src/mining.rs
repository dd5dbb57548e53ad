//! Resource nodes and the whole-item part of mining-drill extraction.
use crate::inventory::Inventory;
use crate::item::{item_index, ItemType};
use crate::skill::{sat_add_u32, skill_index, PlayerSkills, SkillType};
use vstd::prelude::*;

verus! {

/// Experience granted for each item successfully mined.
pub const MINING_XP_PER_ITEM: u32 = 5;

/// A deposit of one kind of ore with a finite amount left.
#[derive(Clone, Copy, Debug, PartialEq, Eq, Structural)]
pub struct ResourceNode {
    pub resource: ItemType,
    pub remaining: u32,
}

/// The outcome of one extraction.
#[derive(Clone, Copy, Debug, PartialEq, Eq, Structural)]
pub struct Extraction {
    /// Items moved from the node into the drill's inventory.
    pub extracted: u32,
    /// The inventory could not take every item the node offered.
    pub blocked: bool,
}

/// The smaller of two counts.
pub open spec fn min_u32(a: u32, b: u32) -> u32 {
    if a <= b {
        a
    } else {
        b
    }
}

impl ResourceNode {
    pub fn new(resource: ItemType, remaining: u32) -> (n: ResourceNode)
        ensures
            n.resource == resource,
            n.remaining == remaining,
    {
        ResourceNode { resource, remaining }
    }

    pub fn is_depleted(&self) -> (r: bool)
        ensures
            r == (self.remaining == 0),
    {
        self.remaining == 0
    }

    /// Moves up to `whole_items` of ore (the whole items the drill's
    /// progress has reached) into the drill's inventory, as far as the node
    /// has ore and the inventory has room, and grants Mining experience for
    /// each item moved.
    pub fn extract_into(&mut self, inv: &mut Inventory, skills: &mut PlayerSkills, whole_items: u32) -> (e: Extraction)
        requires
            old(inv).wf(),
            min_u32(min_u32(whole_items, old(self).remaining), old(inv).space() as u32) * MINING_XP_PER_ITEM <= u32::MAX,
        ensures
            ({
                let want = min_u32(whole_items, old(self).remaining);
                let got = min_u32(want, if old(inv).space() <= u32::MAX { old(inv).space() as u32 } else { u32::MAX });
                &&& e.extracted == got
                &&& e.blocked == (got < want)
                &&& final(self).resource == old(self).resource
                &&& final(self).remaining == old(self).remaining - got
                &&& final(inv).wf()
                &&& final(inv).cap() == old(inv).cap()
                &&& final(inv).amounts() == old(inv).amounts().update(
                    item_index(old(self).resource) as int,
                    (old(inv).amount(old(self).resource) + got) as u32,
                )
                &&& got > 0 ==> final(skills).entries() == old(skills).entries().insert(
                    skill_index(SkillType::Mining),
                    sat_add_u32(old(skills).level_spec(SkillType::Mining), (got * MINING_XP_PER_ITEM) as u32),
                )
                &&& got == 0 ==> final(skills).entries() == old(skills).entries()
            }),
    {
        let want = if whole_items < self.remaining { whole_items } else { self.remaining };
        if want == 0 {
            proof {
                assert(inv.amounts().update(item_index(self.resource) as int, inv.amount(self.resource)) =~= inv.amounts());
            }
            return Extraction { extracted: 0, blocked: false };
        }
        let added = inv.try_add(self.resource, want);
        self.remaining = self.remaining - added;
        if added > 0 {
            skills.add_xp(SkillType::Mining, added * MINING_XP_PER_ITEM);
        }
        Extraction { extracted: added, blocked: added < want }
    }
}

} // verus!
