//! Loot containers left behind by destroyed ships, and their decay.
use crate::item::ItemType;
use vstd::prelude::*;

verus! {

/// How many ticks a wreck lasts before it disappears.
pub const DEFAULT_LOOT_LIFETIME_TICKS: u32 = 1800;

/// A wreck holding dropped items; it decays one tick at a time.
#[derive(Clone, Debug)]
pub struct LootContainer {
    pub items: Vec<(ItemType, u32)>,
    pub lifetime: u32,
}

impl LootContainer {
    pub fn new(items: Vec<(ItemType, u32)>, lifetime: u32) -> (c: LootContainer)
        ensures
            c.items@ == items@,
            c.lifetime == lifetime,
    {
        LootContainer { items, lifetime }
    }

    /// One tick of decay. A container whose lifetime has run out is due for
    /// removal (returns true, unchanged); otherwise its lifetime drops by
    /// one and it stays.
    pub fn decay(&mut self) -> (expired: bool)
        ensures
            expired == (old(self).lifetime == 0),
            final(self).items@ == old(self).items@,
            final(self).lifetime == if expired { 0 } else { (old(self).lifetime - 1) as u32 },
    {
        if self.lifetime == 0 {
            true
        } else {
            self.lifetime = self.lifetime - 1;
            false
        }
    }
}

} // verus!
