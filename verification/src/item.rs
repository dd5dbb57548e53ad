//! Item types and item stacks: everything that is mined, moved, made and traded.
use crate::text::{decimal, push_char, push_decimal, push_str};
use vstd::prelude::*;

verus! {

/// Every distinct material or product in the game.
#[derive(Clone, Copy, Debug, PartialEq, Eq, Hash, Structural)]
pub enum ItemType {
    CopperOre,
    IronOre,
    CopperIngot,
    IronIngot,
    CopperPlate,
    IronPlate,
    CopperWire,
    BasicCircuit,
    HullPlate,
}

/// How many item types exist.
pub const ITEM_TYPE_COUNT: usize = 9;

/// Human-readable name of an item type, e.g. "Copper Ore".
pub open spec fn item_name(item: ItemType) -> Seq<char> {
    match item {
        ItemType::CopperOre => "Copper Ore"@,
        ItemType::IronOre => "Iron Ore"@,
        ItemType::CopperIngot => "Copper Ingot"@,
        ItemType::IronIngot => "Iron Ingot"@,
        ItemType::CopperPlate => "Copper Plate"@,
        ItemType::IronPlate => "Iron Plate"@,
        ItemType::CopperWire => "Copper Wire"@,
        ItemType::BasicCircuit => "Basic Circuit"@,
        ItemType::HullPlate => "Hull Plate"@,
    }
}

/// Position of an item type in declaration order.
pub open spec fn item_index(item: ItemType) -> nat {
    match item {
        ItemType::CopperOre => 0,
        ItemType::IronOre => 1,
        ItemType::CopperIngot => 2,
        ItemType::IronIngot => 3,
        ItemType::CopperPlate => 4,
        ItemType::IronPlate => 5,
        ItemType::CopperWire => 6,
        ItemType::BasicCircuit => 7,
        ItemType::HullPlate => 8,
    }
}

/// The item type at a position in declaration order.
pub open spec fn item_at(i: nat) -> ItemType {
    if i == 0 {
        ItemType::CopperOre
    } else if i == 1 {
        ItemType::IronOre
    } else if i == 2 {
        ItemType::CopperIngot
    } else if i == 3 {
        ItemType::IronIngot
    } else if i == 4 {
        ItemType::CopperPlate
    } else if i == 5 {
        ItemType::IronPlate
    } else if i == 6 {
        ItemType::CopperWire
    } else if i == 7 {
        ItemType::BasicCircuit
    } else {
        ItemType::HullPlate
    }
}

/// Positions and item types correspond one to one.
pub proof fn lemma_item_index_bijective(item: ItemType, i: nat)
    ensures
        item_index(item) < 9,
        item_at(item_index(item)) == item,
        i < 9 ==> item_index(item_at(i)) == i,
{
}

impl ItemType {
    /// Position in declaration order (0 to 8).
    pub fn index(self) -> (r: usize)
        ensures
            r == item_index(self),
            r < ITEM_TYPE_COUNT,
    {
        match self {
            ItemType::CopperOre => 0,
            ItemType::IronOre => 1,
            ItemType::CopperIngot => 2,
            ItemType::IronIngot => 3,
            ItemType::CopperPlate => 4,
            ItemType::IronPlate => 5,
            ItemType::CopperWire => 6,
            ItemType::BasicCircuit => 7,
            ItemType::HullPlate => 8,
        }
    }

    /// The item type at position `i` of the declaration order.
    pub fn from_index(i: usize) -> (r: ItemType)
        requires
            i < ITEM_TYPE_COUNT,
        ensures
            r == item_at(i as nat),
            item_index(r) == i,
    {
        if i == 0 {
            ItemType::CopperOre
        } else if i == 1 {
            ItemType::IronOre
        } else if i == 2 {
            ItemType::CopperIngot
        } else if i == 3 {
            ItemType::IronIngot
        } else if i == 4 {
            ItemType::CopperPlate
        } else if i == 5 {
            ItemType::IronPlate
        } else if i == 6 {
            ItemType::CopperWire
        } else if i == 7 {
            ItemType::BasicCircuit
        } else {
            ItemType::HullPlate
        }
    }

    /// Human-readable name, e.g. "Copper Ore".
    pub fn name(self) -> (s: &'static str)
        ensures
            s@ == item_name(self),
    {
        match self {
            ItemType::CopperOre => "Copper Ore",
            ItemType::IronOre => "Iron Ore",
            ItemType::CopperIngot => "Copper Ingot",
            ItemType::IronIngot => "Iron Ingot",
            ItemType::CopperPlate => "Copper Plate",
            ItemType::IronPlate => "Iron Plate",
            ItemType::CopperWire => "Copper Wire",
            ItemType::BasicCircuit => "Basic Circuit",
            ItemType::HullPlate => "Hull Plate",
        }
    }

    /// The name as an owned string.
    pub fn to_display_string(self) -> (s: String)
        ensures
            s@ == item_name(self),
    {
        let mut s = String::new();
        push_str(&mut s, self.name());
        proof {
            assert(s@ =~= item_name(self));
        }
        s
    }
}

/// A quantity of one item type.
#[derive(Clone, Copy, Debug, PartialEq, Eq, Structural)]
pub struct ItemStack {
    pub item: ItemType,
    pub quantity: u32,
}

/// Display text of a stack: `"5x Copper Ore"`.
pub open spec fn stack_text(s: ItemStack) -> Seq<char> {
    decimal(s.quantity as nat) + seq!['x', ' '] + item_name(s.item)
}

impl ItemStack {
    pub fn new(item: ItemType, quantity: u32) -> (s: ItemStack)
        ensures
            s.item == item,
            s.quantity == quantity,
    {
        ItemStack { item, quantity }
    }

    /// Appends the display text of this stack to `out`.
    pub fn push_text(&self, out: &mut String)
        ensures
            final(out)@ == old(out)@ + stack_text(*self),
    {
        push_decimal(out, self.quantity as u64);
        push_char(out, 'x');
        push_char(out, ' ');
        push_str(out, self.item.name());
        proof {
            assert(final(out)@ =~= old(out)@ + stack_text(*self));
        }
    }

    /// Display text, e.g. `"5x Copper Ore"`.
    pub fn to_display_string(&self) -> (s: String)
        ensures
            s@ == stack_text(*self),
    {
        let mut s = String::new();
        self.push_text(&mut s);
        proof {
            assert(s@ =~= stack_text(*self));
        }
        s
    }
}

} // verus!
