//! Item storage for buildings: a per-item count with a shared capacity.
use crate::item::{item_at, item_index, lemma_item_index_bijective, ItemStack, ItemType, ITEM_TYPE_COUNT};
use vstd::prelude::*;

verus! {

/// Sum of a sequence of counts.
pub open spec fn seq_total(s: Seq<u32>) -> nat
    decreases s.len(),
{
    if s.len() == 0 {
        0
    } else {
        seq_total(s.drop_last()) + s.last() as nat
    }
}

/// Total quantity that a list of stacks asks for of one item type.
pub open spec fn demand(stacks: Seq<ItemStack>, item: ItemType) -> nat
    decreases stacks.len(),
{
    if stacks.len() == 0 {
        0
    } else {
        demand(stacks.drop_last(), item) + if stacks.last().item == item {
            stacks.last().quantity as nat
        } else {
            0
        }
    }
}

/// The non-empty entries among the first `k` counts, as stacks in item order.
pub open spec fn stacks_upto(counts: Seq<u32>, k: nat) -> Seq<ItemStack>
    decreases k,
{
    if k == 0 {
        Seq::empty()
    } else {
        let prev = stacks_upto(counts, (k - 1) as nat);
        if counts[k - 1] > 0 {
            prev.push(ItemStack { item: item_at((k - 1) as nat), quantity: counts[k - 1] })
        } else {
            prev
        }
    }
}

/// The count of a sequence element is part of the total.
pub(crate) proof fn lemma_total_update(s: Seq<u32>, i: int, v: u32)
    requires
        0 <= i < s.len(),
    ensures
        seq_total(s.update(i, v)) == seq_total(s) - s[i] + v,
        s[i] <= seq_total(s),
    decreases s.len(),
{
    let t = s.update(i, v);
    if i == s.len() - 1 {
        assert(t.drop_last() =~= s.drop_last());
    } else {
        assert(t.drop_last() =~= s.drop_last().update(i, v));
        lemma_total_update(s.drop_last(), i, v);
    }
}

/// A prefix of a list of stacks never asks for more than the whole list.
proof fn lemma_demand_prefix(stacks: Seq<ItemStack>, k: int, item: ItemType)
    requires
        0 <= k <= stacks.len(),
    ensures
        demand(stacks.take(k), item) <= demand(stacks, item),
    decreases stacks.len() - k,
{
    if k < stacks.len() {
        assert(stacks.take(k + 1).drop_last() =~= stacks.take(k));
        lemma_demand_prefix(stacks, k + 1, item);
    } else {
        assert(stacks.take(k) =~= stacks);
    }
}

/// A container of items with a capacity on the total it holds.
///
/// A full inventory refuses further items; this backpressure is what stalls
/// a production chain whose output is not drained.
#[derive(Clone, Debug)]
pub struct Inventory {
    counts: Vec<u32>,
    pub capacity: u32,
}

impl Inventory {
    /// The count of every item type, in item order.
    pub closed spec fn amounts(&self) -> Seq<u32> {
        self.counts@
    }

    /// The capacity.
    pub closed spec fn cap(&self) -> u32 {
        self.capacity
    }

    /// One count per item type, and the total fits in a `u32`.
    pub open spec fn wf(&self) -> bool {
        &&& self.amounts().len() == ITEM_TYPE_COUNT
        &&& seq_total(self.amounts()) <= u32::MAX
    }

    /// How many of an item type are held.
    pub open spec fn amount(&self, item: ItemType) -> u32 {
        self.amounts()[item_index(item) as int]
    }

    /// Total number of items held.
    pub open spec fn total(&self) -> nat {
        seq_total(self.amounts())
    }

    /// Room left before the capacity is reached (zero when over it).
    pub open spec fn space(&self) -> nat {
        if self.cap() >= self.total() {
            (self.cap() - self.total()) as nat
        } else {
            0
        }
    }

    pub fn new(capacity: u32) -> (inv: Inventory)
        ensures
            inv.wf(),
            inv.cap() == capacity,
            forall|item: ItemType| #[trigger] inv.amount(item) == 0,
            inv.total() == 0,
    {
        let mut counts: Vec<u32> = Vec::new();
        let mut i: usize = 0;
        while i < ITEM_TYPE_COUNT
            invariant
                i <= ITEM_TYPE_COUNT,
                counts@.len() == i,
                forall|j: int| 0 <= j < i ==> counts@[j] == 0,
                seq_total(counts@) == 0,
            decreases ITEM_TYPE_COUNT - i,
        {
            let ghost prev = counts@;
            counts.push(0);
            proof {
                assert(counts@.drop_last() =~= prev);
            }
            i = i + 1;
        }
        let inv = Inventory { counts, capacity };
        proof {
            assert forall|item: ItemType| #[trigger] inv.amount(item) == 0 by {
                assert(item_index(item) < 9);
            }
        }
        inv
    }

    /// Total number of items across all types.
    pub fn total_count(&self) -> (n: u32)
        requires
            self.wf(),
        ensures
            n == self.total(),
    {
        let mut sum: u32 = 0;
        let mut i: usize = 0;
        while i < self.counts.len()
            invariant
                self.wf(),
                i <= self.counts@.len(),
                sum == seq_total(self.counts@.take(i as int)),
            decreases self.counts@.len() - i,
        {
            proof {
                let s = self.counts@;
                assert(s.take(i + 1).drop_last() =~= s.take(i as int));
                lemma_total_update(s, i as int, s[i as int]);
                assert(s.update(i as int, s[i as int]) =~= s);
                lemma_total_prefix(s, i + 1);
            }
            sum = sum + self.counts[i];
            i = i + 1;
        }
        proof {
            assert(self.counts@.take(self.counts@.len() as int) =~= self.counts@);
        }
        sum
    }

    /// How many of a specific item type are held.
    pub fn count(&self, item: ItemType) -> (n: u32)
        requires
            self.wf(),
        ensures
            n == self.amount(item),
    {
        self.counts[item.index()]
    }

    /// How much room is left; zero once the capacity is reached or passed.
    pub fn space_available(&self) -> (n: u32)
        requires
            self.wf(),
        ensures
            n == self.space(),
    {
        self.capacity.saturating_sub(self.total_count())
    }

    /// Adds as many of `quantity` as fit; returns how many were added.
    pub fn try_add(&mut self, item: ItemType, quantity: u32) -> (added: u32)
        requires
            old(self).wf(),
        ensures
            final(self).wf(),
            added == if quantity <= old(self).space() { quantity as nat } else { old(self).space() },
            final(self).cap() == old(self).cap(),
            final(self).amounts() == old(self).amounts().update(
                item_index(item) as int,
                (old(self).amount(item) + added) as u32,
            ),
            final(self).amount(item) == old(self).amount(item) + added,
            final(self).total() == old(self).total() + added,
    {
        let space = self.space_available();
        let can_add = if quantity < space { quantity } else { space };
        if can_add > 0 {
            let k = item.index();
            proof {
                lemma_total_update(self.counts@, k as int, self.counts@[k as int]);
            }
            let v = self.counts[k] + can_add;
            proof {
                lemma_total_update(self.counts@, k as int, v);
            }
            self.counts.set(k, v);
        } else {
            proof {
                assert(self.counts@.update(item_index(item) as int, self.counts@[item_index(item) as int]) =~= self.counts@);
            }
        }
        can_add
    }

    /// Adds as much of a stack as fits; returns how many were added.
    pub fn try_add_stack(&mut self, stack: ItemStack) -> (added: u32)
        requires
            old(self).wf(),
        ensures
            final(self).wf(),
            added == if stack.quantity <= old(self).space() { stack.quantity as nat } else { old(self).space() },
            final(self).cap() == old(self).cap(),
            final(self).amounts() == old(self).amounts().update(
                item_index(stack.item) as int,
                (old(self).amount(stack.item) + added) as u32,
            ),
            final(self).amount(stack.item) == old(self).amount(stack.item) + added,
            final(self).total() == old(self).total() + added,
    {
        self.try_add(stack.item, stack.quantity)
    }

    /// Removes up to `quantity`; returns how many were removed.
    pub fn try_remove(&mut self, item: ItemType, quantity: u32) -> (removed: u32)
        requires
            old(self).wf(),
        ensures
            final(self).wf(),
            removed == if quantity <= old(self).amount(item) { quantity } else { old(self).amount(item) },
            final(self).cap() == old(self).cap(),
            final(self).amounts() == old(self).amounts().update(
                item_index(item) as int,
                (old(self).amount(item) - removed) as u32,
            ),
            final(self).total() == old(self).total() - removed,
    {
        let k = item.index();
        let have = self.counts[k];
        let can_remove = if quantity < have { quantity } else { have };
        proof {
            lemma_total_update(self.counts@, k as int, (have - can_remove) as u32);
        }
        self.counts.set(k, have - can_remove);
        can_remove
    }

    /// Whether at least `quantity` of the item is held.
    pub fn has(&self, item: ItemType, quantity: u32) -> (r: bool)
        requires
            self.wf(),
        ensures
            r == (self.amount(item) >= quantity),
    {
        self.count(item) >= quantity
    }

    /// Whether each stack, taken on its own, is held.
    pub fn has_all(&self, stacks: &[ItemStack]) -> (r: bool)
        requires
            self.wf(),
        ensures
            r == forall|i: int| 0 <= i < stacks@.len() ==> self.amount(#[trigger] stacks@[i].item) >= stacks@[i].quantity,
    {
        let mut i: usize = 0;
        while i < stacks.len()
            invariant
                self.wf(),
                i <= stacks@.len(),
                forall|j: int| 0 <= j < i ==> self.amount(#[trigger] stacks@[j].item) >= stacks@[j].quantity,
            decreases stacks@.len() - i,
        {
            if !self.has(stacks[i].item, stacks[i].quantity) {
                return false;
            }
            i = i + 1;
        }
        true
    }

    /// Removes every stack of the list; together they must be held.
    pub fn remove_all(&mut self, stacks: &[ItemStack])
        requires
            old(self).wf(),
            forall|item: ItemType| demand(stacks@, item) <= #[trigger] old(self).amount(item),
        ensures
            final(self).wf(),
            final(self).cap() == old(self).cap(),
            forall|item: ItemType| #[trigger] final(self).amount(item) == old(self).amount(item) - demand(stacks@, item),
    {
        let ghost start = *self;
        let mut i: usize = 0;
        while i < stacks.len()
            invariant
                self.wf(),
                start.wf(),
                i <= stacks@.len(),
                self.capacity == start.capacity,
                forall|item: ItemType| demand(stacks@, item) <= #[trigger] start.amount(item),
                forall|item: ItemType| #[trigger] self.amount(item) == start.amount(item) - demand(stacks@.take(i as int), item),
            decreases stacks@.len() - i,
        {
            let stack = stacks[i];
            proof {
                assert(stacks@.take(i + 1).drop_last() =~= stacks@.take(i as int));
                lemma_demand_prefix(stacks@, i + 1, stack.item);
            }
            let ghost before = *self;
            let removed = self.try_remove(stack.item, stack.quantity);
            proof {
                let next = stacks@.take(i + 1);
                assert(next.last() == stack);
                assert(demand(next, stack.item) == demand(stacks@.take(i as int), stack.item) + stack.quantity);
                assert(removed == stack.quantity);
                assert forall|item: ItemType| #[trigger] self.amount(item) == start.amount(item) - demand(next, item) by {
                    lemma_demand_prefix(stacks@, i + 1, item);
                    lemma_item_index_injective(item, stack.item);
                    assert(demand(next, item) == demand(stacks@.take(i as int), item) + if stack.item == item {
                        stack.quantity as nat
                    } else {
                        0
                    });
                    if item != stack.item {
                        assert(self.amount(item) == before.amount(item));
                    }
                }
            }
            i = i + 1;
        }
        proof {
            assert(stacks@.take(stacks@.len() as int) =~= stacks@);
        }
    }

    /// Every held item type with its count, in item order.
    pub fn contents(&self) -> (v: Vec<ItemStack>)
        requires
            self.wf(),
        ensures
            v@ == stacks_upto(self.amounts(), ITEM_TYPE_COUNT as nat),
    {
        let mut v: Vec<ItemStack> = Vec::new();
        let mut i: usize = 0;
        while i < ITEM_TYPE_COUNT
            invariant
                self.wf(),
                i <= ITEM_TYPE_COUNT,
                v@ == stacks_upto(self.amounts(), i as nat),
            decreases ITEM_TYPE_COUNT - i,
        {
            let n = self.counts[i];
            if n > 0 {
                v.push(ItemStack::new(ItemType::from_index(i), n));
            }
            i = i + 1;
        }
        v
    }

    /// Whether nothing is held.
    pub fn is_empty(&self) -> (r: bool)
        requires
            self.wf(),
        ensures
            r == (self.total() == 0),
    {
        self.total_count() == 0
    }
}

impl Default for Inventory {
    fn default() -> (inv: Inventory)
        ensures
            inv.wf(),
            inv.cap() == 0,
            inv.total() == 0,
            forall|item: ItemType| #[trigger] inv.amount(item) == 0,
    {
        Inventory::new(0)
    }
}

/// A prefix of the counts never sums to more than all of them.
proof fn lemma_total_prefix(s: Seq<u32>, k: int)
    requires
        0 <= k <= s.len(),
    ensures
        seq_total(s.take(k)) <= seq_total(s),
    decreases s.len() - k,
{
    if k < s.len() {
        assert(s.take(k + 1).drop_last() =~= s.take(k));
        lemma_total_prefix(s, k + 1);
    } else {
        assert(s.take(k) =~= s);
    }
}

/// Distinct item types sit at distinct positions.
proof fn lemma_item_index_injective(a: ItemType, b: ItemType)
    ensures
        item_index(a) == item_index(b) <==> a == b,
{
}

/// Adding items and then removing as many as were added gives back the
/// inventory's counts.
pub proof fn lemma_add_remove_round_trip(before: Seq<u32>, item: ItemType, added: u32)
    requires
        before.len() == ITEM_TYPE_COUNT,
        before[item_index(item) as int] + added <= u32::MAX,
    ensures
        ({
            let k = item_index(item) as int;
            let mid = before.update(k, (before[k] + added) as u32);
            mid.update(k, (mid[k] - added) as u32) == before
        }),
{
    let k = item_index(item) as int;
    let mid = before.update(k, (before[k] + added) as u32);
    assert(mid.update(k, (mid[k] - added) as u32) =~= before);
}

/// Backpressure: adding never takes an inventory past its capacity, and an
/// inventory with no room takes nothing.
pub proof fn lemma_add_respects_capacity(inv: Inventory, quantity: u32)
    requires
        inv.wf(),
    ensures
        ({
            let added = if quantity <= inv.space() { quantity as nat } else { inv.space() };
            &&& inv.total() <= inv.cap() ==> inv.total() + added <= inv.cap()
            &&& inv.space() == 0 ==> added == 0
        }),
{
}

/// Room left in counts `amounts` under capacity `cap` (zero when over it).
pub open spec fn space_of(amounts: Seq<u32>, cap: u32) -> nat {
    if cap >= seq_total(amounts) {
        (cap - seq_total(amounts)) as nat
    } else {
        0
    }
}

/// Counts after adding as many of `q` items of `item` as fit.
pub open spec fn add_capped(amounts: Seq<u32>, cap: u32, item: ItemType, q: u32) -> Seq<u32> {
    let added: nat = if q <= space_of(amounts, cap) { q as nat } else { space_of(amounts, cap) };
    amounts.update(item_index(item) as int, (amounts[item_index(item) as int] + added) as u32)
}

/// Counts of an empty inventory of capacity `cap` after adding each saved
/// (item, quantity) in turn, each as far as it fits.
pub open spec fn restored_amounts(cap: u32, saved: Seq<(ItemType, u32)>) -> Seq<u32>
    decreases saved.len(),
{
    if saved.len() == 0 {
        Seq::new(ITEM_TYPE_COUNT as nat, |i: int| 0u32)
    } else {
        add_capped(restored_amounts(cap, saved.drop_last()), cap, saved.last().0, saved.last().1)
    }
}

/// Rebuilds a saved inventory: an empty one of the saved capacity, then
/// each saved (item, quantity) added in the order given, as far as it fits.
/// Nothing saved gives an empty inventory of capacity zero.
pub fn restore_inventory(saved: &Option<(u32, Vec<(ItemType, u32)>)>) -> (inv: Inventory)
    ensures
        inv.wf(),
        match saved {
            Some((cap, items)) => inv.cap() == *cap && inv.amounts() == restored_amounts(*cap, items@),
            None => inv.cap() == 0 && inv.total() == 0,
        },
{
    match saved {
        None => Inventory::new(0),
        Some((cap, items)) => {
            let mut inv = Inventory::new(*cap);
            proof {
                assert forall|i: int| 0 <= i < ITEM_TYPE_COUNT implies inv.amounts()[i] == 0u32 by {
                    lemma_item_index_bijective(item_at(i as nat), i as nat);
                    assert(inv.amount(item_at(i as nat)) == 0);
                }
                assert(inv.amounts() =~= restored_amounts(*cap, items@.take(0)));
            }
            let mut i: usize = 0;
            while i < items.len()
                invariant
                    i <= items@.len(),
                    inv.wf(),
                    inv.cap() == *cap,
                    inv.amounts() == restored_amounts(*cap, items@.take(i as int)),
                decreases items@.len() - i,
            {
                proof {
                    assert(items@.take(i + 1).drop_last() =~= items@.take(i as int));
                }
                let (item, q) = items[i];
                inv.try_add(item, q);
                i = i + 1;
            }
            proof {
                assert(items@.take(items@.len() as int) =~= items@);
            }
            inv
        },
    }
}

} // verus!
