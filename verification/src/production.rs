//! Processing machines: consume a recipe's inputs, wait, then place its
//! outputs, stalling while the inventory has no room.
use crate::inventory::{demand, Inventory};
use crate::item::{item_index, ItemStack, ItemType};
use crate::recipe::Recipe;
use vstd::prelude::*;

verus! {

/// Sum of the quantities of a list of stacks.
pub open spec fn stacks_total(s: Seq<ItemStack>) -> nat
    decreases s.len(),
{
    if s.len() == 0 {
        0
    } else {
        stacks_total(s.drop_last()) + s.last().quantity as nat
    }
}

/// The recipe's outputs together fit in a `u32` (their sum is taken when a
/// cycle completes).
pub open spec fn outputs_fit(r: Recipe) -> bool {
    stacks_total(r.outputs@) <= u32::MAX
}

/// Whether the inventory holds every input stack.
pub open spec fn holds_all(inv: Inventory, stacks: Seq<ItemStack>) -> bool {
    forall|i: int| 0 <= i < stacks.len() ==> inv.amount(#[trigger] stacks[i].item) >= stacks[i].quantity
}

/// The total of a prefix of stacks grows by each next stack.
proof fn lemma_stacks_total_prefix(s: Seq<ItemStack>, k: int)
    requires
        0 <= k <= s.len(),
    ensures
        stacks_total(s.take(k)) <= stacks_total(s),
    decreases s.len() - k,
{
    if k < s.len() {
        assert(s.take(k + 1).drop_last() =~= s.take(k));
        lemma_stacks_total_prefix(s, k + 1);
    } else {
        assert(s.take(k) =~= s);
    }
}

/// A machine that runs one recipe against a single inventory that holds
/// both its inputs and its outputs.
#[derive(Debug)]
pub struct Machine {
    pub recipe: Recipe,
    processing_ticks_remaining: u32,
    is_processing: bool,
}

impl Machine {
    /// The recipe the machine runs.
    pub closed spec fn recipe_spec(&self) -> Recipe {
        self.recipe
    }

    /// Ticks left in the current cycle.
    pub closed spec fn remaining(&self) -> u32 {
        self.processing_ticks_remaining
    }

    /// Whether a cycle is under way (or finished and waiting for room).
    pub closed spec fn processing(&self) -> bool {
        self.is_processing
    }

    pub fn new(recipe: Recipe) -> (m: Machine)
        ensures
            m.recipe_spec() == recipe,
            m.remaining() == 0,
            !m.processing(),
    {
        Machine { recipe, processing_ticks_remaining: 0, is_processing: false }
    }

    pub fn is_processing(&self) -> (r: bool)
        ensures
            r == self.processing(),
    {
        self.is_processing
    }

    /// Ticks left in the current cycle (for saving).
    pub fn processing_ticks_remaining(&self) -> (r: u32)
        ensures
            r == self.remaining(),
    {
        self.processing_ticks_remaining
    }

    /// The recipe the machine runs (reads the `recipe` field).
    pub fn recipe(&self) -> (r: &Recipe)
        ensures
            *r == self.recipe_spec(),
    {
        &self.recipe
    }

    /// A machine with a cycle state restored from a save.
    pub fn with_state(recipe: Recipe, processing_ticks_remaining: u32, is_processing: bool) -> (m: Machine)
        ensures
            m.recipe_spec() == recipe,
            m.remaining() == processing_ticks_remaining,
            m.processing() == is_processing,
    {
        Machine { recipe, processing_ticks_remaining, is_processing }
    }

    /// Sum of the recipe's output quantities.
    fn output_total(&self) -> (n: u32)
        requires
            outputs_fit(self.recipe),
        ensures
            n == stacks_total(self.recipe.outputs@),
    {
        let outputs = &self.recipe.outputs;
        let mut sum: u32 = 0;
        let mut i: usize = 0;
        while i < outputs.len()
            invariant
                i <= outputs@.len(),
                stacks_total(outputs@) <= u32::MAX,
                sum == stacks_total(outputs@.take(i as int)),
            decreases outputs@.len() - i,
        {
            proof {
                assert(outputs@.take(i + 1).drop_last() =~= outputs@.take(i as int));
                lemma_stacks_total_prefix(outputs@, i + 1);
            }
            sum = sum + outputs[i].quantity;
            i = i + 1;
        }
        proof {
            assert(outputs@.take(outputs@.len() as int) =~= outputs@);
        }
        sum
    }

    /// One simulation step in which `elapsed_ticks` whole processing ticks
    /// passed (fewer than one when power is short).
    ///
    /// A running cycle counts down; once it reaches zero the outputs are
    /// placed if they all fit, else the machine waits. An idle machine
    /// starts a cycle when every input is held, consuming the inputs.
    pub fn step(&mut self, inv: &mut Inventory, elapsed_ticks: u32)
        requires
            old(inv).wf(),
            old(self).processing() && elapsed_ticks >= old(self).remaining() ==> outputs_fit(
                old(self).recipe_spec(),
            ),
            !old(self).processing() && holds_all(*old(inv), old(self).recipe_spec().inputs@) ==> forall|
                item: ItemType,
            | demand(old(self).recipe_spec().inputs@, item) <= #[trigger] old(inv).amount(item),
        ensures
            final(inv).wf(),
            final(self).recipe_spec() == old(self).recipe_spec(),
            final(inv).cap() == old(inv).cap(),
            ({
                let r = old(self).recipe_spec();
                let rem = if elapsed_ticks >= old(self).remaining() {
                    0
                } else {
                    old(self).remaining() - elapsed_ticks
                };
                if old(self).processing() {
                    if rem > 0 {
                        &&& final(self).processing()
                        &&& final(self).remaining() == rem
                        &&& *final(inv) == *old(inv)
                    } else if old(inv).space() >= stacks_total(r.outputs@) {
                        &&& !final(self).processing()
                        &&& final(self).remaining() == 0
                        &&& forall|item: ItemType| #[trigger] final(inv).amount(item) == old(inv).amount(item) + demand(r.outputs@, item)
                    } else {
                        &&& final(self).processing()
                        &&& final(self).remaining() == 0
                        &&& *final(inv) == *old(inv)
                    }
                } else if holds_all(*old(inv), r.inputs@) {
                    &&& final(self).processing()
                    &&& final(self).remaining() == r.processing_ticks
                    &&& forall|item: ItemType| #[trigger] final(inv).amount(item) == old(inv).amount(item) - demand(r.inputs@, item)
                } else {
                    &&& !final(self).processing()
                    &&& final(self).remaining() == old(self).remaining()
                    &&& *final(inv) == *old(inv)
                }
            }),
    {
        if self.is_processing {
            if self.processing_ticks_remaining > 0 {
                if elapsed_ticks >= self.processing_ticks_remaining {
                    self.processing_ticks_remaining = 0;
                } else {
                    self.processing_ticks_remaining = self.processing_ticks_remaining - elapsed_ticks;
                    return;
                }
            }
            let total_output = self.output_total();
            if inv.space_available() >= total_output {
                self.place_outputs(inv);
                self.is_processing = false;
            }
        } else {
            if inv.has_all(self.recipe.inputs.as_slice()) {
                inv.remove_all(self.recipe.inputs.as_slice());
                self.processing_ticks_remaining = self.recipe.processing_ticks;
                self.is_processing = true;
            }
        }
    }

    /// Adds every output stack; they must all fit.
    fn place_outputs(&self, inv: &mut Inventory)
        requires
            old(inv).wf(),
            outputs_fit(self.recipe),
            old(inv).space() >= stacks_total(self.recipe.outputs@),
        ensures
            final(inv).wf(),
            final(inv).cap() == old(inv).cap(),
            forall|item: ItemType| #[trigger] final(inv).amount(item) == old(inv).amount(item) + demand(self.recipe.outputs@, item),
    {
        let outputs = &self.recipe.outputs;
        let ghost start = *inv;
        let mut i: usize = 0;
        while i < outputs.len()
            invariant
                inv.wf(),
                start.wf(),
                i <= outputs@.len(),
                inv.cap() == start.cap(),
                inv.total() == start.total() + stacks_total(outputs@.take(i as int)),
                start.space() >= stacks_total(outputs@),
                forall|item: ItemType| #[trigger] inv.amount(item) == start.amount(item) + demand(outputs@.take(i as int), item),
            decreases outputs@.len() - i,
        {
            let stack = outputs[i];
            proof {
                assert(outputs@.take(i + 1).drop_last() =~= outputs@.take(i as int));
                assert(outputs@.take(i + 1).last() == stack);
                lemma_stacks_total_prefix(outputs@, i + 1);
            }
            let ghost before = *inv;
            let added = inv.try_add_stack(stack);
            proof {
                assert(added == stack.quantity);
                assert forall|item: ItemType| #[trigger] inv.amount(item) == start.amount(item) + demand(outputs@.take(i + 1), item) by {
                    assert(demand(outputs@.take(i + 1), item) == demand(outputs@.take(i as int), item) + if stack.item == item {
                        stack.quantity as nat
                    } else {
                        0
                    });
                    if item != stack.item {
                        assert(item_index(item) != item_index(stack.item));
                        assert(inv.amount(item) == before.amount(item));
                    }
                }
            }
            i = i + 1;
        }
        proof {
            assert(outputs@.take(outputs@.len() as int) =~= outputs@);
        }
    }
}

} // verus!
