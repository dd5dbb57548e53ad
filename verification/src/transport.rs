//! Transport lines: pull items from a source inventory and deliver them to a
//! destination inventory after a fixed number of ticks in transit.
use crate::fleet::{first_position, lemma_first_position};
use crate::inventory::{seq_total, stacks_upto, Inventory};
use crate::item::{item_at, item_index, ItemStack, ItemType, ITEM_TYPE_COUNT};
use vstd::prelude::*;

verus! {

/// A quantity of one item on its way along a line.
#[derive(Clone, Copy, Debug, PartialEq, Eq, Structural)]
pub struct TransitItem {
    pub item: ItemType,
    pub quantity: u32,
    pub ticks_remaining: u32,
}

/// Sum of the quantities in transit.
pub open spec fn transit_total(s: Seq<TransitItem>) -> nat
    decreases s.len(),
{
    if s.len() == 0 {
        0
    } else {
        transit_total(s.drop_last()) + s.last().quantity as nat
    }
}

/// Room left under a capacity (zero when at or over it).
pub open spec fn room(capacity: u32, used: nat) -> nat {
    if capacity >= used {
        (capacity - used) as nat
    } else {
        0
    }
}

/// An item one tick further along.
pub open spec fn ticked(t: TransitItem) -> TransitItem {
    TransitItem {
        ticks_remaining: if t.ticks_remaining > 0 { (t.ticks_remaining - 1) as u32 } else { 0 },
        ..t
    }
}

/// Delivery of the arrived items among the first `k` into an inventory with
/// the given counts and capacity, the highest position first. An item is
/// delivered as far as the inventory has room; what does not fit stays on
/// the line. Gives the items left in transit and the new counts.
pub open spec fn deliver_upto(items: Seq<TransitItem>, counts: Seq<u32>, cap: u32, k: nat) -> (Seq<TransitItem>, Seq<u32>)
    decreases k,
{
    if k == 0 || k > items.len() {
        (items, counts)
    } else {
        let i = k - 1;
        let t = items[i];
        if t.ticks_remaining == 0 {
            let space = room(cap, seq_total(counts));
            let added = if t.quantity <= space { t.quantity as nat } else { space };
            let idx = item_index(t.item) as int;
            let counts2 = counts.update(idx, (counts[idx] + added) as u32);
            let items2 = if added == t.quantity {
                items.remove(i)
            } else if added > 0 {
                items.update(i, TransitItem { quantity: (t.quantity - added) as u32, ..t })
            } else {
                items
            };
            deliver_upto(items2, counts2, cap, i as nat)
        } else {
            deliver_upto(items, counts, cap, i as nat)
        }
    }
}

/// Pulling from a source, checking the item types of `check` from position
/// `j` on: each takes as much of that item as the source holds and the line
/// has room for, and puts it in transit for `ticks`. Gives the items in
/// transit and the source's new counts.
pub open spec fn pull_from_idx(
    items: Seq<TransitItem>,
    counts: Seq<u32>,
    line_cap: u32,
    ticks: u32,
    check: Seq<ItemType>,
    j: int,
) -> (Seq<TransitItem>, Seq<u32>)
    decreases check.len() - j,
{
    if j < 0 || j >= check.len() {
        (items, counts)
    } else {
        let space = room(line_cap, transit_total(items));
        if space == 0 {
            (items, counts)
        } else {
            let item = check[j];
            let idx = item_index(item) as int;
            let available = counts[idx];
            if available > 0 {
                let take = if available as nat <= space { available as nat } else { space };
                pull_from_idx(
                    items.push(TransitItem { item, quantity: take as u32, ticks_remaining: ticks }),
                    counts.update(idx, (available - take) as u32),
                    line_cap,
                    ticks,
                    check,
                    j + 1,
                )
            } else {
                pull_from_idx(items, counts, line_cap, ticks, check, j + 1)
            }
        }
    }
}

/// The item types of a list of stacks.
pub open spec fn stack_items(s: Seq<ItemStack>) -> Seq<ItemType> {
    s.map_values(|st: ItemStack| st.item)
}

/// A connection that pulls items from a source building and delivers them to
/// a destination building `transit_ticks` later. With a filter it carries
/// only that item type.
#[derive(Clone, Debug)]
pub struct TransportLine {
    pub source: u64,
    pub destination: u64,
    pub transit_ticks: u32,
    pub capacity: u32,
    pub item_filter: Option<ItemType>,
    items_in_transit: Vec<TransitItem>,
}

impl TransportLine {
    /// The items in transit, oldest first.
    pub closed spec fn transit(&self) -> Seq<TransitItem> {
        self.items_in_transit@
    }

    /// The source building.
    pub closed spec fn source_spec(&self) -> u64 {
        self.source
    }

    /// The destination building.
    pub closed spec fn destination_spec(&self) -> u64 {
        self.destination
    }

    /// Ticks an item spends in transit.
    pub closed spec fn ticks_spec(&self) -> u32 {
        self.transit_ticks
    }

    /// Most items the line carries at once.
    pub closed spec fn cap(&self) -> u32 {
        self.capacity
    }

    /// The item type the line is limited to, if any.
    pub closed spec fn filter(&self) -> Option<ItemType> {
        self.item_filter
    }

    /// The quantity in transit fits in a `u32`.
    pub open spec fn wf(&self) -> bool {
        transit_total(self.transit()) <= u32::MAX
    }

    /// Everything but the items in transit is as in `other`.
    pub open spec fn same_setup(&self, other: TransportLine) -> bool {
        &&& self.source_spec() == other.source_spec()
        &&& self.destination_spec() == other.destination_spec()
        &&& self.ticks_spec() == other.ticks_spec()
        &&& self.cap() == other.cap()
        &&& self.filter() == other.filter()
    }

    /// The source building (reads the `source` field).
    pub fn source(&self) -> (r: u64)
        ensures
            r == self.source_spec(),
    {
        self.source
    }

    /// The destination building (reads the `destination` field).
    pub fn destination(&self) -> (r: u64)
        ensures
            r == self.destination_spec(),
    {
        self.destination
    }

    /// Ticks an item spends in transit (reads the `transit_ticks` field).
    pub fn transit_ticks(&self) -> (r: u32)
        ensures
            r == self.ticks_spec(),
    {
        self.transit_ticks
    }

    /// Most items carried at once (reads the `capacity` field).
    pub fn capacity(&self) -> (r: u32)
        ensures
            r == self.cap(),
    {
        self.capacity
    }

    /// The item type the line is limited to (reads the `item_filter` field).
    pub fn item_filter(&self) -> (r: Option<ItemType>)
        ensures
            r == self.filter(),
    {
        self.item_filter
    }

    pub fn new(source: u64, destination: u64, transit_ticks: u32, capacity: u32) -> (l: TransportLine)
        ensures
            l.wf(),
            l.source_spec() == source,
            l.destination_spec() == destination,
            l.ticks_spec() == transit_ticks,
            l.cap() == capacity,
            l.filter() == None::<ItemType>,
            l.transit() == Seq::<TransitItem>::empty(),
    {
        TransportLine {
            source,
            destination,
            transit_ticks,
            capacity,
            item_filter: None,
            items_in_transit: Vec::new(),
        }
    }

    /// The items in transit (for saving).
    pub fn items_in_transit(&self) -> (s: &[TransitItem])
        ensures
            s@ == self.transit(),
    {
        self.items_in_transit.as_slice()
    }

    /// A line with items already in transit (for loading).
    pub fn with_transit_items(
        source: u64,
        destination: u64,
        transit_ticks: u32,
        capacity: u32,
        item_filter: Option<ItemType>,
        items_in_transit: Vec<TransitItem>,
    ) -> (l: TransportLine)
        ensures
            l.source_spec() == source,
            l.destination_spec() == destination,
            l.ticks_spec() == transit_ticks,
            l.cap() == capacity,
            l.filter() == item_filter,
            l.transit() == items_in_transit@,
    {
        TransportLine { source, destination, transit_ticks, capacity, item_filter, items_in_transit }
    }

    /// How many items are in transit.
    pub fn items_in_transit_count(&self) -> (n: u32)
        requires
            self.wf(),
        ensures
            n == transit_total(self.transit()),
    {
        let items = &self.items_in_transit;
        let mut sum: u32 = 0;
        let mut i: usize = 0;
        while i < items.len()
            invariant
                i <= items@.len(),
                transit_total(items@) <= u32::MAX,
                sum == transit_total(items@.take(i as int)),
            decreases items@.len() - i,
        {
            proof {
                assert(items@.take(i + 1).drop_last() =~= items@.take(i as int));
                lemma_transit_total_prefix(items@, i + 1);
            }
            sum = sum + items[i].quantity;
            i = i + 1;
        }
        proof {
            assert(items@.take(items@.len() as int) =~= items@);
        }
        sum
    }

    /// Room left on the line for new items.
    pub fn space_available(&self) -> (n: u32)
        requires
            self.wf(),
        ensures
            n == room(self.cap(), transit_total(self.transit())),
    {
        self.capacity.saturating_sub(self.items_in_transit_count())
    }

    /// Moves every item in transit one tick closer to arrival.
    pub fn tick_transit(&mut self)
        ensures
            final(self).same_setup(*old(self)),
            final(self).transit() == old(self).transit().map_values(|t: TransitItem| ticked(t)),
            transit_total(final(self).transit()) == transit_total(old(self).transit()),
    {
        let ghost start = self.items_in_transit@;
        let mut i: usize = 0;
        while i < self.items_in_transit.len()
            invariant
                i <= self.items_in_transit@.len(),
                self.items_in_transit@.len() == start.len(),
                forall|j: int| 0 <= j < i ==> self.items_in_transit@[j] == ticked(#[trigger] start[j]),
                forall|j: int| i <= j < start.len() ==> self.items_in_transit@[j] == #[trigger] start[j],
                self.source == old(self).source,
                self.destination == old(self).destination,
                self.transit_ticks == old(self).transit_ticks,
                self.capacity == old(self).capacity,
                self.item_filter == old(self).item_filter,
            decreases start.len() - i,
        {
            let t = self.items_in_transit[i];
            let ticks = if t.ticks_remaining > 0 { t.ticks_remaining - 1 } else { 0 };
            self.items_in_transit.set(i, TransitItem { item: t.item, quantity: t.quantity, ticks_remaining: ticks });
            i = i + 1;
        }
        proof {
            assert(self.items_in_transit@ =~= start.map_values(|t: TransitItem| ticked(t)));
            lemma_transit_total_ticked(start);
        }
    }

    /// Delivers every item that has arrived into the destination, the most
    /// recent first; what does not fit stays on the line for a later try.
    pub fn deliver_arrived(&mut self, dest: &mut Inventory)
        requires
            old(dest).wf(),
            old(self).wf(),
        ensures
            final(dest).wf(),
            final(self).wf(),
            final(dest).cap() == old(dest).cap(),
            final(self).same_setup(*old(self)),
            (final(self).transit(), final(dest).amounts()) == deliver_upto(
                old(self).transit(),
                old(dest).amounts(),
                old(dest).cap(),
                old(self).transit().len(),
            ),
    {
        let ghost target = deliver_upto(self.items_in_transit@, dest.amounts(), dest.cap(), self.items_in_transit@.len());
        let mut i: usize = self.items_in_transit.len();
        while i > 0
            invariant
                dest.wf(),
                dest.cap() == old(dest).cap(),
                i <= self.items_in_transit@.len(),
                transit_total(self.items_in_transit@) <= u32::MAX,
                deliver_upto(self.items_in_transit@, dest.amounts(), dest.cap(), i as nat) == target,
                self.source == old(self).source,
                self.destination == old(self).destination,
                self.transit_ticks == old(self).transit_ticks,
                self.capacity == old(self).capacity,
                self.item_filter == old(self).item_filter,
            decreases i,
        {
            i = i - 1;
            let t = self.items_in_transit[i];
            if t.ticks_remaining == 0 {
                let ghost items0 = self.items_in_transit@;
                let added = dest.try_add(t.item, t.quantity);
                if added == t.quantity {
                    self.items_in_transit.remove(i);
                    proof {
                        lemma_transit_total_remove(items0, i as int);
                    }
                } else if added > 0 {
                    self.items_in_transit.set(
                        i,
                        TransitItem { item: t.item, quantity: t.quantity - added, ticks_remaining: t.ticks_remaining },
                    );
                    proof {
                        lemma_transit_total_update(items0, i as int, (t.quantity - added) as u32);
                    }
                }
            }
        }
    }

    /// Pulls items from the source while the line has room: the filtered
    /// item type if there is a filter, else every held item type in item
    /// order.
    pub fn pull_from(&mut self, source: &mut Inventory)
        requires
            old(source).wf(),
            old(self).wf(),
        ensures
            final(source).wf(),
            final(self).wf(),
            final(source).cap() == old(source).cap(),
            final(self).same_setup(*old(self)),
            (final(self).transit(), final(source).amounts()) == pull_from_idx(
                old(self).transit(),
                old(source).amounts(),
                old(self).cap(),
                old(self).ticks_spec(),
                match old(self).filter() {
                    Some(f) => seq![f],
                    None => stack_items(stacks_upto(old(source).amounts(), ITEM_TYPE_COUNT as nat)),
                },
                0,
            ),
            room(final(self).cap(), transit_total(final(self).transit())) == 0 || match old(self).filter() {
                Some(f) => final(source).amount(f) == 0,
                None => forall|it: ItemType| old(source).amount(it) > 0 ==> #[trigger] final(source).amount(it) == 0,
            },
    {
        proof {
            lemma_pull_takes_all_it_can(
                self.items_in_transit@,
                source.amounts(),
                self.capacity,
                self.transit_ticks,
                self.item_filter,
            );
        }
        let mut check: Vec<ItemType> = Vec::new();
        match self.item_filter {
            Some(f) => {
                check.push(f);
                proof {
                    assert(check@ =~= seq![f]);
                }
            },
            None => {
                let contents = source.contents();
                let mut k: usize = 0;
                while k < contents.len()
                    invariant
                        k <= contents@.len(),
                        check@ == stack_items(contents@.take(k as int)),
                    decreases contents@.len() - k,
                {
                    check.push(contents[k].item);
                    proof {
                        assert(stack_items(contents@.take(k + 1)) =~= stack_items(contents@.take(k as int)).push(contents@[k as int].item));
                    }
                    k = k + 1;
                }
                proof {
                    assert(contents@.take(contents@.len() as int) =~= contents@);
                }
            },
        }
        let ghost target = pull_from_idx(self.items_in_transit@, source.amounts(), self.capacity, self.transit_ticks, check@, 0);
        let ticks = self.transit_ticks;
        let mut j: usize = 0;
        while j < check.len()
            invariant
                source.wf(),
                source.cap() == old(source).cap(),
                j <= check@.len(),
                transit_total(self.items_in_transit@) <= u32::MAX,
                pull_from_idx(self.items_in_transit@, source.amounts(), self.capacity, ticks, check@, j as int) == target,
                ticks == self.transit_ticks,
                self.source == old(self).source,
                self.destination == old(self).destination,
                self.transit_ticks == old(self).transit_ticks,
                self.capacity == old(self).capacity,
                self.item_filter == old(self).item_filter,
            decreases check@.len() - j,
        {
            let space = self.space_available();
            let item = check[j];
            let available = source.count(item);
            if space > 0 && available > 0 {
                let to_take = if available < space { available } else { space };
                let removed = source.try_remove(item, to_take);
                let ghost items0 = self.items_in_transit@;
                self.items_in_transit.push(TransitItem { item, quantity: removed, ticks_remaining: ticks });
                proof {
                    assert(self.items_in_transit@.drop_last() =~= items0);
                }
            }
            j = j + 1;
        }
        proof {
            let chk = pull_check(old(self).filter(), old(source).amounts());
            let r = pull_from_idx(old(self).transit(), old(source).amounts(), old(self).cap(), old(self).ticks_spec(), chk, 0);
            assert(check@ == chk);
            assert(self.transit() == r.0 && source.amounts() == r.1);
            if room(self.cap(), transit_total(self.transit())) != 0 && old(self).filter() is None {
                assert forall|it: ItemType| old(source).amount(it) > 0 implies #[trigger] source.amount(it) == 0 by {
                    assert(r.1[item_index(it) as int] == 0);
                }
            }
        }
    }
}

/// A prefix of the items in transit never sums to more than all of them.
proof fn lemma_transit_total_prefix(s: Seq<TransitItem>, k: int)
    requires
        0 <= k <= s.len(),
    ensures
        transit_total(s.take(k)) <= transit_total(s),
    decreases s.len() - k,
{
    if k < s.len() {
        assert(s.take(k + 1).drop_last() =~= s.take(k));
        lemma_transit_total_prefix(s, k + 1);
    } else {
        assert(s.take(k) =~= s);
    }
}

/// Ticking changes no quantity.
proof fn lemma_transit_total_ticked(s: Seq<TransitItem>)
    ensures
        transit_total(s.map_values(|t: TransitItem| ticked(t))) == transit_total(s),
    decreases s.len(),
{
    if s.len() > 0 {
        assert(s.map_values(|t: TransitItem| ticked(t)).drop_last() =~= s.drop_last().map_values(|t: TransitItem| ticked(t)));
        lemma_transit_total_ticked(s.drop_last());
    }
}

/// Changing one quantity changes the total by the difference.
proof fn lemma_transit_total_update(s: Seq<TransitItem>, i: int, q: u32)
    requires
        0 <= i < s.len(),
    ensures
        transit_total(s.update(i, TransitItem { quantity: q, ..s[i] })) == transit_total(s) - s[i].quantity + q,
    decreases s.len(),
{
    let t = s.update(i, TransitItem { quantity: q, ..s[i] });
    if i == s.len() - 1 {
        assert(t.drop_last() =~= s.drop_last());
    } else {
        assert(t.drop_last() =~= s.drop_last().update(i, TransitItem { quantity: q, ..s[i] }));
        lemma_transit_total_update(s.drop_last(), i, q);
    }
}

/// Removing an item takes its quantity off the total.
proof fn lemma_transit_total_remove(s: Seq<TransitItem>, i: int)
    requires
        0 <= i < s.len(),
    ensures
        transit_total(s.remove(i)) == transit_total(s) - s[i].quantity,
    decreases s.len(),
{
    if i == s.len() - 1 {
        assert(s.remove(i) =~= s.drop_last());
    } else {
        assert(s.remove(i).drop_last() =~= s.drop_last().remove(i));
        lemma_transit_total_remove(s.drop_last(), i);
    }
}

/// Pulling moves items from the source onto the line: the source's total
/// plus the quantity in transit is unchanged, and the line never ends up
/// carrying more than its capacity unless it already did.
pub proof fn lemma_pull_conserves(
    items: Seq<TransitItem>,
    counts: Seq<u32>,
    line_cap: u32,
    ticks: u32,
    check: Seq<ItemType>,
    j: int,
)
    requires
        counts.len() == ITEM_TYPE_COUNT,
    ensures
        ({
            let (items2, counts2) = pull_from_idx(items, counts, line_cap, ticks, check, j);
            &&& transit_total(items2) + seq_total(counts2) == transit_total(items) + seq_total(counts)
            &&& counts2.len() == ITEM_TYPE_COUNT
            &&& transit_total(items) <= line_cap ==> transit_total(items2) <= line_cap
        }),
    decreases check.len() - j,
{
    if 0 <= j < check.len() {
        let space = room(line_cap, transit_total(items));
        if space > 0 {
            let item = check[j];
            let idx = item_index(item) as int;
            let available = counts[idx];
            if available > 0 {
                let take = if available as nat <= space { available as nat } else { space };
                let items1 = items.push(TransitItem { item, quantity: take as u32, ticks_remaining: ticks });
                let counts1 = counts.update(idx, (available - take) as u32);
                assert(items1.drop_last() =~= items);
                crate::inventory::lemma_total_update(counts, idx, (available - take) as u32);
                lemma_pull_conserves(items1, counts1, line_cap, ticks, check, j + 1);
            } else {
                lemma_pull_conserves(items, counts, line_cap, ticks, check, j + 1);
            }
        }
    }
}

/// Delivering moves items from the line into the destination: the quantity
/// in transit plus the destination's total is unchanged, and the
/// destination never ends up over its capacity unless it already was.
pub proof fn lemma_deliver_conserves(items: Seq<TransitItem>, counts: Seq<u32>, cap: u32, k: nat)
    requires
        counts.len() == ITEM_TYPE_COUNT,
    ensures
        ({
            let (items2, counts2) = deliver_upto(items, counts, cap, k);
            &&& transit_total(items2) + seq_total(counts2) == transit_total(items) + seq_total(counts)
            &&& counts2.len() == ITEM_TYPE_COUNT
            &&& seq_total(counts) <= cap ==> seq_total(counts2) <= cap
        }),
    decreases k,
{
    if k > 0 && k <= items.len() {
        let i = k - 1;
        let t = items[i];
        if t.ticks_remaining == 0 {
            let space = room(cap, seq_total(counts));
            let added = if t.quantity <= space { t.quantity as nat } else { space };
            let idx = item_index(t.item) as int;
            let counts2 = counts.update(idx, (counts[idx] + added) as u32);
            crate::inventory::lemma_total_update(counts, idx, counts[idx]);
            crate::inventory::lemma_total_update(counts, idx, (counts[idx] + added) as u32);
            let items2 = if added == t.quantity {
                items.remove(i)
            } else if added > 0 {
                items.update(i, TransitItem { quantity: (t.quantity - added) as u32, ..t })
            } else {
                items
            };
            if added == t.quantity {
                lemma_transit_total_remove(items, i);
            } else if added > 0 {
                lemma_transit_total_update(items, i, (t.quantity - added) as u32);
            }
            lemma_deliver_conserves(items2, counts2, cap, i as nat);
        } else {
            lemma_deliver_conserves(items, counts, cap, i as nat);
        }
    }
}


/// The item types a pull looks at: the filter's, or every item the source
/// holds, in item order.
pub open spec fn pull_check(filter: Option<ItemType>, counts: Seq<u32>) -> Seq<ItemType> {
    match filter {
        Some(f) => seq![f],
        None => stack_items(stacks_upto(counts, ITEM_TYPE_COUNT as nat)),
    }
}

/// One tick of one line against the inventories (owner entity ids `owners`,
/// counts `counts`, capacities `caps`): its items age a tick, arrived ones
/// are delivered into the first inventory owned by its destination, then
/// it pulls from the first inventory owned by its source. A missing
/// destination or source is skipped. Gives the line's items in transit and
/// every inventory's counts afterwards.
pub open spec fn line_tick(line: TransportLine, owners: Seq<u64>, counts: Seq<Seq<u32>>, caps: Seq<u32>) -> (
    Seq<TransitItem>,
    Seq<Seq<u32>>,
) {
    let t1 = line.transit().map_values(|t: TransitItem| ticked(t));
    let d = first_position(owners, line.destination_spec());
    let (t2, c2) = if d >= 0 {
        let r = deliver_upto(t1, counts[d], caps[d], t1.len());
        (r.0, counts.update(d, r.1))
    } else {
        (t1, counts)
    };
    let s = first_position(owners, line.source_spec());
    if s >= 0 {
        let r = pull_from_idx(t2, c2[s], line.cap(), line.ticks_spec(), pull_check(line.filter(), c2[s]), 0);
        (r.0, c2.update(s, r.1))
    } else {
        (t2, c2)
    }
}

/// The items in transit of each line.
pub open spec fn transits(lines: Seq<TransportLine>) -> Seq<Seq<TransitItem>> {
    lines.map_values(|l: TransportLine| l.transit())
}

/// The counts of each inventory.
pub open spec fn counts_of(invs: Seq<Inventory>) -> Seq<Seq<u32>> {
    invs.map_values(|i: Inventory| i.amounts())
}

/// The capacity of each inventory.
pub open spec fn caps_of(invs: Seq<Inventory>) -> Seq<u32> {
    invs.map_values(|i: Inventory| i.cap())
}

/// The lines' items in transit and the inventories' counts after the first
/// `k` lines have each taken their tick, in order.
pub open spec fn lines_step(lines: Seq<TransportLine>, owners: Seq<u64>, counts: Seq<Seq<u32>>, caps: Seq<u32>, k: nat) -> (
    Seq<Seq<TransitItem>>,
    Seq<Seq<u32>>,
)
    decreases k,
{
    if k == 0 || k > lines.len() {
        (transits(lines), counts)
    } else {
        let prev = lines_step(lines, owners, counts, caps, (k - 1) as nat);
        let r = line_tick(lines[k - 1], owners, prev.1, caps);
        (prev.0.update(k - 1, r.0), r.1)
    }
}

/// Index of the first inventory owned by `e`.
fn find_owner(owners: &[u64], e: u64) -> (r: Option<usize>)
    ensures
        match r {
            Some(i) => i == first_position(owners@, e) && i < owners@.len(),
            None => first_position(owners@, e) < 0,
        },
{
    proof {
        lemma_first_position(owners@, e);
    }
    let mut i: usize = 0;
    while i < owners.len()
        invariant
            i <= owners@.len(),
            forall|j: int| 0 <= j < i ==> owners@[j] != e,
            -1 <= first_position(owners@, e) < owners@.len(),
            first_position(owners@, e) >= 0 ==> owners@[first_position(owners@, e)] == e,
            first_position(owners@, e) >= 0 ==> forall|k: int| 0 <= k < first_position(owners@, e) ==> owners@[k] != e,
            first_position(owners@, e) < 0 <==> !owners@.contains(e),
        decreases owners@.len() - i,
    {
        if owners[i] == e {
            proof {
                assert(owners@.contains(e));
            }
            return Some(i);
        }
        i = i + 1;
    }
    proof {
        if owners@.contains(e) {
            let k = choose|k: int| 0 <= k < owners@.len() && owners@[k] == e;
            assert(owners@[k] != e);
        }
    }
    None
}

/// One tick of every transport line, in order, against the inventories of
/// the buildings (`owners[i]` is the entity owning `inventories[i]`): each
/// line ages its items, delivers what has arrived into its destination's
/// inventory and pulls from its source's inventory; a line whose
/// destination or source owns no inventory skips that part.
pub fn transport_step(lines: &mut Vec<TransportLine>, owners: &[u64], inventories: &mut Vec<Inventory>)
    requires
        owners@.len() == old(inventories)@.len(),
        forall|i: int| 0 <= i < old(lines)@.len() ==> (#[trigger] old(lines)@[i]).wf(),
        forall|i: int| 0 <= i < old(inventories)@.len() ==> (#[trigger] old(inventories)@[i]).wf(),
    ensures
        final(lines)@.len() == old(lines)@.len(),
        final(inventories)@.len() == old(inventories)@.len(),
        forall|i: int| 0 <= i < final(lines)@.len() ==> (#[trigger] final(lines)@[i]).wf() && final(lines)@[i].same_setup(
            old(lines)@[i],
        ),
        forall|i: int| 0 <= i < final(inventories)@.len() ==> (#[trigger] final(inventories)@[i]).wf()
            && final(inventories)@[i].cap() == old(inventories)@[i].cap(),
        (transits(final(lines)@), counts_of(final(inventories)@)) == lines_step(
            old(lines)@,
            owners@,
            counts_of(old(inventories)@),
            caps_of(old(inventories)@),
            old(lines)@.len(),
        ),
{
    let ghost lines0 = lines@;
    let ghost counts0 = counts_of(inventories@);
    let ghost caps0 = caps_of(inventories@);
    let n = lines.len();
    let mut k: usize = 0;
    while k < n
        invariant
            n == lines0.len(),
            k <= n,
            lines@.len() == n,
            inventories@.len() == owners@.len(),
            caps0.len() == owners@.len(),
            caps_of(inventories@) == caps0,
            forall|i: int| 0 <= i < k ==> (#[trigger] lines@[i]).wf() && lines@[i].same_setup(lines0[i]),
            forall|i: int| k <= i < n ==> #[trigger] lines@[i] == lines0[i],
            forall|i: int| 0 <= i < n ==> (#[trigger] lines0[i]).wf(),
            forall|i: int| 0 <= i < inventories@.len() ==> (#[trigger] inventories@[i]).wf(),
            (transits(lines@), counts_of(inventories@)) == lines_step(lines0, owners@, counts0, caps0, k as nat),
        decreases n - k,
    {
        let ghost before_lines = lines@;
        let ghost before_invs = inventories@;
        let ghost cs = counts_of(inventories@);
        let mut line = lines.remove(k);
        assert(line == lines0[k as int]);
        let ghost l0 = line;
        line.tick_transit();
        let ghost t1 = line.transit();
        match find_owner(owners, line.destination) {
            Some(d) => {
                let mut inv = inventories.remove(d);
                line.deliver_arrived(&mut inv);
                inventories.insert(d, inv);
                proof {
                    assert(inventories@ =~= before_invs.update(d as int, inv));
                    assert(counts_of(inventories@) =~= cs.update(d as int, inv.amounts()));
                    assert(caps_of(inventories@) =~= caps0);
                }
            },
            None => {},
        }
        let ghost mid_invs = inventories@;
        let ghost cs2 = counts_of(inventories@);
        match find_owner(owners, line.source) {
            Some(s) => {
                let mut inv = inventories.remove(s);
                line.pull_from(&mut inv);
                inventories.insert(s, inv);
                proof {
                    assert(inventories@ =~= mid_invs.update(s as int, inv));
                    assert(counts_of(inventories@) =~= cs2.update(s as int, inv.amounts()));
                    assert(caps_of(inventories@) =~= caps0);
                }
            },
            None => {},
        }
        lines.insert(k, line);
        proof {
            assert(lines@ =~= before_lines.update(k as int, line));
            let r = line_tick(l0, owners@, cs, caps0);
            assert(line.transit() == r.0);
            assert(counts_of(inventories@) == r.1);
            assert(transits(lines@) =~= transits(before_lines).update(k as int, line.transit()));
        }
        k = k + 1;
    }
    proof {
        assert forall|i: int| 0 <= i < inventories@.len() implies (#[trigger] inventories@[i]).wf()
            && inventories@[i].cap() == old(inventories)@[i].cap() by {
            assert(caps_of(inventories@)[i] == caps0[i]);
        }
    }
}

/// The quantity in transit over all lines.
pub open spec fn all_transit(ts: Seq<Seq<TransitItem>>) -> nat
    decreases ts.len(),
{
    if ts.len() == 0 {
        0
    } else {
        all_transit(ts.drop_last()) + transit_total(ts.last())
    }
}

/// The quantity held over all inventories.
pub open spec fn all_held(cs: Seq<Seq<u32>>) -> nat
    decreases cs.len(),
{
    if cs.len() == 0 {
        0
    } else {
        all_held(cs.drop_last()) + seq_total(cs.last())
    }
}

proof fn lemma_all_transit_update(ts: Seq<Seq<TransitItem>>, i: int, t: Seq<TransitItem>)
    requires
        0 <= i < ts.len(),
    ensures
        all_transit(ts.update(i, t)) + transit_total(ts[i]) == all_transit(ts) + transit_total(t),
    decreases ts.len(),
{
    let u = ts.update(i, t);
    if i == ts.len() - 1 {
        assert(u.drop_last() =~= ts.drop_last());
    } else {
        assert(u.drop_last() =~= ts.drop_last().update(i, t));
        lemma_all_transit_update(ts.drop_last(), i, t);
    }
}

proof fn lemma_all_held_update(cs: Seq<Seq<u32>>, i: int, c: Seq<u32>)
    requires
        0 <= i < cs.len(),
    ensures
        all_held(cs.update(i, c)) + seq_total(cs[i]) == all_held(cs) + seq_total(c),
    decreases cs.len(),
{
    let u = cs.update(i, c);
    if i == cs.len() - 1 {
        assert(u.drop_last() =~= cs.drop_last());
    } else {
        assert(u.drop_last() =~= cs.drop_last().update(i, c));
        lemma_all_held_update(cs.drop_last(), i, c);
    }
}

/// One line's tick moves items only between the line and the inventories.
proof fn lemma_line_tick_conserves(line: TransportLine, owners: Seq<u64>, counts: Seq<Seq<u32>>, caps: Seq<u32>)
    requires
        counts.len() == owners.len(),
        caps.len() == owners.len(),
        forall|i: int| 0 <= i < counts.len() ==> (#[trigger] counts[i]).len() == ITEM_TYPE_COUNT,
    ensures
        ({
            let r = line_tick(line, owners, counts, caps);
            &&& transit_total(r.0) + all_held(r.1) == transit_total(line.transit()) + all_held(counts)
            &&& r.1.len() == counts.len()
            &&& forall|i: int| 0 <= i < r.1.len() ==> (#[trigger] r.1[i]).len() == ITEM_TYPE_COUNT
        }),
{
    lemma_first_position(owners, line.destination_spec());
    lemma_first_position(owners, line.source_spec());
    let t1 = line.transit().map_values(|t: TransitItem| ticked(t));
    lemma_transit_total_ticked(line.transit());
    let d = first_position(owners, line.destination_spec());
    let (t2, c2) = if d >= 0 {
        let r = deliver_upto(t1, counts[d], caps[d], t1.len());
        lemma_deliver_conserves(t1, counts[d], caps[d], t1.len());
        lemma_all_held_update(counts, d, r.1);
        (r.0, counts.update(d, r.1))
    } else {
        (t1, counts)
    };
    let s = first_position(owners, line.source_spec());
    if s >= 0 {
        let r = pull_from_idx(t2, c2[s], line.cap(), line.ticks_spec(), pull_check(line.filter(), c2[s]), 0);
        lemma_pull_conserves(t2, c2[s], line.cap(), line.ticks_spec(), pull_check(line.filter(), c2[s]), 0);
        lemma_all_held_update(c2, s, r.1);
    }
}

proof fn lemma_lines_step_shape(lines: Seq<TransportLine>, owners: Seq<u64>, counts: Seq<Seq<u32>>, caps: Seq<u32>, k: nat)
    requires
        k <= lines.len(),
        counts.len() == owners.len(),
        caps.len() == owners.len(),
        forall|i: int| 0 <= i < counts.len() ==> (#[trigger] counts[i]).len() == ITEM_TYPE_COUNT,
    ensures
        ({
            let r = lines_step(lines, owners, counts, caps, k);
            &&& r.0.len() == lines.len()
            &&& forall|j: int| k <= j < lines.len() ==> #[trigger] r.0[j] == lines[j].transit()
            &&& r.1.len() == counts.len()
            &&& forall|i: int| 0 <= i < r.1.len() ==> (#[trigger] r.1[i]).len() == ITEM_TYPE_COUNT
            &&& all_transit(r.0) + all_held(r.1) == all_transit(transits(lines)) + all_held(counts)
        }),
    decreases k,
{
    if k > 0 {
        lemma_lines_step_shape(lines, owners, counts, caps, (k - 1) as nat);
        let prev = lines_step(lines, owners, counts, caps, (k - 1) as nat);
        lemma_line_tick_conserves(lines[k - 1], owners, prev.1, caps);
        let r = line_tick(lines[k - 1], owners, prev.1, caps);
        lemma_all_transit_update(prev.0, k - 1, r.0);
    }
}

/// A transport tick only moves items: the quantity in transit over all
/// lines plus the quantity held over all inventories is the same after it
/// as before.
pub proof fn lemma_transport_step_conserves(lines: Seq<TransportLine>, owners: Seq<u64>, invs: Seq<Inventory>)
    requires
        owners.len() == invs.len(),
        forall|i: int| 0 <= i < invs.len() ==> (#[trigger] invs[i]).wf(),
    ensures
        ({
            let r = lines_step(lines, owners, counts_of(invs), caps_of(invs), lines.len());
            all_transit(r.0) + all_held(r.1) == all_transit(transits(lines)) + all_held(counts_of(invs))
        }),
{
    lemma_lines_step_shape(lines, owners, counts_of(invs), caps_of(invs), lines.len());
}


/// How many of `item` a list of items in transit carries.
pub open spec fn item_transit(s: Seq<TransitItem>, item: ItemType) -> nat
    decreases s.len(),
{
    if s.len() == 0 {
        0
    } else {
        item_transit(s.drop_last(), item) + if s.last().item == item {
            s.last().quantity as nat
        } else {
            0nat
        }
    }
}

/// Every item in transit is of type `item`.
pub open spec fn only_item(s: Seq<TransitItem>, item: ItemType) -> bool {
    forall|k: int| 0 <= k < s.len() ==> (#[trigger] s[k]).item == item
}

/// How many of `item` all lines carry.
pub open spec fn all_item_transit(ts: Seq<Seq<TransitItem>>, item: ItemType) -> nat
    decreases ts.len(),
{
    if ts.len() == 0 {
        0
    } else {
        all_item_transit(ts.drop_last(), item) + item_transit(ts.last(), item)
    }
}

/// How many of `item` all inventories hold.
pub open spec fn all_item_held(cs: Seq<Seq<u32>>, item: ItemType) -> nat
    decreases cs.len(),
{
    if cs.len() == 0 {
        0
    } else {
        all_item_held(cs.drop_last(), item) + cs.last()[item_index(item) as int] as nat
    }
}

proof fn lemma_item_transit_ticked(s: Seq<TransitItem>, item: ItemType)
    ensures
        item_transit(s.map_values(|t: TransitItem| ticked(t)), item) == item_transit(s, item),
        forall|f: ItemType| #[trigger] only_item(s, f) ==> only_item(s.map_values(|t: TransitItem| ticked(t)), f),
    decreases s.len(),
{
    if s.len() > 0 {
        assert(s.map_values(|t: TransitItem| ticked(t)).drop_last() =~= s.drop_last().map_values(|t: TransitItem| ticked(t)));
        lemma_item_transit_ticked(s.drop_last(), item);
    }
}

proof fn lemma_item_transit_update(s: Seq<TransitItem>, i: int, q: u32, item: ItemType)
    requires
        0 <= i < s.len(),
    ensures
        item_transit(s.update(i, TransitItem { quantity: q, ..s[i] }), item) + (if s[i].item == item {
            s[i].quantity as nat
        } else {
            0nat
        }) == item_transit(s, item) + (if s[i].item == item {
            q as nat
        } else {
            0nat
        }),
    decreases s.len(),
{
    let t = s.update(i, TransitItem { quantity: q, ..s[i] });
    if i == s.len() - 1 {
        assert(t.drop_last() =~= s.drop_last());
    } else {
        assert(t.drop_last() =~= s.drop_last().update(i, TransitItem { quantity: q, ..s[i] }));
        lemma_item_transit_update(s.drop_last(), i, q, item);
    }
}

proof fn lemma_item_transit_remove(s: Seq<TransitItem>, i: int, item: ItemType)
    requires
        0 <= i < s.len(),
    ensures
        item_transit(s.remove(i), item) + (if s[i].item == item {
            s[i].quantity as nat
        } else {
            0nat
        }) == item_transit(s, item),
    decreases s.len(),
{
    if i == s.len() - 1 {
        assert(s.remove(i) =~= s.drop_last());
    } else {
        assert(s.remove(i).drop_last() =~= s.drop_last().remove(i));
        lemma_item_transit_remove(s.drop_last(), i, item);
    }
}

proof fn lemma_index_distinct(a: ItemType, b: ItemType)
    ensures
        a != b ==> item_index(a) != item_index(b),
        item_index(a) < ITEM_TYPE_COUNT,
{
    crate::item::lemma_item_index_bijective(a, 0);
    crate::item::lemma_item_index_bijective(b, 0);
}

/// Delivery moves each item type from the line into the inventory without
/// changing how much of it there is in all, carries no more than before,
/// and keeps a line of one item type to that type.
proof fn lemma_deliver_per_item(items: Seq<TransitItem>, counts: Seq<u32>, cap: u32, k: nat)
    requires
        counts.len() == ITEM_TYPE_COUNT,
    ensures
        ({
            let (items2, counts2) = deliver_upto(items, counts, cap, k);
            &&& forall|it: ItemType| #[trigger] item_transit(items2, it) + counts2[item_index(it) as int]
                == item_transit(items, it) + counts[item_index(it) as int]
            &&& transit_total(items2) <= transit_total(items)
            &&& forall|f: ItemType| only_item(items, f) ==> #[trigger] only_item(items2, f)
        }),
    decreases k,
{
    if k > 0 && k <= items.len() {
        let i = k - 1;
        let t = items[i];
        if t.ticks_remaining == 0 {
            let space = room(cap, seq_total(counts));
            let added = if t.quantity <= space { t.quantity as nat } else { space };
            let idx = item_index(t.item) as int;
            lemma_index_distinct(t.item, t.item);
            let counts2 = counts.update(idx, (counts[idx] + added) as u32);
            crate::inventory::lemma_total_update(counts, idx, counts[idx]);
            crate::inventory::lemma_total_update(counts, idx, (counts[idx] + added) as u32);
            let items2 = if added == t.quantity {
                items.remove(i)
            } else if added > 0 {
                items.update(i, TransitItem { quantity: (t.quantity - added) as u32, ..t })
            } else {
                items
            };
            assert forall|it: ItemType| #[trigger] item_transit(items2, it) + counts2[item_index(it) as int]
                == item_transit(items, it) + counts[item_index(it) as int] by {
                lemma_index_distinct(it, t.item);
                if added == t.quantity {
                    lemma_item_transit_remove(items, i, it);
                } else if added > 0 {
                    lemma_item_transit_update(items, i, (t.quantity - added) as u32, it);
                }
            }
            if added == t.quantity {
                lemma_transit_total_remove(items, i);
            } else if added > 0 {
                lemma_transit_total_update(items, i, (t.quantity - added) as u32);
            }
            assert forall|f: ItemType| only_item(items, f) implies #[trigger] only_item(items2, f) by {
                if added == t.quantity {
                    assert forall|m: int| 0 <= m < items2.len() implies (#[trigger] items2[m]).item == f by {
                        if m < i {
                            assert(items2[m] == items[m]);
                        } else {
                            assert(items2[m] == items[m + 1]);
                        }
                    }
                } else if added > 0 {
                    assert forall|m: int| 0 <= m < items2.len() implies (#[trigger] items2[m]).item == f by {
                        assert(items2[m].item == items[m].item);
                    }
                }
            }
            lemma_deliver_per_item(items2, counts2, cap, i as nat);
        } else {
            lemma_deliver_per_item(items, counts, cap, i as nat);
        }
    }
}

/// Pulling moves each item type from the inventory onto the line without
/// changing how much of it there is in all, never fills the inventory, and
/// takes only the item types it checks.
proof fn lemma_pull_per_item(
    items: Seq<TransitItem>,
    counts: Seq<u32>,
    line_cap: u32,
    ticks: u32,
    check: Seq<ItemType>,
    j: int,
)
    requires
        counts.len() == ITEM_TYPE_COUNT,
    ensures
        ({
            let (items2, counts2) = pull_from_idx(items, counts, line_cap, ticks, check, j);
            &&& forall|it: ItemType| #[trigger] item_transit(items2, it) + counts2[item_index(it) as int]
                == item_transit(items, it) + counts[item_index(it) as int]
            &&& seq_total(counts2) <= seq_total(counts)
            &&& forall|f: ItemType|
                only_item(items, f) && (forall|m: int| 0 <= m < check.len() ==> #[trigger] check[m] == f)
                    ==> #[trigger] only_item(items2, f)
        }),
    decreases check.len() - j,
{
    if 0 <= j < check.len() {
        let space = room(line_cap, transit_total(items));
        if space > 0 {
            let item = check[j];
            let idx = item_index(item) as int;
            lemma_index_distinct(item, item);
            let available = counts[idx];
            if available > 0 {
                let take = if available as nat <= space { available as nat } else { space };
                let nt = TransitItem { item, quantity: take as u32, ticks_remaining: ticks };
                let items1 = items.push(nt);
                let counts1 = counts.update(idx, (available - take) as u32);
                assert(items1.drop_last() =~= items);
                crate::inventory::lemma_total_update(counts, idx, (available - take) as u32);
                assert forall|it: ItemType| #[trigger] item_transit(items1, it) + counts1[item_index(it) as int]
                    == item_transit(items, it) + counts[item_index(it) as int] by {
                    lemma_index_distinct(it, item);
                }
                assert forall|f: ItemType|
                    only_item(items, f) && (forall|m: int| 0 <= m < check.len() ==> #[trigger] check[m] == f)
                        implies #[trigger] only_item(items1, f) by {
                    assert forall|m: int| 0 <= m < items1.len() implies (#[trigger] items1[m]).item == f by {
                        if m < items.len() {
                            assert(items1[m] == items[m]);
                        } else {
                            assert(check[j] == f);
                        }
                    }
                }
                lemma_pull_per_item(items1, counts1, line_cap, ticks, check, j + 1);
            } else {
                lemma_pull_per_item(items, counts, line_cap, ticks, check, j + 1);
            }
        }
    }
}

proof fn lemma_all_item_transit_update(ts: Seq<Seq<TransitItem>>, i: int, t: Seq<TransitItem>, item: ItemType)
    requires
        0 <= i < ts.len(),
    ensures
        all_item_transit(ts.update(i, t), item) + item_transit(ts[i], item) == all_item_transit(ts, item)
            + item_transit(t, item),
    decreases ts.len(),
{
    let u = ts.update(i, t);
    if i == ts.len() - 1 {
        assert(u.drop_last() =~= ts.drop_last());
    } else {
        assert(u.drop_last() =~= ts.drop_last().update(i, t));
        lemma_all_item_transit_update(ts.drop_last(), i, t, item);
    }
}

proof fn lemma_all_item_held_update(cs: Seq<Seq<u32>>, i: int, c: Seq<u32>, item: ItemType)
    requires
        0 <= i < cs.len(),
    ensures
        all_item_held(cs.update(i, c), item) + cs[i][item_index(item) as int] == all_item_held(cs, item)
            + c[item_index(item) as int],
    decreases cs.len(),
{
    let u = cs.update(i, c);
    if i == cs.len() - 1 {
        assert(u.drop_last() =~= cs.drop_last());
    } else {
        assert(u.drop_last() =~= cs.drop_last().update(i, c));
        lemma_all_item_held_update(cs.drop_last(), i, c, item);
    }
}

/// One line's tick, item type by item type: what it carries plus what the
/// inventories hold is unchanged; it stays within its capacity; every
/// inventory within its capacity stays so; a filtered line carrying only
/// its filter's type still does.
proof fn lemma_line_tick_per_item(
    line: TransportLine,
    owners: Seq<u64>,
    counts: Seq<Seq<u32>>,
    caps: Seq<u32>,
    item: ItemType,
)
    requires
        counts.len() == owners.len(),
        caps.len() == owners.len(),
        forall|i: int| 0 <= i < counts.len() ==> (#[trigger] counts[i]).len() == ITEM_TYPE_COUNT,
    ensures
        ({
            let r = line_tick(line, owners, counts, caps);
            &&& item_transit(r.0, item) + all_item_held(r.1, item) == item_transit(line.transit(), item)
                + all_item_held(counts, item)
            &&& r.1.len() == counts.len()
            &&& forall|i: int| 0 <= i < r.1.len() ==> (#[trigger] r.1[i]).len() == ITEM_TYPE_COUNT
            &&& transit_total(line.transit()) <= line.cap() ==> transit_total(r.0) <= line.cap()
            &&& forall|i: int|
                0 <= i < counts.len() && seq_total(counts[i]) <= caps[i] ==> seq_total(#[trigger] r.1[i])
                    <= caps[i]
            &&& forall|f: ItemType|
                line.filter() == Some(f) && only_item(line.transit(), f) ==> #[trigger] only_item(r.0, f)
        }),
{
    lemma_first_position(owners, line.destination_spec());
    lemma_first_position(owners, line.source_spec());
    let t1 = line.transit().map_values(|t: TransitItem| ticked(t));
    lemma_transit_total_ticked(line.transit());
    lemma_item_transit_ticked(line.transit(), item);
    let d = first_position(owners, line.destination_spec());
    let (t2, c2) = if d >= 0 {
        let r = deliver_upto(t1, counts[d], caps[d], t1.len());
        lemma_deliver_conserves(t1, counts[d], caps[d], t1.len());
        lemma_deliver_per_item(t1, counts[d], caps[d], t1.len());
        lemma_all_item_held_update(counts, d, r.1, item);
        assert(item_transit(r.0, item) + r.1[item_index(item) as int] == item_transit(t1, item)
            + counts[d][item_index(item) as int]);
        (r.0, counts.update(d, r.1))
    } else {
        (t1, counts)
    };
    assert(item_transit(t2, item) + all_item_held(c2, item) == item_transit(line.transit(), item) + all_item_held(
        counts,
        item,
    ));
    assert(transit_total(t2) <= transit_total(line.transit()));
    assert forall|i: int| 0 <= i < counts.len() && seq_total(counts[i]) <= caps[i] implies seq_total(#[trigger] c2[i])
        <= caps[i] by {
    }
    assert forall|f: ItemType| line.filter() == Some(f) && only_item(line.transit(), f) implies #[trigger] only_item(
        t2,
        f,
    ) by {
        assert(only_item(t1, f));
    }
    let s = first_position(owners, line.source_spec());
    if s >= 0 {
        let check = pull_check(line.filter(), c2[s]);
        let r = pull_from_idx(t2, c2[s], line.cap(), line.ticks_spec(), check, 0);
        lemma_pull_conserves(t2, c2[s], line.cap(), line.ticks_spec(), check, 0);
        lemma_pull_per_item(t2, c2[s], line.cap(), line.ticks_spec(), check, 0);
        lemma_all_item_held_update(c2, s, r.1, item);
        assert(item_transit(r.0, item) + r.1[item_index(item) as int] == item_transit(t2, item)
            + c2[s][item_index(item) as int]);
        assert forall|f: ItemType| line.filter() == Some(f) && only_item(line.transit(), f) implies #[trigger] only_item(
            r.0,
            f,
        ) by {
            assert(only_item(t2, f));
            assert(check =~= seq![f]);
            assert(forall|m: int| 0 <= m < check.len() ==> #[trigger] check[m] == f);
        }
    }
}

/// Inventory capacity and line contents after the first `k` lines' ticks.
proof fn lemma_lines_step_per_item(
    lines: Seq<TransportLine>,
    owners: Seq<u64>,
    counts: Seq<Seq<u32>>,
    caps: Seq<u32>,
    item: ItemType,
    k: nat,
)
    requires
        k <= lines.len(),
        counts.len() == owners.len(),
        caps.len() == owners.len(),
        forall|i: int| 0 <= i < counts.len() ==> (#[trigger] counts[i]).len() == ITEM_TYPE_COUNT,
    ensures
        ({
            let r = lines_step(lines, owners, counts, caps, k);
            &&& r.0.len() == lines.len()
            &&& forall|j: int| k <= j < lines.len() ==> #[trigger] r.0[j] == lines[j].transit()
            &&& r.1.len() == counts.len()
            &&& forall|i: int| 0 <= i < r.1.len() ==> (#[trigger] r.1[i]).len() == ITEM_TYPE_COUNT
            &&& all_item_transit(r.0, item) + all_item_held(r.1, item) == all_item_transit(transits(lines), item)
                + all_item_held(counts, item)
            &&& forall|j: int|
                0 <= j < k && transit_total(lines[j].transit()) <= lines[j].cap() ==> transit_total(
                    #[trigger] r.0[j],
                ) <= lines[j].cap()
            &&& forall|j: int, f: ItemType|
                0 <= j < k && lines[j].filter() == Some(f) && only_item(lines[j].transit(), f) ==> #[trigger] only_item(
                    r.0[j],
                    f,
                )
            &&& forall|i: int|
                0 <= i < counts.len() && seq_total(counts[i]) <= caps[i] ==> seq_total(#[trigger] r.1[i])
                    <= caps[i]
        }),
    decreases k,
{
    if k > 0 {
        lemma_lines_step_per_item(lines, owners, counts, caps, item, (k - 1) as nat);
        let prev = lines_step(lines, owners, counts, caps, (k - 1) as nat);
        lemma_line_tick_per_item(lines[k - 1], owners, prev.1, caps, item);
        let r = line_tick(lines[k - 1], owners, prev.1, caps);
        lemma_all_item_transit_update(prev.0, k - 1, r.0, item);
        let out = prev.0.update(k - 1, r.0);
        assert forall|j: int, f: ItemType|
            0 <= j < k && lines[j].filter() == Some(f) && only_item(lines[j].transit(), f) implies #[trigger] only_item(
                out[j],
                f,
            ) by {
            if j < k - 1 {
                assert(out[j] == prev.0[j]);
            }
        }
    } else {
        assert(transits(lines).len() == lines.len());
    }
}

/// A transport tick, item type by item type: how much of each type the
/// lines carry plus how much the inventories hold is the same after it as
/// before; a line within its capacity stays within it; an inventory within
/// its capacity is not filled past it; and a line filtered to one item type
/// that carries only that type still carries only that type.
pub proof fn lemma_transport_step_per_item(lines: Seq<TransportLine>, owners: Seq<u64>, invs: Seq<Inventory>, item: ItemType)
    requires
        owners.len() == invs.len(),
        forall|i: int| 0 <= i < invs.len() ==> (#[trigger] invs[i]).wf(),
    ensures
        ({
            let r = lines_step(lines, owners, counts_of(invs), caps_of(invs), lines.len());
            &&& all_item_transit(r.0, item) + all_item_held(r.1, item) == all_item_transit(transits(lines), item)
                + all_item_held(counts_of(invs), item)
            &&& forall|j: int|
                0 <= j < lines.len() && transit_total(lines[j].transit()) <= lines[j].cap() ==> transit_total(
                    #[trigger] r.0[j],
                ) <= lines[j].cap()
            &&& forall|i: int|
                0 <= i < invs.len() && invs[i].total() <= invs[i].cap() ==> seq_total(#[trigger] r.1[i])
                    <= invs[i].cap()
            &&& forall|j: int, f: ItemType|
                0 <= j < lines.len() && lines[j].filter() == Some(f) && only_item(lines[j].transit(), f)
                    ==> #[trigger] only_item(r.0[j], f)
        }),
{
    lemma_lines_step_per_item(lines, owners, counts_of(invs), caps_of(invs), item, lines.len());
}


/// Pulling only ever adds to the line and takes from the source.
proof fn lemma_pull_monotone(
    items: Seq<TransitItem>,
    counts: Seq<u32>,
    line_cap: u32,
    ticks: u32,
    check: Seq<ItemType>,
    j: int,
)
    requires
        counts.len() == ITEM_TYPE_COUNT,
    ensures
        ({
            let (items2, counts2) = pull_from_idx(items, counts, line_cap, ticks, check, j);
            &&& transit_total(items2) >= transit_total(items)
            &&& counts2.len() == ITEM_TYPE_COUNT
            &&& forall|i: int| 0 <= i < ITEM_TYPE_COUNT ==> #[trigger] counts2[i] <= counts[i]
        }),
    decreases check.len() - j,
{
    if 0 <= j < check.len() {
        let space = room(line_cap, transit_total(items));
        if space > 0 {
            let item = check[j];
            let idx = item_index(item) as int;
            lemma_index_distinct(item, item);
            let available = counts[idx];
            if available > 0 {
                let take = if available as nat <= space { available as nat } else { space };
                let items1 = items.push(TransitItem { item, quantity: take as u32, ticks_remaining: ticks });
                let counts1 = counts.update(idx, (available - take) as u32);
                assert(items1.drop_last() =~= items);
                lemma_pull_monotone(items1, counts1, line_cap, ticks, check, j + 1);
            } else {
                lemma_pull_monotone(items, counts, line_cap, ticks, check, j + 1);
            }
        }
    }
}

/// A pull stops only when the line is full or every checked item type is
/// used up: afterwards either the line has no room left, or the source
/// holds none of any item type checked from position `j` on.
proof fn lemma_pull_exhausts(
    items: Seq<TransitItem>,
    counts: Seq<u32>,
    line_cap: u32,
    ticks: u32,
    check: Seq<ItemType>,
    j: int,
)
    requires
        counts.len() == ITEM_TYPE_COUNT,
        j >= 0,
    ensures
        ({
            let (items2, counts2) = pull_from_idx(items, counts, line_cap, ticks, check, j);
            room(line_cap, transit_total(items2)) == 0 || forall|k: int|
                j <= k < check.len() ==> counts2[item_index(#[trigger] check[k]) as int] == 0
        }),
    decreases check.len() - j,
{
    if j < check.len() {
        let space = room(line_cap, transit_total(items));
        if space > 0 {
            let item = check[j];
            let idx = item_index(item) as int;
            lemma_index_distinct(item, item);
            let available = counts[idx];
            if available > 0 {
                let take = if available as nat <= space { available as nat } else { space };
                let items1 = items.push(TransitItem { item, quantity: take as u32, ticks_remaining: ticks });
                let counts1 = counts.update(idx, (available - take) as u32);
                assert(items1.drop_last() =~= items);
                lemma_pull_exhausts(items1, counts1, line_cap, ticks, check, j + 1);
                lemma_pull_monotone(items1, counts1, line_cap, ticks, check, j + 1);
            } else {
                lemma_pull_exhausts(items, counts, line_cap, ticks, check, j + 1);
                lemma_pull_monotone(items, counts, line_cap, ticks, check, j + 1);
            }
        }
    }
}

/// Every item type held (count above zero) is among the item types listed
/// by `stacks_upto` up to position `k`, when its position is below `k`.
proof fn lemma_held_items_listed(counts: Seq<u32>, k: nat, item: ItemType)
    requires
        counts.len() == ITEM_TYPE_COUNT,
        k <= ITEM_TYPE_COUNT,
        item_index(item) < k,
        counts[item_index(item) as int] > 0,
    ensures
        stack_items(stacks_upto(counts, k)).contains(item),
    decreases k,
{
    crate::item::lemma_item_index_bijective(item, (k - 1) as nat);
    let prev = stacks_upto(counts, (k - 1) as nat);
    if item_index(item) == k - 1 {
        let s = prev.push(ItemStack { item: item_at((k - 1) as nat), quantity: counts[k - 1] });
        assert(stacks_upto(counts, k) == s);
        assert(stack_items(s)[prev.len() as int] == item);
    } else {
        lemma_held_items_listed(counts, (k - 1) as nat, item);
        let pi = stack_items(prev);
        let m = choose|m: int| 0 <= m < pi.len() && pi[m] == item;
        if counts[k - 1] > 0 {
            let s = prev.push(ItemStack { item: item_at((k - 1) as nat), quantity: counts[k - 1] });
            assert(stack_items(s)[m] == item);
        }
    }
}

/// A pull takes everything it can: afterwards either the line has no room
/// left, or the source holds none of the item types it could take (the
/// filter's type, or with no filter every type it held).
pub proof fn lemma_pull_takes_all_it_can(
    items: Seq<TransitItem>,
    counts: Seq<u32>,
    line_cap: u32,
    ticks: u32,
    filter: Option<ItemType>,
)
    requires
        counts.len() == ITEM_TYPE_COUNT,
    ensures
        ({
            let (items2, counts2) = pull_from_idx(items, counts, line_cap, ticks, pull_check(filter, counts), 0);
            room(line_cap, transit_total(items2)) == 0 || match filter {
                Some(f) => counts2[item_index(f) as int] == 0,
                None => forall|it: ItemType|
                    counts[item_index(it) as int] > 0 ==> #[trigger] counts2[item_index(it) as int] == 0,
            }
        }),
{
    let check = pull_check(filter, counts);
    lemma_pull_exhausts(items, counts, line_cap, ticks, check, 0);
    let (items2, counts2) = pull_from_idx(items, counts, line_cap, ticks, check, 0);
    if room(line_cap, transit_total(items2)) != 0 {
        match filter {
            Some(f) => {
                assert(check[0] == f);
            },
            None => {
                assert forall|it: ItemType| counts[item_index(it) as int] > 0 implies #[trigger] counts2[item_index(
                    it,
                ) as int] == 0 by {
                    lemma_index_distinct(it, it);
                    lemma_held_items_listed(counts, ITEM_TYPE_COUNT as nat, it);
                    let m = choose|m: int| 0 <= m < check.len() && check[m] == it;
                    assert(counts2[item_index(check[m]) as int] == 0);
                }
            },
        }
    }
}

} // verus!
