//! Ship cargo holds and station storage: item counts kept as a list of
//! (item, quantity) entries in a stable order, and transfers between them.
use crate::item::ItemType;
use vstd::prelude::*;

verus! {

/// Position of the first entry for `item`, or -1.
pub open spec fn entry_index(s: Seq<(ItemType, u32)>, item: ItemType) -> int
    decreases s.len(),
{
    if s.len() == 0 {
        -1
    } else {
        let p = entry_index(s.drop_last(), item);
        if p >= 0 {
            p
        } else if s.last().0 == item {
            s.len() - 1
        } else {
            -1
        }
    }
}

/// The quantity held of an item: that of its first entry, else zero.
pub open spec fn held(s: Seq<(ItemType, u32)>, item: ItemType) -> u32 {
    let p = entry_index(s, item);
    if p >= 0 {
        s[p].1
    } else {
        0
    }
}

/// The entries after adding `delta` of an item (held at `u32::MAX`).
pub open spec fn with_added(s: Seq<(ItemType, u32)>, item: ItemType, delta: u32) -> Seq<(ItemType, u32)> {
    let p = entry_index(s, item);
    if delta == 0 {
        s
    } else if p >= 0 {
        s.update(p, (item, if s[p].1 + delta > u32::MAX { u32::MAX } else { (s[p].1 + delta) as u32 }))
    } else {
        s.push((item, delta))
    }
}

/// The entries after removing up to `delta` of an item.
pub open spec fn with_removed(s: Seq<(ItemType, u32)>, item: ItemType, delta: u32) -> Seq<(ItemType, u32)> {
    let p = entry_index(s, item);
    if p >= 0 {
        s.update(p, (item, (s[p].1 - if delta <= s[p].1 { delta } else { s[p].1 }) as u32))
    } else {
        s
    }
}

/// Sum of all quantities.
pub open spec fn entries_total(s: Seq<(ItemType, u32)>) -> nat
    decreases s.len(),
{
    if s.len() == 0 {
        0
    } else {
        entries_total(s.drop_last()) + s.last().1 as nat
    }
}

proof fn lemma_entry_index(s: Seq<(ItemType, u32)>, item: ItemType)
    ensures
        -1 <= entry_index(s, item) < s.len(),
        entry_index(s, item) >= 0 ==> s[entry_index(s, item)].0 == item,
        forall|k: int| 0 <= k < s.len() && (entry_index(s, item) < 0 || k < entry_index(s, item)) ==> #[trigger] s[k].0 != item,
    decreases s.len(),
{
    if s.len() > 0 {
        lemma_entry_index(s.drop_last(), item);
        assert forall|k: int| 0 <= k < s.len() && (entry_index(s, item) < 0 || k < entry_index(s, item)) implies #[trigger] s[k].0 != item by {
            if k < s.len() - 1 {
                assert(s[k] == s.drop_last()[k]);
            }
        }
    }
}

/// Finds the first entry for `item`.
fn find_entry(items: &Vec<(ItemType, u32)>, item: ItemType) -> (r: Option<usize>)
    ensures
        match r {
            Some(i) => i == entry_index(items@, item) && i < items@.len() && items@[i as int].0 == item,
            None => entry_index(items@, item) < 0,
        },
{
    proof {
        lemma_entry_index(items@, item);
    }
    let mut i: usize = 0;
    while i < items.len()
        invariant
            i <= items@.len(),
            forall|k: int| 0 <= k < i ==> #[trigger] items@[k].0 != item,
            -1 <= entry_index(items@, item) < items@.len(),
            entry_index(items@, item) >= 0 ==> items@[entry_index(items@, item)].0 == item,
            forall|k: int| 0 <= k < items@.len() && (entry_index(items@, item) < 0 || k < entry_index(items@, item)) ==> #[trigger] items@[k].0 != item,
        decreases items@.len() - i,
    {
        if items[i].0 == item {
            return Some(i);
        }
        i = i + 1;
    }
    None
}

fn get_in(items: &Vec<(ItemType, u32)>, item: ItemType) -> (q: u32)
    ensures
        q == held(items@, item),
{
    match find_entry(items, item) {
        Some(i) => items[i].1,
        None => 0,
    }
}

fn add_in(items: &mut Vec<(ItemType, u32)>, item: ItemType, delta: u32)
    ensures
        final(items)@ == with_added(old(items)@, item, delta),
{
    if delta == 0 {
        return;
    }
    match find_entry(items, item) {
        Some(i) => {
            let q = items[i].1.saturating_add(delta);
            items.set(i, (item, q));
        },
        None => {
            items.push((item, delta));
        },
    }
}

fn remove_in(items: &mut Vec<(ItemType, u32)>, item: ItemType, delta: u32) -> (removed: u32)
    ensures
        removed == if delta <= held(old(items)@, item) { delta } else { held(old(items)@, item) },
        final(items)@ == with_removed(old(items)@, item, delta),
{
    match find_entry(items, item) {
        Some(i) => {
            let have = items[i].1;
            let removed = if have < delta { have } else { delta };
            items.set(i, (item, have - removed));
            removed
        },
        None => 0,
    }
}

/// A ship's hold, as (item, quantity) entries in a stable order.
#[derive(Clone, Debug)]
pub struct ShipCargo {
    pub items: Vec<(ItemType, u32)>,
}

/// A station's storage, kept like a ship's hold.
#[derive(Clone, Debug)]
pub struct StationStorage {
    pub items: Vec<(ItemType, u32)>,
}

impl Default for ShipCargo {
    fn default() -> (c: ShipCargo)
        ensures
            c.items@ == Seq::<(ItemType, u32)>::empty(),
    {
        ShipCargo { items: Vec::new() }
    }
}

impl Default for StationStorage {
    fn default() -> (c: StationStorage)
        ensures
            c.items@ == Seq::<(ItemType, u32)>::empty(),
    {
        StationStorage { items: Vec::new() }
    }
}

impl ShipCargo {
    /// Quantity held of an item (zero when absent).
    pub fn get(&self, item: ItemType) -> (q: u32)
        ensures
            q == held(self.items@, item),
    {
        get_in(&self.items, item)
    }

    /// Adds `delta` of an item; a new item gets an entry at the end.
    pub fn add(&mut self, item: ItemType, delta: u32)
        ensures
            final(self).items@ == with_added(old(self).items@, item, delta),
    {
        add_in(&mut self.items, item, delta);
    }

    /// Removes up to `delta` of an item; returns how many were removed.
    pub fn remove(&mut self, item: ItemType, delta: u32) -> (removed: u32)
        ensures
            removed == if delta <= held(old(self).items@, item) { delta } else { held(old(self).items@, item) },
            final(self).items@ == with_removed(old(self).items@, item, delta),
    {
        remove_in(&mut self.items, item, delta)
    }
}

impl StationStorage {
    /// Quantity held of an item (zero when absent).
    pub fn get(&self, item: ItemType) -> (q: u32)
        ensures
            q == held(self.items@, item),
    {
        get_in(&self.items, item)
    }

    /// Adds `delta` of an item; a new item gets an entry at the end.
    pub fn add(&mut self, item: ItemType, delta: u32)
        ensures
            final(self).items@ == with_added(old(self).items@, item, delta),
    {
        add_in(&mut self.items, item, delta);
    }

    /// Removes up to `delta` of an item; returns how many were removed.
    pub fn remove(&mut self, item: ItemType, delta: u32) -> (removed: u32)
        ensures
            removed == if delta <= held(old(self).items@, item) { delta } else { held(old(self).items@, item) },
            final(self).items@ == with_removed(old(self).items@, item, delta),
    {
        remove_in(&mut self.items, item, delta)
    }
}

/// Total quantity in a ship's hold.
pub fn cargo_used(cargo: &ShipCargo) -> (n: u32)
    requires
        entries_total(cargo.items@) <= u32::MAX,
    ensures
        n == entries_total(cargo.items@),
{
    let items = &cargo.items;
    let mut sum: u32 = 0;
    let mut i: usize = 0;
    while i < items.len()
        invariant
            i <= items@.len(),
            entries_total(items@) <= u32::MAX,
            sum == entries_total(items@.take(i as int)),
        decreases items@.len() - i,
    {
        proof {
            assert(items@.take(i + 1).drop_last() =~= items@.take(i as int));
            lemma_entries_total_prefix(items@, i + 1);
        }
        sum = sum + items[i].1;
        i = i + 1;
    }
    proof {
        assert(items@.take(items@.len() as int) =~= items@);
    }
    sum
}

proof fn lemma_entries_total_prefix(s: Seq<(ItemType, u32)>, k: int)
    requires
        0 <= k <= s.len(),
    ensures
        entries_total(s.take(k)) <= entries_total(s),
    decreases s.len() - k,
{
    if k < s.len() {
        assert(s.take(k + 1).drop_last() =~= s.take(k));
        lemma_entries_total_prefix(s, k + 1);
    } else {
        assert(s.take(k) =~= s);
    }
}

/// How much a transfer moves: what was asked, limited by what the giving
/// side holds and, into a ship, by the hold's free room.
pub open spec fn transfer_amount(cargo: Seq<(ItemType, u32)>, storage: Seq<(ItemType, u32)>, ship_capacity: u32, item: ItemType, delta: u32, to_ship: bool) -> u32 {
    if to_ship {
        let used = entries_total(cargo);
        let free: nat = if ship_capacity >= used { (ship_capacity - used) as nat } else { 0 };
        let avail = held(storage, item);
        let m1: nat = if (delta as nat) <= free { delta as nat } else { free };
        (if m1 <= avail as nat { m1 } else { avail as nat }) as u32
    } else {
        let avail = held(cargo, item);
        if delta <= avail { delta } else { avail }
    }
}

/// Moves `delta` of an item between a ship and a station (station to ship
/// when `to_ship`), as far as the giving side holds it and, into a ship, as
/// far as the hold has room. Returns the quantity moved.
pub fn transfer(
    cargo: &mut ShipCargo,
    storage: &mut StationStorage,
    ship_capacity: u32,
    item: ItemType,
    delta: u32,
    to_ship: bool,
) -> (moved: u32)
    requires
        to_ship && delta > 0 ==> entries_total(old(cargo).items@) <= u32::MAX,
    ensures
        moved == if delta == 0 { 0 } else { transfer_amount(old(cargo).items@, old(storage).items@, ship_capacity, item, delta, to_ship) },
        moved <= delta,
        to_ship ==> moved <= held(old(storage).items@, item),
        !to_ship ==> moved <= held(old(cargo).items@, item),
        to_ship ==> final(storage).items@ == (if moved > 0 { with_removed(old(storage).items@, item, moved) } else { old(storage).items@ })
            && final(cargo).items@ == with_added(old(cargo).items@, item, moved),
        !to_ship ==> final(cargo).items@ == (if moved > 0 { with_removed(old(cargo).items@, item, moved) } else { old(cargo).items@ })
            && final(storage).items@ == with_added(old(storage).items@, item, moved),
{
    if delta == 0 {
        return 0;
    }
    if to_ship {
        let used = cargo_used(cargo);
        let free = ship_capacity.saturating_sub(used);
        let available = storage.get(item);
        let m1 = if delta < free { delta } else { free };
        let moved = if m1 < available { m1 } else { available };
        if moved > 0 {
            storage.remove(item, moved);
            cargo.add(item, moved);
        }
        moved
    } else {
        let available = cargo.get(item);
        let moved = if delta < available { delta } else { available };
        if moved > 0 {
            cargo.remove(item, moved);
            storage.add(item, moved);
        }
        moved
    }
}

/// What a transfer moves, for every input: never more than was asked, never
/// more than the giving side holds, into a ship never past the hold's free
/// room; and it stops short of the request only when the giver runs out or,
/// into a ship, the hold is full. The item's total over hold and station is
/// unchanged (while the receiver stays under `u32::MAX`).
pub proof fn lemma_transfer_bounds(
    cargo: Seq<(ItemType, u32)>,
    storage: Seq<(ItemType, u32)>,
    ship_capacity: u32,
    item: ItemType,
    delta: u32,
    to_ship: bool,
)
    ensures
        ({
            let moved = transfer_amount(cargo, storage, ship_capacity, item, delta, to_ship);
            let (giver, taker) = if to_ship { (storage, cargo) } else { (cargo, storage) };
            &&& moved <= delta
            &&& moved <= held(giver, item)
            &&& to_ship ==> entries_total(cargo) + moved <= ship_capacity || moved == 0
            &&& moved == delta || moved == held(giver, item) || (to_ship && entries_total(cargo) + moved
                >= ship_capacity)
            &&& held(taker, item) + moved <= u32::MAX ==> held(with_removed(giver, item, moved), item) + held(
                with_added(taker, item, moved),
                item,
            ) == held(giver, item) + held(taker, item)
        }),
{
    let moved = transfer_amount(cargo, storage, ship_capacity, item, delta, to_ship);
    let (giver, taker) = if to_ship { (storage, cargo) } else { (cargo, storage) };
    if held(taker, item) + moved <= u32::MAX {
        lemma_transfer_conserves(giver, taker, item, moved);
    }
}

/// Moving goods between hold and storage neither creates nor destroys any:
/// the item's quantity on the giving side drops by the amount moved and on
/// the receiving side grows by it (while it stays under `u32::MAX`).
pub proof fn lemma_transfer_conserves(from: Seq<(ItemType, u32)>, to: Seq<(ItemType, u32)>, item: ItemType, moved: u32)
    requires
        moved <= held(from, item),
        held(to, item) + moved <= u32::MAX,
    ensures
        held(with_removed(from, item, moved), item) == held(from, item) - moved,
        held(with_added(to, item, moved), item) == held(to, item) + moved,
{
    lemma_entry_index(from, item);
    lemma_entry_index(to, item);
    let p = entry_index(from, item);
    if p >= 0 {
        let r = with_removed(from, item, moved);
        lemma_entry_index(r, item);
        assert forall|k: int| 0 <= k < p implies #[trigger] r[k].0 != item by {
            assert(r[k] == from[k]);
        }
        if entry_index(r, item) != p {
            assert(r[p].0 == item);
        }
    }
    let q = entry_index(to, item);
    if moved > 0 {
        let a = with_added(to, item, moved);
        lemma_entry_index(a, item);
        if q >= 0 {
            if entry_index(a, item) != q {
                assert(a[q].0 == item);
                assert(a[entry_index(a, item)] == to[entry_index(a, item)]);
            }
        } else {
            if entry_index(a, item) != to.len() {
                assert(a[to.len() as int].0 == item);
                assert(a[entry_index(a, item)] == to[entry_index(a, item)]);
            }
        }
    }
}

} // verus!
