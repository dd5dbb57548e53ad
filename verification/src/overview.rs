//! The figures of the resource overview and the statistics dashboard: the
//! stock of each item across every inventory, the number of buildings of
//! each kind, and how healthy the power supply is.
use crate::building::BuildingType;
use crate::inventory::Inventory;
use crate::item::{item_at, item_index, ItemType, ITEM_TYPE_COUNT};
use vstd::prelude::*;

verus! {

/// How many of `item` the inventories hold together.
pub open spec fn stock_of(invs: Seq<Inventory>, item: ItemType) -> nat
    decreases invs.len(),
{
    if invs.len() == 0 {
        0
    } else {
        stock_of(invs.drop_last(), item) + invs.last().amount(item) as nat
    }
}

/// The items among the first `k` of the item order that are held somewhere,
/// each with its stock, in item order.
pub open spec fn stock_upto(invs: Seq<Inventory>, k: nat) -> Seq<(ItemType, u32)>
    decreases k,
{
    if k == 0 {
        Seq::empty()
    } else {
        let prev = stock_upto(invs, (k - 1) as nat);
        let item = item_at((k - 1) as nat);
        if stock_of(invs, item) > 0 {
            prev.push((item, stock_of(invs, item) as u32))
        } else {
            prev
        }
    }
}

/// Stock over a prefix of the inventories never exceeds the whole stock.
proof fn lemma_stock_prefix(invs: Seq<Inventory>, j: int, item: ItemType)
    requires
        0 <= j <= invs.len(),
    ensures
        stock_of(invs.take(j), item) <= stock_of(invs, item),
    decreases invs.len() - j,
{
    if j < invs.len() {
        lemma_stock_prefix(invs, j + 1, item);
        assert(invs.take(j + 1).drop_last() =~= invs.take(j));
    } else {
        assert(invs.take(j) =~= invs);
    }
}

/// Total stock of one item over all inventories.
fn stock_of_item(inventories: &[Inventory], item: ItemType) -> (n: u32)
    requires
        forall|k: int| 0 <= k < inventories@.len() ==> (#[trigger] inventories@[k]).wf(),
        stock_of(inventories@, item) <= u32::MAX,
    ensures
        n == stock_of(inventories@, item),
{
    let mut sum: u32 = 0;
    let mut j: usize = 0;
    while j < inventories.len()
        invariant
            j <= inventories@.len(),
            forall|k: int| 0 <= k < inventories@.len() ==> (#[trigger] inventories@[k]).wf(),
            stock_of(inventories@, item) <= u32::MAX,
            sum == stock_of(inventories@.take(j as int), item),
        decreases inventories@.len() - j,
    {
        proof {
            assert(inventories@.take(j + 1).drop_last() =~= inventories@.take(j as int));
            lemma_stock_prefix(inventories@, j + 1, item);
        }
        sum = sum + inventories[j].count(item);
        j = j + 1;
    }
    proof {
        assert(inventories@.take(inventories@.len() as int) =~= inventories@);
    }
    sum
}

/// Every item held anywhere, with its total over all inventories, in item
/// order: the "Resources" list of the overview and the stock table of the
/// dashboard.
pub fn stock_totals(inventories: &[Inventory]) -> (v: Vec<(ItemType, u32)>)
    requires
        forall|k: int| 0 <= k < inventories@.len() ==> (#[trigger] inventories@[k]).wf(),
        forall|item: ItemType| #[trigger] stock_of(inventories@, item) <= u32::MAX,
    ensures
        v@ == stock_upto(inventories@, ITEM_TYPE_COUNT as nat),
{
    let mut v: Vec<(ItemType, u32)> = Vec::new();
    let mut i: usize = 0;
    while i < ITEM_TYPE_COUNT
        invariant
            i <= ITEM_TYPE_COUNT,
            forall|k: int| 0 <= k < inventories@.len() ==> (#[trigger] inventories@[k]).wf(),
            forall|item: ItemType| #[trigger] stock_of(inventories@, item) <= u32::MAX,
            v@ == stock_upto(inventories@, i as nat),
        decreases ITEM_TYPE_COUNT - i,
    {
        let item = ItemType::from_index(i);
        let n = stock_of_item(inventories, item);
        if n > 0 {
            v.push((item, n));
        }
        i = i + 1;
    }
    v
}

/// The stock listed for an item is what the inventories hold together, and
/// an item is listed exactly when some inventory holds it.
pub proof fn lemma_stock_totals_listing(invs: Seq<Inventory>, item: ItemType)
    requires
        forall|it: ItemType| #[trigger] stock_of(invs, it) <= u32::MAX,
    ensures
        forall|e: (ItemType, u32)| #[trigger] stock_upto(invs, ITEM_TYPE_COUNT as nat).contains(e)
            ==> e.1 == stock_of(invs, e.0) && e.1 > 0,
        stock_of(invs, item) > 0 <==> stock_upto(invs, ITEM_TYPE_COUNT as nat).contains(
            (item, stock_of(invs, item) as u32),
        ),
{
    lemma_stock_upto_items(invs, ITEM_TYPE_COUNT as nat);
    if stock_of(invs, item) > 0 {
        lemma_stock_upto_has(invs, ITEM_TYPE_COUNT as nat, item);
    }
}

/// Entries of `stock_upto` name items below `k`, with their positive stock.
proof fn lemma_stock_upto_items(invs: Seq<Inventory>, k: nat)
    requires
        k <= 9,
        forall|it: ItemType| #[trigger] stock_of(invs, it) <= u32::MAX,
    ensures
        forall|e: (ItemType, u32)| #[trigger] stock_upto(invs, k).contains(e) ==> item_index(e.0)
            < k && e.1 == stock_of(invs, e.0) && stock_of(invs, e.0) > 0,
    decreases k,
{
    if k > 0 {
        lemma_stock_upto_items(invs, (k - 1) as nat);
        let prev = stock_upto(invs, (k - 1) as nat);
        let item = item_at((k - 1) as nat);
        assert forall|e: (ItemType, u32)| #[trigger] stock_upto(invs, k).contains(e) implies item_index(e.0)
            < k && e.1 == stock_of(invs, e.0) && stock_of(invs, e.0) > 0 by {
            if stock_of(invs, item) > 0 {
                let s = prev.push((item, stock_of(invs, item) as u32));
                let idx = choose|idx: int| 0 <= idx < s.len() && s[idx] == e;
                if idx < prev.len() {
                    assert(prev.contains(e));
                } else {
                    assert(e == (item, stock_of(invs, item) as u32));
                    crate::item::lemma_item_index_bijective(item, (k - 1) as nat);
                    assert(stock_of(invs, item) <= u32::MAX);
                }
            }
        }
    }
}

/// An item below `k` that is held somewhere is listed by `stock_upto`.
proof fn lemma_stock_upto_has(invs: Seq<Inventory>, k: nat, item: ItemType)
    requires
        item_index(item) < k <= 9,
        stock_of(invs, item) > 0,
        forall|it: ItemType| #[trigger] stock_of(invs, it) <= u32::MAX,
    ensures
        stock_upto(invs, k).contains((item, stock_of(invs, item) as u32)),
    decreases k,
{
    crate::item::lemma_item_index_bijective(item, (k - 1) as nat);
    let prev = stock_upto(invs, (k - 1) as nat);
    if item_index(item) == k - 1 {
        let s = prev.push((item, stock_of(invs, item) as u32));
        assert(s[prev.len() as int] == (item, stock_of(invs, item) as u32));
    } else {
        lemma_stock_upto_has(invs, (k - 1) as nat, item);
        let e = (item, stock_of(invs, item) as u32);
        let idx = choose|idx: int| 0 <= idx < prev.len() && prev[idx] == e;
        if stock_of(invs, item_at((k - 1) as nat)) > 0 {
            let s = prev.push((item_at((k - 1) as nat), stock_of(invs, item_at((k - 1) as nat)) as u32));
            assert(s[idx] == e);
        }
    }
}

/// The building kinds in the order the dashboard lists them.
pub open spec fn building_at(i: nat) -> BuildingType {
    if i == 0 {
        BuildingType::MiningDrill
    } else if i == 1 {
        BuildingType::TransportLine
    } else if i == 2 {
        BuildingType::Smelter
    } else if i == 3 {
        BuildingType::Assembler
    } else {
        BuildingType::Generator
    }
}

/// How many buildings kinds there are.
pub const BUILDING_KIND_COUNT: usize = 5;

/// How many entries of `kinds` are `b`.
pub open spec fn kind_count(kinds: Seq<BuildingType>, b: BuildingType) -> nat
    decreases kinds.len(),
{
    if kinds.len() == 0 {
        0
    } else {
        kind_count(kinds.drop_last(), b) + if kinds.last() == b {
            1nat
        } else {
            0nat
        }
    }
}

/// Among the first `k` kinds of the dashboard order, those present, each
/// with its number of buildings.
pub open spec fn counts_upto(kinds: Seq<BuildingType>, k: nat) -> Seq<(BuildingType, u32)>
    decreases k,
{
    if k == 0 {
        Seq::empty()
    } else {
        let prev = counts_upto(kinds, (k - 1) as nat);
        let b = building_at((k - 1) as nat);
        if kind_count(kinds, b) > 0 {
            prev.push((b, kind_count(kinds, b) as u32))
        } else {
            prev
        }
    }
}

proof fn lemma_kind_count_bound(kinds: Seq<BuildingType>, b: BuildingType)
    ensures
        kind_count(kinds, b) <= kinds.len(),
    decreases kinds.len(),
{
    if kinds.len() > 0 {
        lemma_kind_count_bound(kinds.drop_last(), b);
    }
}

/// Number of buildings of kind `b`.
fn count_kind(kinds: &[BuildingType], b: BuildingType) -> (n: u32)
    requires
        kinds@.len() <= u32::MAX,
    ensures
        n == kind_count(kinds@, b),
{
    let mut n: u32 = 0;
    let mut j: usize = 0;
    while j < kinds.len()
        invariant
            j <= kinds@.len(),
            kinds@.len() <= u32::MAX,
            n == kind_count(kinds@.take(j as int), b),
        decreases kinds@.len() - j,
    {
        proof {
            assert(kinds@.take(j + 1).drop_last() =~= kinds@.take(j as int));
            lemma_kind_count_bound(kinds@.take(j as int), b);
        }
        if kinds[j] == b {
            n = n + 1;
        }
        j = j + 1;
    }
    proof {
        assert(kinds@.take(kinds@.len() as int) =~= kinds@);
    }
    n
}

/// The dashboard's building table: each kind that has buildings, with how
/// many, in the order drill, transport line, smelter, assembler, generator.
pub fn building_counts(kinds: &[BuildingType]) -> (v: Vec<(BuildingType, u32)>)
    requires
        kinds@.len() <= u32::MAX,
    ensures
        v@ == counts_upto(kinds@, BUILDING_KIND_COUNT as nat),
{
    let order: [BuildingType; 5] = [
        BuildingType::MiningDrill,
        BuildingType::TransportLine,
        BuildingType::Smelter,
        BuildingType::Assembler,
        BuildingType::Generator,
    ];
    let mut v: Vec<(BuildingType, u32)> = Vec::new();
    let mut i: usize = 0;
    while i < BUILDING_KIND_COUNT
        invariant
            i <= BUILDING_KIND_COUNT,
            kinds@.len() <= u32::MAX,
            order@ == seq![
                BuildingType::MiningDrill,
                BuildingType::TransportLine,
                BuildingType::Smelter,
                BuildingType::Assembler,
                BuildingType::Generator,
            ],
            v@ == counts_upto(kinds@, i as nat),
        decreases BUILDING_KIND_COUNT - i,
    {
        let b = order[i];
        assert(b == building_at(i as nat));
        let n = count_kind(kinds, b);
        if n > 0 {
            v.push((b, n));
        }
        i = i + 1;
    }
    v
}

/// How the power supply is doing, by the share of demand met.
#[derive(Clone, Copy, Debug, PartialEq, Eq, Structural)]
pub enum PowerHealth {
    /// All demand met.
    Full,
    /// At least half of the demand met.
    Strained,
    /// Less than half met.
    Critical,
}

/// The band of a whole-percent efficiency figure: 100 and up is full,
/// 50 and up strained, below that critical.
pub fn power_health(percent: u32) -> (h: PowerHealth)
    ensures
        h == if percent >= 100 {
            PowerHealth::Full
        } else if percent >= 50 {
            PowerHealth::Strained
        } else {
            PowerHealth::Critical
        },
{
    if percent >= 100 {
        PowerHealth::Full
    } else if percent >= 50 {
        PowerHealth::Strained
    } else {
        PowerHealth::Critical
    }
}

} // verus!
