//! Blueprints: a group of buildings saved as offsets from its top-left
//! corner, so that it can be stamped down elsewhere.
use crate::building::{is_valid_placement, placement_ok, BuildingType};
use crate::common::{GridPosition, TileType};
use crate::text::{decimal, owned, push_decimal, push_str};
use vstd::prelude::*;

verus! {

/// One building of a blueprint, placed relative to the blueprint's origin.
#[derive(Debug)]
pub struct BlueprintEntry {
    pub offset: (i32, i32),
    pub building_type: BuildingType,
    pub recipe_name: Option<String>,
}

impl Clone for BlueprintEntry {
    fn clone(&self) -> (c: BlueprintEntry)
        ensures
            c == *self,
    {
        BlueprintEntry {
            offset: (self.offset.0, self.offset.1),
            building_type: self.building_type,
            recipe_name: match &self.recipe_name {
                Some(s) => Some(s.clone()),
                None => None,
            },
        }
    }
}

/// A named group of buildings.
#[derive(Clone, Debug)]
pub struct Blueprint {
    pub name: String,
    pub entries: Vec<BlueprintEntry>,
}

/// All blueprints the player has saved.
#[derive(Clone, Debug)]
pub struct Blueprints {
    pub blueprints: Vec<Blueprint>,
}

impl Default for Blueprints {
    fn default() -> (b: Blueprints)
        ensures
            b.blueprints@.len() == 0,
    {
        Blueprints { blueprints: Vec::new() }
    }
}

/// A placed building as a blueprint is made from it: column, row, kind and
/// the recipe it runs, if any.
pub type PlacedBuilding = (u32, u32, BuildingType, Option<String>);

/// A `u32` read as an `i32` (two's complement).
pub open spec fn as_i32(v: u32) -> int {
    if v <= i32::MAX {
        v as int
    } else {
        v - 0x1_0000_0000
    }
}

/// The smallest column among the first `k` buildings (`u32::MAX` for none).
pub open spec fn min_x(b: Seq<PlacedBuilding>, k: int) -> u32
    decreases k,
{
    if k <= 0 || k > b.len() {
        u32::MAX
    } else {
        let m = min_x(b, k - 1);
        if b[k - 1].0 < m {
            b[k - 1].0
        } else {
            m
        }
    }
}

/// The smallest row among the first `k` buildings (`u32::MAX` for none).
pub open spec fn min_y(b: Seq<PlacedBuilding>, k: int) -> u32
    decreases k,
{
    if k <= 0 || k > b.len() {
        u32::MAX
    } else {
        let m = min_y(b, k - 1);
        if b[k - 1].1 < m {
            b[k - 1].1
        } else {
            m
        }
    }
}

/// The offset of each building from the smallest column and row, as the
/// signed difference of the coordinates read as `i32`, fits in an `i32`.
pub open spec fn offsets_fit(b: Seq<PlacedBuilding>) -> bool {
    forall|i: int|
        0 <= i < b.len() ==> {
            &&& i32::MIN <= as_i32(#[trigger] b[i].0) - as_i32(min_x(b, b.len() as int)) <= i32::MAX
            &&& i32::MIN <= as_i32(b[i].1) - as_i32(min_y(b, b.len() as int)) <= i32::MAX
        }
}

/// The smallest of the first `k` columns (rows) is at most each of them.
proof fn lemma_min_bounds(b: Seq<PlacedBuilding>, k: int, i: int)
    requires
        0 <= i < k <= b.len(),
    ensures
        min_x(b, k) <= b[i].0,
        min_y(b, k) <= b[i].1,
    decreases k,
{
    if i < k - 1 {
        lemma_min_bounds(b, k - 1, i);
    }
}

fn signed(v: u32) -> (r: i32)
    ensures
        r == as_i32(v),
{
    if v <= 0x7fff_ffff {
        v as i32
    } else {
        let low: i32 = (v - 0x8000_0000) as i32;
        low - 0x7fff_ffff - 1
    }
}

impl Blueprint {
    /// An empty blueprint.
    pub fn new(name: &str) -> (bp: Blueprint)
        ensures
            bp.name@ == name@,
            bp.entries@.len() == 0,
    {
        Blueprint { name: owned(name), entries: Vec::new() }
    }

    /// A blueprint of the given buildings, in their order, each placed at
    /// its offset from the smallest column and the smallest row among them.
    pub fn from_buildings(name: &str, buildings: &[PlacedBuilding]) -> (bp: Blueprint)
        requires
            offsets_fit(buildings@),
        ensures
            bp.name@ == name@,
            bp.entries@.len() == buildings@.len(),
            forall|i: int|
                0 <= i < buildings@.len() ==> {
                    let b = #[trigger] buildings@[i];
                    let e = bp.entries@[i];
                    &&& e.offset.0 == as_i32(b.0) - as_i32(min_x(buildings@, buildings@.len() as int))
                    &&& e.offset.1 == as_i32(b.1) - as_i32(min_y(buildings@, buildings@.len() as int))
                    &&& e.building_type == b.2
                    &&& e.recipe_name == b.3
                },
    {
        if buildings.len() == 0 {
            return Blueprint::new(name);
        }
        let mut mx: u32 = u32::MAX;
        let mut my: u32 = u32::MAX;
        let mut k: usize = 0;
        while k < buildings.len()
            invariant
                k <= buildings@.len(),
                mx == min_x(buildings@, k as int),
                my == min_y(buildings@, k as int),
            decreases buildings@.len() - k,
        {
            if buildings[k].0 < mx {
                mx = buildings[k].0;
            }
            if buildings[k].1 < my {
                my = buildings[k].1;
            }
            k = k + 1;
        }
        let smx = signed(mx);
        let smy = signed(my);
        let mut entries: Vec<BlueprintEntry> = Vec::new();
        let mut i: usize = 0;
        while i < buildings.len()
            invariant
                i <= buildings@.len(),
                smx == as_i32(min_x(buildings@, buildings@.len() as int)),
                smy == as_i32(min_y(buildings@, buildings@.len() as int)),
                offsets_fit(buildings@),
                entries@.len() == i,
                forall|j: int|
                    0 <= j < i ==> {
                        let b = #[trigger] buildings@[j];
                        let e = entries@[j];
                        &&& e.offset.0 == as_i32(b.0) - smx
                        &&& e.offset.1 == as_i32(b.1) - smy
                        &&& e.building_type == b.2
                        &&& e.recipe_name == b.3
                    },
            decreases buildings@.len() - i,
        {
            let b = &buildings[i];
            assert(i32::MIN <= as_i32(buildings@[i as int].0) - smx <= i32::MAX);
            let dx = signed(b.0) - smx;
            let dy = signed(b.1) - smy;
            let recipe_name = match &b.3 {
                Some(s) => Some(s.clone()),
                None => None,
            };
            entries.push(BlueprintEntry { offset: (dx, dy), building_type: b.2, recipe_name });
            i = i + 1;
        }
        Blueprint { name: owned(name), entries }
    }
}

/// The origin of a blueprint is its corner: no building lies left of its
/// column or below its row, and some building sits on each.
pub proof fn lemma_offsets_from_corner(b: Seq<PlacedBuilding>, i: int)
    requires
        0 <= i < b.len(),
    ensures
        min_x(b, b.len() as int) <= b[i].0,
        min_y(b, b.len() as int) <= b[i].1,
        exists|j: int| 0 <= j < b.len() && #[trigger] b[j].0 == min_x(b, b.len() as int),
        exists|j: int| 0 <= j < b.len() && #[trigger] b[j].1 == min_y(b, b.len() as int),
{
    lemma_min_bounds(b, b.len() as int, i);
    lemma_min_attained(b, b.len() as int);
}

/// The smallest column and row of a non-empty prefix belong to one of its
/// buildings.
proof fn lemma_min_attained(b: Seq<PlacedBuilding>, k: int)
    requires
        0 < k <= b.len(),
    ensures
        exists|j: int| 0 <= j < k && #[trigger] b[j].0 == min_x(b, k),
        exists|j: int| 0 <= j < k && #[trigger] b[j].1 == min_y(b, k),
    decreases k,
{
    if k > 1 {
        lemma_min_attained(b, k - 1);
        if b[k - 1].0 >= min_x(b, k - 1) {
            let j = choose|j: int| 0 <= j < k - 1 && #[trigger] b[j].0 == min_x(b, k - 1);
            assert(b[j].0 == min_x(b, k));
        } else {
            assert(b[k - 1].0 == min_x(b, k));
        }
        if b[k - 1].1 >= min_y(b, k - 1) {
            let j = choose|j: int| 0 <= j < k - 1 && #[trigger] b[j].1 == min_y(b, k - 1);
            assert(b[j].1 == min_y(b, k));
        } else {
            assert(b[k - 1].1 == min_y(b, k));
        }
    } else {
        assert(min_x(b, 0) == u32::MAX && min_y(b, 0) == u32::MAX);
        assert(b[0].0 == min_x(b, 1));
        assert(b[0].1 == min_y(b, 1));
    }
}

/// The cell where an entry lands when a blueprint is pasted at `origin`,
/// or `None` when it falls outside a `width` by `height` grid.
pub open spec fn paste_cell(origin: GridPosition, offset: (i32, i32), width: u32, height: u32) -> Option<GridPosition> {
    let tx = as_i32(origin.x) + offset.0;
    let ty = as_i32(origin.y) + offset.1;
    if tx < 0 || ty < 0 || tx >= width || ty >= height {
        None
    } else {
        Some(GridPosition { x: tx as u32, y: ty as u32 })
    }
}

/// Pasting lands on the grid or nowhere: a cell is returned exactly when
/// the origin moved by the offset lies inside the `width` by `height` grid,
/// and then it is that cell, with column below `width` and row below
/// `height`.
pub proof fn lemma_paste_lands_on_grid(origin: GridPosition, offset: (i32, i32), width: u32, height: u32)
    ensures
        ({
            let tx = as_i32(origin.x) + offset.0;
            let ty = as_i32(origin.y) + offset.1;
            &&& (paste_cell(origin, offset, width, height) is Some) <==> (0 <= tx < width && 0 <= ty < height)
            &&& paste_cell(origin, offset, width, height) matches Some(p) ==> p.x < width && p.y < height
                && p.x == tx && p.y == ty
        }),
{
}

/// Where a blueprint entry lands when pasted at `origin` on a grid of the
/// given size; `None` when off the grid.
pub fn paste_target(origin: GridPosition, offset: (i32, i32), width: u32, height: u32) -> (r: Option<GridPosition>)
    requires
        i32::MIN <= as_i32(origin.x) + offset.0 <= i32::MAX,
        i32::MIN <= as_i32(origin.y) + offset.1 <= i32::MAX,
    ensures
        r == paste_cell(origin, offset, width, height),
        r matches Some(p) ==> p.x < width && p.y < height,
{
    let tx = signed(origin.x) + offset.0;
    let ty = signed(origin.y) + offset.1;
    if tx < 0 || ty < 0 || tx as u32 >= width || ty as u32 >= height {
        None
    } else {
        Some(GridPosition::new(tx as u32, ty as u32))
    }
}

/// Copy then paste: pasting a blueprint at the corner it was taken from
/// puts every building back on its own cell (for coordinates that fit an
/// `i32` and cells on the grid).
pub proof fn lemma_paste_at_origin_restores(b: Seq<PlacedBuilding>, i: int, width: u32, height: u32)
    requires
        0 <= i < b.len(),
        b[i].0 <= i32::MAX,
        b[i].1 <= i32::MAX,
        b[i].0 < width,
        b[i].1 < height,
    ensures
        ({
            let mx = min_x(b, b.len() as int);
            let my = min_y(b, b.len() as int);
            let offset = ((as_i32(b[i].0) - as_i32(mx)) as i32, (as_i32(b[i].1) - as_i32(my)) as i32);
            paste_cell(GridPosition { x: mx, y: my }, offset, width, height) == Some(
                GridPosition { x: b[i].0, y: b[i].1 },
            )
        }),
{
    lemma_min_bounds(b, b.len() as int, i);
}

/// What the blueprint tool is doing.
#[derive(Clone, Copy, Debug, PartialEq, Eq, Structural)]
pub enum BlueprintMode {
    /// The tool is off.
    Inactive,
    /// The blueprint panel is open.
    Browsing,
    /// Waiting for the first corner of a region to copy.
    CopySelectFirst,
    /// First corner chosen, waiting for the second.
    CopySelectSecond(GridPosition),
    /// Stamping the blueprint at this position of the saved list.
    Pasting(usize),
}

impl Default for BlueprintMode {
    fn default() -> (m: BlueprintMode)
        ensures
            m == BlueprintMode::Inactive,
    {
        BlueprintMode::Inactive
    }
}

/// The smaller and larger corner of the rectangle spanned by two cells.
pub open spec fn region_of(a: GridPosition, b: GridPosition) -> (GridPosition, GridPosition) {
    (
        GridPosition { x: if a.x <= b.x { a.x } else { b.x }, y: if a.y <= b.y { a.y } else { b.y } },
        GridPosition { x: if a.x <= b.x { b.x } else { a.x }, y: if a.y <= b.y { b.y } else { a.y } },
    )
}

impl BlueprintMode {
    /// The blueprint key: opens the tool when it is off, else turns it off.
    pub fn toggle(self) -> (m: BlueprintMode)
        ensures
            m == if self == BlueprintMode::Inactive {
                BlueprintMode::Browsing
            } else {
                BlueprintMode::Inactive
            },
    {
        match self {
            BlueprintMode::Inactive => BlueprintMode::Browsing,
            _ => BlueprintMode::Inactive,
        }
    }

    /// The copy key: starts a copy while browsing; does nothing otherwise.
    pub fn copy_key(self) -> (m: BlueprintMode)
        ensures
            m == if self == BlueprintMode::Browsing {
                BlueprintMode::CopySelectFirst
            } else {
                self
            },
    {
        match self {
            BlueprintMode::Browsing => BlueprintMode::CopySelectFirst,
            _ => self,
        }
    }

    /// A click on a cell while copying. The first click records a corner;
    /// the second returns to browsing and yields the region between the two
    /// corners (smaller corner first). Other modes ignore the click.
    pub fn copy_click(self, pos: GridPosition) -> (r: (BlueprintMode, Option<(GridPosition, GridPosition)>))
        ensures
            r == match self {
                BlueprintMode::CopySelectFirst => (BlueprintMode::CopySelectSecond(pos), None),
                BlueprintMode::CopySelectSecond(first) => (BlueprintMode::Browsing, Some(region_of(first, pos))),
                _ => (self, None),
            },
    {
        match self {
            BlueprintMode::CopySelectFirst => (BlueprintMode::CopySelectSecond(pos), None),
            BlueprintMode::CopySelectSecond(first) => {
                let lo = GridPosition::new(
                    if first.x <= pos.x { first.x } else { pos.x },
                    if first.y <= pos.y { first.y } else { pos.y },
                );
                let hi = GridPosition::new(
                    if first.x <= pos.x { pos.x } else { first.x },
                    if first.y <= pos.y { pos.y } else { first.y },
                );
                (BlueprintMode::Browsing, Some((lo, hi)))
            },
            _ => (self, None),
        }
    }

    /// After the saved blueprint at `idx` was deleted: pasting that one
    /// falls back to browsing, pasting a later one follows it down a place.
    pub fn after_delete(self, idx: usize) -> (m: BlueprintMode)
        ensures
            m == mode_after_delete(self, idx),
    {
        match self {
            BlueprintMode::Pasting(i) => {
                if i == idx {
                    BlueprintMode::Browsing
                } else if i > idx {
                    BlueprintMode::Pasting(i - 1)
                } else {
                    self
                }
            },
            _ => self,
        }
    }
}

/// The mode once the saved blueprint at `idx` is deleted.
pub open spec fn mode_after_delete(m: BlueprintMode, idx: usize) -> BlueprintMode {
    match m {
        BlueprintMode::Pasting(i) => if i == idx {
            BlueprintMode::Browsing
        } else if i > idx {
            BlueprintMode::Pasting((i - 1) as usize)
        } else {
            m
        },
        _ => m,
    }
}

/// Deleting another saved blueprint leaves the tool pasting the same
/// blueprint it was pasting; deleting that one returns to browsing.
pub proof fn lemma_after_delete_keeps_pasted(bps: Seq<Blueprint>, idx: usize, i: usize)
    requires
        idx < bps.len(),
        i < bps.len(),
    ensures
        i == idx ==> mode_after_delete(BlueprintMode::Pasting(i), idx) == BlueprintMode::Browsing,
        i != idx ==> (mode_after_delete(BlueprintMode::Pasting(i), idx) matches BlueprintMode::Pasting(j) && j
            < bps.remove(idx as int).len() && bps.remove(idx as int)[j as int] == bps[i as int]),
{
}

/// The cells of column `x` from row `lo_y` to row `hi_y`, top to bottom.
pub open spec fn column_cells(x: u32, lo_y: u32, hi_y: u32) -> Seq<GridPosition> {
    Seq::new((hi_y - lo_y + 1) as nat, |j: int| GridPosition { x, y: (lo_y + j) as u32 })
}

/// The cells of the first `n` columns of the region `lo..=hi`, column by
/// column.
pub open spec fn region_upto(lo: GridPosition, hi: GridPosition, n: nat) -> Seq<GridPosition>
    decreases n,
{
    if n == 0 {
        Seq::empty()
    } else {
        region_upto(lo, hi, (n - 1) as nat) + column_cells((lo.x + n - 1) as u32, lo.y, hi.y)
    }
}

/// Every cell of the region from corner `lo` to corner `hi` (inclusive),
/// column by column and top to bottom within a column: the order in which
/// a copy collects buildings.
pub fn region_cells(lo: GridPosition, hi: GridPosition) -> (v: Vec<GridPosition>)
    requires
        lo.x <= hi.x,
        lo.y <= hi.y,
    ensures
        v@ == region_upto(lo, hi, (hi.x - lo.x + 1) as nat),
{
    let mut v: Vec<GridPosition> = Vec::new();
    let mut x: u64 = lo.x as u64;
    while x <= hi.x as u64
        invariant
            lo.x <= x <= hi.x as int + 1,
            lo.x <= hi.x,
            lo.y <= hi.y,
            v@ == region_upto(lo, hi, (x - lo.x) as nat),
        decreases hi.x as int + 1 - x,
    {
        let ghost before = v@;
        let mut y: u64 = lo.y as u64;
        while y <= hi.y as u64
            invariant
                lo.x <= x <= hi.x,
                lo.y <= y <= hi.y as int + 1,
                lo.y <= hi.y,
                v@ == before + column_cells(x as u32, lo.y, hi.y).take(y - lo.y),
            decreases hi.y as int + 1 - y,
        {
            proof {
                assert(column_cells(x as u32, lo.y, hi.y).take(y - lo.y + 1) =~= column_cells(
                    x as u32,
                    lo.y,
                    hi.y,
                ).take(y - lo.y).push(GridPosition { x: x as u32, y: y as u32 }));
            }
            v.push(GridPosition::new(x as u32, y as u32));
            y = y + 1;
        }
        proof {
            let col = column_cells(x as u32, lo.y, hi.y);
            assert(col.take(col.len() as int) =~= col);
            assert(region_upto(lo, hi, (x + 1 - lo.x) as nat) == region_upto(lo, hi, (x - lo.x) as nat)
                + column_cells((lo.x + (x + 1 - lo.x) - 1) as u32, lo.y, hi.y));
        }
        x = x + 1;
    }
    v
}

/// Name of the next blueprint after `count` saved ones: `"Blueprint n"`.
pub open spec fn blueprint_name(count: nat) -> Seq<char> {
    "Blueprint "@ + decimal(count + 1)
}

impl Blueprints {
    /// Saves a copy of the given buildings as a new blueprint named after
    /// its number; a region without buildings saves nothing. Returns
    /// whether a blueprint was saved.
    pub fn save_copy(&mut self, buildings: &[PlacedBuilding]) -> (saved: bool)
        requires
            offsets_fit(buildings@),
            old(self).blueprints@.len() < u64::MAX,
        ensures
            saved == (buildings@.len() > 0),
            !saved ==> final(self).blueprints@ == old(self).blueprints@,
            saved ==> final(self).blueprints@.len() == old(self).blueprints@.len() + 1,
            saved ==> final(self).blueprints@.drop_last() == old(self).blueprints@,
            saved ==> final(self).blueprints@.last().name@ == blueprint_name(old(self).blueprints@.len()),
            saved ==> final(self).blueprints@.last().entries@.len() == buildings@.len(),
    {
        if buildings.len() == 0 {
            return false;
        }
        let mut name = String::new();
        push_str(&mut name, "Blueprint ");
        push_decimal(&mut name, self.blueprints.len() as u64 + 1);
        let bp = Blueprint::from_buildings(name.as_str(), buildings);
        self.blueprints.push(bp);
        proof {
            assert(self.blueprints@.drop_last() =~= old(self).blueprints@);
        }
        true
    }
}

/// Whether a blueprint entry of this kind may be stamped on a cell with
/// this tile and occupancy: transport lines are never pasted, everything
/// else follows the placement rules.
pub open spec fn paste_ok(building_type: BuildingType, tile: Option<TileType>, occupied: bool) -> bool {
    building_type != BuildingType::TransportLine && placement_ok(building_type, tile, occupied)
}

/// Decides whether one blueprint entry is placed on its target cell.
pub fn can_paste(building_type: BuildingType, tile: Option<TileType>, occupied: bool) -> (r: bool)
    ensures
        r == paste_ok(building_type, tile, occupied),
{
    building_type != BuildingType::TransportLine && is_valid_placement(building_type, tile, occupied)
}

} // verus!
