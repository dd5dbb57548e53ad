//! Building kinds and the occupancy map of the factory grid.
use crate::common::{GridPosition, TileType};
use std::collections::HashMap;
use vstd::prelude::*;

verus! {

broadcast use vstd::std_specs::hash::group_hash_axioms;

/// Every kind of building the player can place.
#[derive(Clone, Copy, Debug, PartialEq, Eq, Hash, Structural)]
pub enum BuildingType {
    MiningDrill,
    TransportLine,
    Smelter,
    Assembler,
    Generator,
}

/// Human-readable name of a building kind.
pub open spec fn building_name(b: BuildingType) -> Seq<char> {
    match b {
        BuildingType::MiningDrill => "Mining Drill"@,
        BuildingType::TransportLine => "Transport Line"@,
        BuildingType::Smelter => "Smelter"@,
        BuildingType::Assembler => "Assembler"@,
        BuildingType::Generator => "Generator"@,
    }
}

impl BuildingType {
    /// Human-readable name, e.g. "Mining Drill".
    pub fn name(self) -> (s: &'static str)
        ensures
            s@ == building_name(self),
    {
        match self {
            BuildingType::MiningDrill => "Mining Drill",
            BuildingType::TransportLine => "Transport Line",
            BuildingType::Smelter => "Smelter",
            BuildingType::Assembler => "Assembler",
            BuildingType::Generator => "Generator",
        }
    }
}

/// Marks a placed building and what kind it is.
#[derive(Clone, Copy, Debug, PartialEq, Eq, Structural)]
pub struct Building {
    pub building_type: BuildingType,
}

/// The key under which a grid cell is stored: the column in the high half,
/// the row in the low half.
pub open spec fn cell_key(pos: GridPosition) -> u64 {
    (pos.x as u64 * 0x1_0000_0000 + pos.y as u64) as u64
}

/// Distinct cells have distinct keys.
pub proof fn lemma_cell_key_injective(a: GridPosition, b: GridPosition)
    ensures
        cell_key(a) == cell_key(b) <==> a == b,
{
}

fn key_of(pos: &GridPosition) -> (k: u64)
    ensures
        k == cell_key(*pos),
{
    pos.x as u64 * 0x1_0000_0000 + pos.y as u64
}

/// Which building (by entity id) occupies each grid cell; a cell holds at
/// most one building.
#[derive(Debug)]
pub struct BuildingMap {
    map: HashMap<u64, u64>,
}

impl BuildingMap {
    /// The occupant of every occupied cell, by cell key.
    pub closed spec fn occupants(&self) -> Map<u64, u64> {
        self.map@
    }

    /// The occupant of a cell, if any.
    pub open spec fn occupant(&self, pos: GridPosition) -> Option<u64> {
        if self.occupants().contains_key(cell_key(pos)) {
            Some(self.occupants()[cell_key(pos)])
        } else {
            None
        }
    }

    pub fn new() -> (m: BuildingMap)
        ensures
            m.occupants() == Map::<u64, u64>::empty(),
    {
        BuildingMap { map: HashMap::new() }
    }

    /// Whether a grid cell is occupied.
    pub fn is_occupied(&self, pos: &GridPosition) -> (r: bool)
        ensures
            r == self.occupant(*pos).is_some(),
    {
        let k = key_of(pos);
        self.map.contains_key(&k)
    }

    /// The building at a grid cell, if any.
    pub fn get(&self, pos: &GridPosition) -> (r: Option<u64>)
        ensures
            r == self.occupant(*pos),
    {
        let k = key_of(pos);
        match self.map.get(&k) {
            Some(e) => Some(*e),
            None => None,
        }
    }

    /// Registers a building at a cell; refused (returns false, nothing
    /// changes) when the cell is already occupied.
    pub fn insert(&mut self, pos: GridPosition, entity: u64) -> (placed: bool)
        ensures
            placed == old(self).occupant(pos).is_none(),
            placed ==> final(self).occupants() == old(self).occupants().insert(cell_key(pos), entity),
            !placed ==> final(self).occupants() == old(self).occupants(),
    {
        if self.is_occupied(&pos) {
            false
        } else {
            let k = key_of(&pos);
            self.map.insert(k, entity);
            true
        }
    }

    /// Removes the building at a cell, returning it if one was there.
    pub fn remove(&mut self, pos: &GridPosition) -> (r: Option<u64>)
        ensures
            r == old(self).occupant(*pos),
            final(self).occupants() == old(self).occupants().remove(cell_key(*pos)),
    {
        let k = key_of(pos);
        self.map.remove(&k)
    }
}

impl Default for BuildingMap {
    fn default() -> (m: BuildingMap)
        ensures
            m.occupants() == Map::<u64, u64>::empty(),
    {
        BuildingMap::new()
    }
}

/// What a successful placement leaves behind: the new building is found at
/// its cell, and every other cell keeps its occupant.
pub proof fn lemma_insert_then_get(before: BuildingMap, after: BuildingMap, pos: GridPosition, entity: u64, other: GridPosition)
    requires
        before.occupant(pos).is_none(),
        after.occupants() == before.occupants().insert(cell_key(pos), entity),
    ensures
        after.occupant(pos) == Some(entity),
        other != pos ==> after.occupant(other) == before.occupant(other),
{
    lemma_cell_key_injective(pos, other);
}

/// After removal a cell is free, and every other cell keeps its occupant.
pub proof fn lemma_remove_frees_cell(before: BuildingMap, after: BuildingMap, pos: GridPosition, other: GridPosition)
    requires
        after.occupants() == before.occupants().remove(cell_key(pos)),
    ensures
        after.occupant(pos).is_none(),
        other != pos ==> after.occupant(other) == before.occupant(other),
{
    lemma_cell_key_injective(pos, other);
}

/// The two-click tool that lays transport lines: the cell of the building
/// chosen as the source, once the first click has chosen one.
#[derive(Clone, Copy, Debug, PartialEq, Eq, Structural)]
pub struct TransportLinePlacement {
    pub source: Option<GridPosition>,
}

impl Default for TransportLinePlacement {
    fn default() -> (p: TransportLinePlacement)
        ensures
            p.source is None,
    {
        TransportLinePlacement { source: None }
    }
}

/// What a click with the transport-line tool comes to.
#[derive(Clone, Copy, Debug, PartialEq, Eq, Structural)]
pub enum TransportClick {
    /// The clicked building is now the source.
    SourceMarked,
    /// Nothing happens.
    Ignored,
    /// The source building has gone; the tool starts over.
    SourceLost,
    /// Lay a line from the source building (at `source_pos`) to the clicked
    /// building.
    Connect { source: u64, destination: u64, source_pos: GridPosition },
}

impl TransportLinePlacement {
    /// A click on cell `pos`. The first click marks the building there as
    /// the source (an empty cell is ignored). The second click connects the
    /// source to the building at `pos` and resets the tool; an empty cell
    /// is ignored and keeps the source, and a source whose building is gone
    /// resets the tool.
    pub fn click(&mut self, pos: GridPosition, map: &BuildingMap) -> (r: TransportClick)
        ensures
            match old(self).source {
                None => if map.occupant(pos) is Some {
                    r == TransportClick::SourceMarked && final(self).source == Some(pos)
                } else {
                    r == TransportClick::Ignored && final(self).source is None
                },
                Some(s) => match map.occupant(s) {
                    None => r == TransportClick::SourceLost && final(self).source is None,
                    Some(se) => match map.occupant(pos) {
                        None => r == TransportClick::Ignored && final(self).source == Some(s),
                        Some(de) => r == (TransportClick::Connect { source: se, destination: de, source_pos: s })
                            && final(self).source is None,
                    },
                },
            },
    {
        match self.source {
            None => {
                if map.is_occupied(&pos) {
                    self.source = Some(pos);
                    TransportClick::SourceMarked
                } else {
                    TransportClick::Ignored
                }
            },
            Some(s) => {
                match map.get(&s) {
                    None => {
                        self.source = None;
                        TransportClick::SourceLost
                    },
                    Some(se) => {
                        match map.get(&pos) {
                            None => TransportClick::Ignored,
                            Some(de) => {
                                self.source = None;
                                TransportClick::Connect { source: se, destination: de, source_pos: s }
                            },
                        }
                    },
                }
            },
        }
    }
}

/// Whether a building may go on a cell, given the cell's tile (`None` off
/// the grid) and whether another building occupies it: transport lines may
/// share cells; a mining drill needs a copper or iron deposit; anything else
/// may go anywhere but on rock.
pub open spec fn placement_ok(building_type: BuildingType, tile: Option<TileType>, occupied: bool) -> bool {
    if building_type != BuildingType::TransportLine && occupied {
        false
    } else if building_type == BuildingType::MiningDrill {
        tile == Some(TileType::CopperDeposit) || tile == Some(TileType::IronDeposit)
    } else {
        tile != Some(TileType::Rock)
    }
}

/// Checks whether a building can be placed on a cell with the given tile
/// and occupancy.
pub fn is_valid_placement(building_type: BuildingType, tile: Option<TileType>, occupied: bool) -> (r: bool)
    ensures
        r == placement_ok(building_type, tile, occupied),
{
    if building_type != BuildingType::TransportLine && occupied {
        return false;
    }
    if building_type == BuildingType::MiningDrill {
        return match tile {
            Some(TileType::CopperDeposit) => true,
            Some(TileType::IronDeposit) => true,
            _ => false,
        };
    }
    match tile {
        Some(TileType::Rock) => false,
        _ => true,
    }
}

} // verus!
