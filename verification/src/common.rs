//! Shared grid types: tile kinds and grid positions.
use vstd::prelude::*;

verus! {

/// Default grid width of a planetary surface, in tiles.
pub const DEFAULT_GRID_WIDTH: u32 = 32;

/// Default grid height of a planetary surface, in tiles.
pub const DEFAULT_GRID_HEIGHT: u32 = 32;

/// What kind of terrain occupies a grid cell.
#[derive(Clone, Copy, Debug, PartialEq, Eq, Structural)]
pub enum TileType {
    Empty,
    Rock,
    CopperDeposit,
    IronDeposit,
}

impl Default for TileType {
    fn default() -> (t: TileType)
        ensures
            t == TileType::Empty,
    {
        TileType::Empty
    }
}

/// A logical cell of the tile grid (column, row), not a pixel position.
#[derive(Clone, Copy, Debug, PartialEq, Eq, Hash, Structural)]
pub struct GridPosition {
    pub x: u32,
    pub y: u32,
}

impl GridPosition {
    pub fn new(x: u32, y: u32) -> (p: GridPosition)
        ensures
            p.x == x,
            p.y == y,
    {
        GridPosition { x, y }
    }
}

} // verus!
