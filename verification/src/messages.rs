//! Messages exchanged between client and server, and the snapshot of the
//! world sent to a player who joins.
use crate::common::GridPosition;
use crate::item::ItemType;
use vstd::prelude::*;

verus! {

/// Messages from a client to the server.
#[derive(Clone, Debug)]
pub enum ClientMessage {
    /// First message after connecting; announces the player.
    Hello { player_name: String },
    /// Place a building (by its wire code) at a grid cell.
    PlaceBuilding { pos: GridPosition, building_type: u8 },
    /// Remove the building at a grid cell.
    RemoveBuilding { pos: GridPosition },
    /// A chat line.
    Chat { text: String },
    /// Latency probe; the server echoes the timestamp back.
    Ping { timestamp_ms: u64 },
}

/// Messages from the server to clients.
#[derive(Clone, Debug)]
pub enum ServerMessage {
    /// Sent once on connect: the player's id and the current world.
    Welcome { player_id: u64, snapshot: WorldSnapshot },
    /// Changes since the last update.
    StateUpdate { frame: u64, updates: Vec<EntityUpdate> },
    /// A chat line relayed to everyone.
    Chat { from: String, text: String },
    /// Answer to a ping, with its timestamp.
    Pong { timestamp_ms: u64 },
    /// The server refused something.
    Error { reason: String },
}

/// The whole world as a joining player first sees it.
#[derive(Clone, Debug)]
pub struct WorldSnapshot {
    pub tick: u64,
    pub buildings: Vec<NetBuilding>,
    pub resources: Vec<NetResource>,
}

impl Default for WorldSnapshot {
    fn default() -> (s: WorldSnapshot)
        ensures
            s.tick == 0,
            s.buildings@.len() == 0,
            s.resources@.len() == 0,
    {
        WorldSnapshot { tick: 0, buildings: Vec::new(), resources: Vec::new() }
    }
}

/// A building as sent over the wire.
#[derive(Clone, Debug)]
pub struct NetBuilding {
    pub id: u32,
    pub pos: GridPosition,
    pub building_type: u8,
    pub inventory: Vec<(ItemType, u32)>,
}

/// A resource node as sent over the wire.
#[derive(Clone, Debug)]
pub struct NetResource {
    pub pos: GridPosition,
    pub resource: ItemType,
    pub remaining: u32,
}

/// One change to the world.
#[derive(Clone, Debug)]
pub enum EntityUpdate {
    BuildingPlaced(NetBuilding),
    BuildingRemoved { id: u32 },
    InventoryChanged { id: u32, inventory: Vec<(ItemType, u32)> },
    ResourceRemaining { pos: GridPosition, remaining: u32 },
}

} // verus!
