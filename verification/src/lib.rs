//! Core simulation and economy logic for the Infinite Flux factory game.
pub mod credits;
pub mod text;
pub mod price_history;
pub mod item;
pub mod order_book;
pub mod wallet;
pub mod contract;
pub mod markets;
pub mod protocol;
pub mod common;
pub mod recipe;
pub mod skill;
pub mod inventory;
pub mod production;
pub mod building;
pub mod mining;
pub mod transport;
pub mod blueprint;
pub mod stats;
pub mod fleet;
pub mod loot;
pub mod messages;
pub mod server;
pub mod logistics;
pub mod tutorial;
pub mod cargo;
pub mod client;
pub mod market_ui;
pub mod destinations;
pub mod market_panel;
pub mod overview;
pub mod save_ids;
pub mod galaxy;
pub mod ship_fit;
