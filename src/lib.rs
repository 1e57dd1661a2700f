//! A turn-based territorial-conquest game: a fixed world map, per-player
//! ledgers of armies, initial allocation, reinforcement and dice combat.
pub mod allocation;
pub mod combat;
pub mod game;
pub mod ledger;
pub mod world;
