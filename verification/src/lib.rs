//! Parsing and caching of strategy-game universe snapshots.
//!
//! The crate turns the raw "gamestate" text of a save archive into a typed
//! entity graph (species, pops, planets, empires, galactic objects), keeps a
//! date-keyed store of such snapshots, and round-trips the store through a
//! compact textual cache format.
pub mod cache;
pub mod dates;
pub mod errors;
pub mod store;
pub mod text;
pub mod ethic;
pub mod gamestate;
pub mod model;
pub mod num;
