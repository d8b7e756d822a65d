//! Running statistics over a game client's line-oriented activity log:
//! named-count aggregates extracted from line ranges, an incremental
//! aggregation cache over immutable log files, and a session phase tracker
//! that segments the growing log into discrete dungeon runs.

pub mod aggregate;
pub mod cache;
pub mod dungeon_state_machine;
pub mod engines;
pub mod setting;
pub mod statics_address;
pub mod tsv;
pub mod utils;
