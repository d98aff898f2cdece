//! Publishing pipeline for a curated list of online events: source records
//! are checked against a strict schema, past events are dropped, the rest are
//! stamped with local times and split into category and language partitions,
//! whose sizes are ranked for the index page.

pub mod model;
pub mod clock;
pub mod source;
pub mod timeline;
pub mod partition;
pub mod ranking;
pub mod render;
pub mod site;
