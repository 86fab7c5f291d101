//! Agent memory: the journaled rows, their rendering into the system prompt,
//! and the background work that tends them.

pub mod agent;
pub mod audit;
pub mod columns;
pub mod composer;
pub mod laws;
pub mod librarian;
pub mod limits;
pub mod loader;
pub mod operations;
pub mod plan;
pub mod reflection;
pub mod section;
pub mod session_cache;
pub mod store;
pub mod sweep;
pub mod tables;
pub mod tending;
pub mod traits;
pub mod types;
