//! What each group of endpoints decides.

pub mod agents;
pub mod auth;
pub mod mcp;
pub mod me;
pub mod memory;
pub mod prompts;
pub mod threads;
