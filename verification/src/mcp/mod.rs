//! Registered MCP servers and the tools that they expose.

pub mod client;
pub mod credentials;
pub mod error;
pub mod limits;
pub mod oauth;
pub mod rate_limit;
pub mod registry;
pub mod scoped;
pub mod store;
pub mod tool;
pub mod types;
