//! OAuth 2.0 with the authorization servers behind MCP servers.

pub mod discovery;
pub mod errors;
pub mod flow;
pub mod probe;
pub mod refresher;
pub mod store;
