//! Caps of the MCP subsystem: every container and every round trip is bounded.

use vstd::prelude::*;

verus! {

/// How many MCP servers may be registered.
pub const MAX_MCP_SERVERS: usize = 32;

/// How many tools of one server are exposed.
pub const MAX_TOOLS_PER_SERVER: usize = 64;

/// Maximum bytes of a server's alias. `mcp_<alias>_<remote>` leaves a remote
/// name 43 of the 64 characters of a tool name.
pub const MCP_ALIAS_MAX_LEN: usize = 16;

/// Maximum bytes of a server's description.
pub const MCP_DESCRIPTION_MAX_LEN: usize = 512;

/// Maximum bytes of the URL of a server.
pub const MCP_URL_MAX_LEN: usize = 2048;

/// How many custom headers a server may have.
pub const MCP_MAX_HEADERS: usize = 16;

/// Maximum bytes of a header name.
pub const MCP_HEADER_NAME_MAX_LEN: usize = 64;

/// Maximum bytes of a header value.
pub const MCP_HEADER_VALUE_MAX_LEN: usize = 4096;

/// Seconds that connecting to one server may take.
pub const MCP_CONNECT_TIMEOUT: u64 = 10;

/// Seconds that listing the tools of one server may take.
pub const MCP_LIST_TOOLS_TIMEOUT: u64 = 10;

/// Seconds that one tool call may take.
pub const MCP_CALL_TIMEOUT: u64 = 30;

/// Bytes of a tool's answer that are kept.
pub const MCP_RESULT_RENDER_CAP: usize = 131072;

/// How many connection tests one user may run within a minute.
pub const MCP_TEST_CONNECT_PER_MIN: usize = 10;

/// How many users the limiter of connection tests remembers.
pub const MCP_TEST_CONNECT_BUCKETS_MAX: usize = 4096;

} // verus!
