//! How the MCP subsystem fails.

use crate::crypto::CryptoError;
use crate::db::DbFault;
use crate::ids::{uuid_text, McpServerId};
use crate::text::{decimal, text2, text3, text_number};
use crate::types::ParseError;
use vstd::prelude::*;

verus! {

/// Every way in which the MCP subsystem fails.
#[allow(inconsistent_fields)]
#[derive(Debug)]
pub enum McpError {
    /// No such server is registered.
    NotFound(McpServerId),
    /// Another server has that alias.
    AliasTaken(String),
    /// As many servers are registered as may be.
    ServerCapExceeded { max: usize },
    /// A value does not have the form it must have.
    Parse(ParseError),
    /// The configuration of a server cannot be used.
    InvalidConfig(String),
    /// The server could not be reached.
    Connect(String),
    /// The server did not list its tools.
    ListTools(String),
    /// A tool call failed.
    Call(String),
    /// A tool call took too long.
    CallTimeout,
    /// What the store holds cannot be read.
    Backend(String),
    /// The tables underneath failed.
    Db(DbFault),
    /// Sealing or opening a credential failed.
    Crypto(CryptoError),
}

impl McpError {
    /// The text of the error.
    pub open spec fn text(self) -> Seq<char> {
        match self {
            McpError::NotFound(id) => "mcp server "@ + uuid_text(id.0) + " not found"@,
            McpError::AliasTaken(alias) => "mcp server alias `"@ + alias@ + "` already in use"@,
            McpError::ServerCapExceeded { max } => "server cap reached (max "@ + decimal(max as nat)
                + ")"@,
            McpError::Parse(e) => "parse: "@ + e.text(),
            McpError::InvalidConfig(detail) => "config rejected: "@ + detail@,
            McpError::Connect(detail) => "connect to mcp server failed: "@ + detail@,
            McpError::ListTools(detail) => "list_tools on mcp server failed: "@ + detail@,
            McpError::Call(detail) => "mcp tool call failed: "@ + detail@,
            McpError::CallTimeout => "mcp tool call timed out"@,
            McpError::Backend(detail) => "mcp store backend error: "@ + detail@,
            McpError::Db(fault) => "mcp store db error: "@ + fault.text(),
            McpError::Crypto(e) => "mcp credential crypto: "@ + e.detail@,
        }
    }

    /// The error as one line of text.
    pub fn message(&self) -> (s: String)
        ensures
            s@ == self.text(),
    {
        match self {
            McpError::NotFound(id) => text3("mcp server ", id.text().as_str(), " not found"),
            McpError::AliasTaken(alias) => text3(
                "mcp server alias `",
                alias.as_str(),
                "` already in use",
            ),
            McpError::ServerCapExceeded { max } => text_number("server cap reached (max ", *max, ")"),
            McpError::Parse(e) => text2("parse: ", e.message().as_str()),
            McpError::InvalidConfig(detail) => text2("config rejected: ", detail.as_str()),
            McpError::Connect(detail) => text2("connect to mcp server failed: ", detail.as_str()),
            McpError::ListTools(detail) => text2(
                "list_tools on mcp server failed: ",
                detail.as_str(),
            ),
            McpError::Call(detail) => text2("mcp tool call failed: ", detail.as_str()),
            McpError::CallTimeout => "mcp tool call timed out".to_owned(),
            McpError::Backend(detail) => text2("mcp store backend error: ", detail.as_str()),
            McpError::Db(fault) => text2("mcp store db error: ", fault.message().as_str()),
            McpError::Crypto(e) => text2("mcp credential crypto: ", e.detail.as_str()),
        }
    }
}

/// The message says which fault it was, and carries its detail.
pub proof fn law_mcp_error_says_what_is_wrong(error: McpError)
    ensures
        error matches McpError::NotFound(id) ==> error.text() == "mcp server "@ + uuid_text(id.0)
            + " not found"@,
        error matches McpError::AliasTaken(alias) ==> error.text() == "mcp server alias `"@
            + alias@ + "` already in use"@,
        error matches McpError::ServerCapExceeded { max } ==> error.text()
            == "server cap reached (max "@ + decimal(max as nat) + ")"@,
        error matches McpError::Parse(e) ==> error.text() == "parse: "@ + e.text(),
        error matches McpError::InvalidConfig(detail) ==> error.text() == "config rejected: "@
            + detail@,
        error matches McpError::Connect(detail) ==> error.text()
            == "connect to mcp server failed: "@ + detail@,
        error matches McpError::ListTools(detail) ==> error.text()
            == "list_tools on mcp server failed: "@ + detail@,
        error matches McpError::Call(detail) ==> error.text() == "mcp tool call failed: "@
            + detail@,
        error is CallTimeout ==> error.text() == "mcp tool call timed out"@,
        error matches McpError::Backend(detail) ==> error.text() == "mcp store backend error: "@
            + detail@,
        error matches McpError::Db(fault) ==> error.text() == "mcp store db error: "@
            + fault.text(),
        error matches McpError::Crypto(e) ==> error.text() == "mcp credential crypto: "@
            + e.detail@,
{
}

} // verus!
