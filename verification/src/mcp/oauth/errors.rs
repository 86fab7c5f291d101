//! How an OAuth flow fails.

use crate::crypto::CryptoError;
use crate::db::DbFault;
use crate::mcp::error::McpError;
use crate::text::text2;
use vstd::prelude::*;

verus! {

/// Every way in which an OAuth flow fails.
#[derive(Debug)]
pub enum OAuthError {
    /// The authorization server of an MCP server could not be found.
    Discovery(String),
    /// The authorization server did not register a client.
    Dcr(String),
    /// The token endpoint did not issue tokens.
    TokenEndpoint(String),
    /// The callback is for no flow that is under way.
    InvalidState,
    /// The callback came too late.
    Expired,
    /// The refresh token is no longer valid.
    RefreshRevoked,
    /// Sealing or opening failed.
    Crypto(CryptoError),
    /// The tables underneath failed.
    Db(DbFault),
    /// The store of servers or credentials failed.
    Mcp(McpError),
    /// What is configured or stored cannot be used.
    Misconfigured(String),
}

impl OAuthError {
    /// The text of the error.
    pub open spec fn text(self) -> Seq<char> {
        match self {
            OAuthError::Discovery(detail) => "discovery: "@ + detail@,
            OAuthError::Dcr(detail) => "dynamic client registration: "@ + detail@,
            OAuthError::TokenEndpoint(detail) => "token endpoint: "@ + detail@,
            OAuthError::InvalidState => "invalid callback state"@,
            OAuthError::Expired => "callback expired"@,
            OAuthError::RefreshRevoked => "refresh token revoked"@,
            OAuthError::Crypto(e) => "crypto: "@ + e.detail@,
            OAuthError::Db(fault) => "db: "@ + fault.text(),
            OAuthError::Mcp(e) => "mcp store: "@ + e.text(),
            OAuthError::Misconfigured(detail) => "misconfigured: "@ + detail@,
        }
    }

    /// The error as one line of text.
    pub fn message(&self) -> (s: String)
        ensures
            s@ == self.text(),
    {
        match self {
            OAuthError::Discovery(detail) => text2("discovery: ", detail.as_str()),
            OAuthError::Dcr(detail) => text2("dynamic client registration: ", detail.as_str()),
            OAuthError::TokenEndpoint(detail) => text2("token endpoint: ", detail.as_str()),
            OAuthError::InvalidState => "invalid callback state".to_owned(),
            OAuthError::Expired => "callback expired".to_owned(),
            OAuthError::RefreshRevoked => "refresh token revoked".to_owned(),
            OAuthError::Crypto(e) => text2("crypto: ", e.detail.as_str()),
            OAuthError::Db(fault) => text2("db: ", fault.message().as_str()),
            OAuthError::Mcp(e) => text2("mcp store: ", e.message().as_str()),
            OAuthError::Misconfigured(detail) => text2("misconfigured: ", detail.as_str()),
        }
    }
}

/// The message says which fault it was, and carries its detail.
pub proof fn law_oauth_error_says_what_is_wrong(error: OAuthError)
    ensures
        error matches OAuthError::Discovery(detail) ==> error.text() == "discovery: "@ + detail@,
        error matches OAuthError::Dcr(detail) ==> error.text() == "dynamic client registration: "@
            + detail@,
        error matches OAuthError::TokenEndpoint(detail) ==> error.text() == "token endpoint: "@
            + detail@,
        error is InvalidState ==> error.text() == "invalid callback state"@,
        error is Expired ==> error.text() == "callback expired"@,
        error is RefreshRevoked ==> error.text() == "refresh token revoked"@,
        error matches OAuthError::Crypto(e) ==> error.text() == "crypto: "@ + e.detail@,
        error matches OAuthError::Db(fault) ==> error.text() == "db: "@ + fault.text(),
        error matches OAuthError::Mcp(e) ==> error.text() == "mcp store: "@ + e.text(),
        error matches OAuthError::Misconfigured(detail) ==> error.text() == "misconfigured: "@
            + detail@,
{
}

} // verus!
