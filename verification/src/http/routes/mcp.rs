//! Registering MCP servers, and testing a connection before that.

use crate::auth::Principal;
use crate::http::error::HttpError;
use crate::ids::{McpServerId, UserId};
use crate::mcp::error::McpError;
use crate::mcp::rate_limit::{admits, called, well_kept, TestConnectRateLimiter};
use crate::mcp::registry::{prefixed, RemoteTool};
use crate::mcp::store::{McpServerCreate, McpServerRow, McpServerUpdate};
use crate::mcp::types::{
    DiscoveredTool, McpDescription, McpServerAlias, McpServerRecord, McpTransport,
};
use crate::text::{
    byte_len, law_longest_prefix_is_longest, lemma_longest_prefix, lemma_utf8_len_at_least_chars,
    lemma_utf8_len_concat, lemma_utf8_len_push, longest_prefix, text2, truncate_to_char_boundary,
    utf8_len,
};
use crate::time::Timestamp;
use crate::types::ParseError;
use vstd::prelude::*;

verus! {

/// A registered server, as the web app sees it.
#[derive(Debug)]
pub struct McpServerResponse {
    pub id: McpServerId,
    pub alias: String,
    pub enabled: bool,
    pub config: McpTransport,
    pub description: Option<String>,
    pub last_seen_at: Option<Timestamp>,
    pub last_error: Option<String>,
    pub discovered_tools: Option<Vec<DiscoveredTool>>,
    pub created_by_user_id: UserId,
    pub created_at: Timestamp,
    pub updated_at: Timestamp,
}

/// `v` shows the server `r`.
pub open spec fn shows_server(v: McpServerResponse, r: McpServerRecord) -> bool {
    &&& v.id == r.id
    &&& v.alias@ == r.alias@
    &&& v.enabled == r.enabled
    &&& v.config == r.config
    &&& match (v.description, r.description) {
        (Some(a), Some(b)) => a@ == b@,
        (None, None) => true,
        _ => false,
    }
    &&& v.last_seen_at == r.last_seen_at
    &&& v.last_error == r.last_error
    &&& v.discovered_tools == r.discovered_tools
    &&& v.created_by_user_id == r.created_by_user_id
    &&& v.created_at == r.created_at
    &&& v.updated_at == r.updated_at
}

/// A registered server, as the web app sees it.
pub fn server_response(r: McpServerRecord) -> (v: McpServerResponse)
    ensures
        shows_server(v, r),
{
    McpServerResponse {
        id: r.id,
        alias: r.alias.as_str().to_owned(),
        enabled: r.enabled,
        config: r.config,
        description: match r.description {
            Some(d) => Some(d.as_str().to_owned()),
            None => None,
        },
        last_seen_at: r.last_seen_at,
        last_error: r.last_error,
        discovered_tools: r.discovered_tools,
        created_by_user_id: r.created_by_user_id,
        created_at: r.created_at,
        updated_at: r.updated_at,
    }
}

/// A row of the table of servers, as the web app sees it. A value that does not
/// have its form is the fault of the request; JSON that cannot be read is that of
/// the server.
pub fn try_into_response(row: McpServerRow) -> (r: Result<McpServerResponse, HttpError>)
    ensures
        if McpServerAlias::refusal(row.alias@) is Some {
            r matches Err(HttpError::Parse(e)) && McpServerAlias::refusal(row.alias@) == Some(e)
        } else if row.config_fault() is Some {
            r == Err::<McpServerResponse, HttpError>(HttpError::Internal)
        } else if row.description_fault() is Some {
            r matches Err(HttpError::Parse(e)) && row.description_fault() == Some(e)
        } else if row.discovered_tools is Err {
            r == Err::<McpServerResponse, HttpError>(HttpError::Internal)
        } else {
            r matches Ok(v) && exists|rec: McpServerRecord|
                #[trigger] row.reads(rec) && shows_server(v, rec)
        },
{
    match row.into_record() {
        Ok(rec) => Ok(server_response(rec)),
        Err(McpError::Parse(e)) => Err(HttpError::Parse(e)),
        Err(_) => Err(HttpError::Internal),
    }
}

/// A request to register a server.
#[derive(Debug)]
pub struct CreateMcpServerRequest {
    pub alias: String,
    pub config: McpTransport,
    pub description: Option<String>,
    /// Whether the server is used. If it is not said, it is.
    pub enabled: Option<bool>,
}

/// What is wrong with a description that may be missing.
pub open spec fn description_refusal(raw: Option<String>) -> Option<ParseError> {
    match raw {
        Some(s) => McpDescription::refusal(s@),
        None => None,
    }
}

/// `d` is the description that `raw` writes down.
pub open spec fn description_reads(raw: Option<String>, d: Option<McpDescription>) -> bool {
    match (raw, d) {
        (Some(s), Some(v)) => v@ == s@,
        (None, None) => true,
        _ => false,
    }
}

fn parse_description(raw: Option<String>) -> (r: Result<Option<McpDescription>, ParseError>)
    ensures
        match r {
            Ok(d) => description_refusal(raw) is None && description_reads(raw, d),
            Err(e) => description_refusal(raw) == Some(e),
        },
{
    match raw {
        None => Ok(None),
        Some(s) => match McpDescription::try_from(s) {
            Ok(d) => Ok(Some(d)),
            Err(e) => Err(e),
        },
    }
}

/// Reads a request to register a server: it belongs to the active organisation of
/// the user who makes it.
pub fn create_mcp_server(principal: Principal, payload: CreateMcpServerRequest) -> (r: Result<
    McpServerCreate,
    HttpError,
>)
    ensures
        match r {
            Ok(new) => {
                &&& McpServerAlias::refusal(payload.alias@) is None
                &&& description_refusal(payload.description) is None
                &&& new.org_id == principal.active_org_id
                &&& new.created_by_user_id == principal.user_id
                &&& new.alias@ == payload.alias@
                &&& new.config == payload.config
                &&& description_reads(payload.description, new.description)
                &&& new.enabled == payload.enabled.unwrap_or(true)
            },
            Err(e) => e matches HttpError::Parse(p) && Some(p) == match McpServerAlias::refusal(
                payload.alias@,
            ) {
                Some(bad) => Some(bad),
                None => description_refusal(payload.description),
            },
        },
{
    let alias = match McpServerAlias::try_from(payload.alias) {
        Ok(alias) => alias,
        Err(e) => {
            return Err(HttpError::Parse(e));
        },
    };
    let description = match parse_description(payload.description) {
        Ok(d) => d,
        Err(e) => {
            return Err(HttpError::Parse(e));
        },
    };
    Ok(
        McpServerCreate {
            org_id: principal.active_org_id,
            created_by_user_id: principal.user_id,
            alias,
            config: payload.config,
            description,
            enabled: match payload.enabled {
                Some(b) => b,
                None => true,
            },
        },
    )
}

/// A request to change a server. What is `None` stays as it is.
#[derive(Debug)]
pub struct UpdateMcpServerRequest {
    pub alias: Option<String>,
    pub config: Option<McpTransport>,
    /// `Some(None)` clears the description.
    pub description: Option<Option<String>>,
    pub enabled: Option<bool>,
}

/// What is wrong with a request to change a server.
pub open spec fn update_refusal(payload: UpdateMcpServerRequest) -> Option<ParseError> {
    match payload.alias {
        Some(a) => match McpServerAlias::refusal(a@) {
            Some(e) => Some(e),
            None => match payload.description {
                Some(d) => description_refusal(d),
                None => None,
            },
        },
        None => match payload.description {
            Some(d) => description_refusal(d),
            None => None,
        },
    }
}

/// Reads a request to change a server.
pub fn update_mcp_server(payload: UpdateMcpServerRequest) -> (r: Result<McpServerUpdate, HttpError>)
    ensures
        match r {
            Ok(change) => {
                &&& update_refusal(payload) is None
                &&& match (payload.alias, change.alias) {
                    (Some(raw), Some(a)) => a@ == raw@,
                    (None, None) => true,
                    _ => false,
                }
                &&& change.config == payload.config
                &&& match (payload.description, change.description) {
                    (Some(raw), Some(d)) => description_reads(raw, d),
                    (None, None) => true,
                    _ => false,
                }
                &&& change.enabled == payload.enabled
            },
            Err(e) => e matches HttpError::Parse(p) && update_refusal(payload) == Some(p),
        },
{
    let alias = match payload.alias {
        None => None,
        Some(raw) => match McpServerAlias::try_from(raw) {
            Ok(a) => Some(a),
            Err(e) => {
                return Err(HttpError::Parse(e));
            },
        },
    };
    let description = match payload.description {
        None => None,
        Some(raw) => match parse_description(raw) {
            Ok(d) => Some(d),
            Err(e) => {
                return Err(HttpError::Parse(e));
            },
        },
    };
    Ok(McpServerUpdate { alias, config: payload.config, description, enabled: payload.enabled })
}

/// Turns away who cannot see what a request is about: for them, it does not
/// exist.
pub fn require_visible(visible: bool) -> (r: Result<(), HttpError>)
    ensures
        r == if visible {
            Ok::<(), HttpError>(())
        } else {
            Err(HttpError::NotFound)
        },
{
    if visible {
        Ok(())
    } else {
        Err(HttpError::NotFound)
    }
}

/// Maximum bytes of an error that is shown.
pub const REDACTED_MAX_BYTES: usize = 512;

/// What is shown of an error: as much as fits, with an ellipsis where it was cut.
pub open spec fn redacted(text: Seq<char>) -> Seq<char> {
    if utf8_len(text) > REDACTED_MAX_BYTES {
        longest_prefix(text, REDACTED_MAX_BYTES as nat) + "…"@
    } else {
        text
    }
}

/// What is shown of an error.
pub fn redact_error(err: &McpError) -> (s: String)
    ensures
        s@ == redacted(err.text()),
{
    let text = err.message();
    if byte_len(text.as_str()) > REDACTED_MAX_BYTES {
        let kept = truncate_to_char_boundary(text.as_str(), REDACTED_MAX_BYTES);
        text2(kept.as_str(), "…")
    } else {
        text
    }
}

/// What a connection test found.
#[derive(Debug)]
pub enum TestConnectResponse {
    /// The server answers, with these tools.
    Passed { discovered_tools: Vec<DiscoveredTool> },
    /// It does not, for this reason.
    Failed { error: String },
}

/// What came of the connection.
#[derive(Debug)]
pub enum TestConnectReply {
    /// It could not be made.
    ConnectFailed(McpError),
    /// It was made, but no tools were listed over it.
    ListFailed(McpError),
    /// The tools that were listed.
    Listed(Vec<RemoteTool>),
}

/// Lets a connection test of `user` start, or not: before any connection is made,
/// so that it cannot be used to probe what is out there.
pub fn admit_test_connect(limiter: &mut TestConnectRateLimiter, user: UserId, now: u64) -> (r: Result<
    (),
    HttpError,
>)
    ensures
        r == if admits(old(limiter).buckets(), user, now) {
            Ok::<(), HttpError>(())
        } else {
            Err(HttpError::TooManyRequests)
        },
        called(old(limiter).buckets(), user, now, final(limiter).buckets()),
        well_kept(final(limiter).buckets()),
{
    if limiter.try_admit(user, now) {
        Ok(())
    } else {
        Err(HttpError::TooManyRequests)
    }
}

/// `d` shows the tool `t` of a server that is only tested.
pub open spec fn shows_tested(d: DiscoveredTool, t: RemoteTool) -> bool {
    &&& d.remote_name@ == t.name@
    &&& d.prefixed_name@ == prefixed("test"@, t.name@)
    &&& d.description == t.description
}

/// Answers a connection test. A server that cannot be connected to is no failure
/// of the request: the answer says why.
pub fn test_connect_mcp_server(reply: TestConnectReply) -> (r: TestConnectResponse)
    ensures
        match reply {
            TestConnectReply::ConnectFailed(e) => r matches TestConnectResponse::Failed { error }
                && error@ == redacted(e.text()),
            TestConnectReply::ListFailed(e) => r matches TestConnectResponse::Failed { error }
                && error@ == redacted(e.text()),
            TestConnectReply::Listed(tools) => r matches TestConnectResponse::Passed {
                discovered_tools,
            } && {
                &&& discovered_tools@.len() == tools@.len()
                &&& forall|i: int|
                    0 <= i < tools@.len() ==> shows_tested(
                        #[trigger] discovered_tools@[i],
                        tools@[i],
                    )
            },
        },
{
    match reply {
        TestConnectReply::ConnectFailed(e) => TestConnectResponse::Failed { error: redact_error(&e) },
        TestConnectReply::ListFailed(e) => TestConnectResponse::Failed { error: redact_error(&e) },
        TestConnectReply::Listed(tools) => {
            let mut found: Vec<DiscoveredTool> = Vec::new();
            let mut i: usize = 0;
            proof {
                reveal_strlit("mcp_test_");
                reveal_strlit("mcp_");
                reveal_strlit("test");
                reveal_strlit("_");
                assert("mcp_"@ + "test"@ + "_"@ =~= "mcp_test_"@);
            }
            while i < tools.len()
                invariant
                    i <= tools@.len(),
                    found@.len() == i,
                    "mcp_"@ + "test"@ + "_"@ == "mcp_test_"@,
                    forall|j: int| 0 <= j < i ==> shows_tested(#[trigger] found@[j], tools@[j]),
                decreases tools.len() - i,
            {
                let t = &tools[i];
                found.push(
                    DiscoveredTool {
                        remote_name: t.name.clone(),
                        prefixed_name: text2("mcp_test_", t.name.as_str()),
                        description: match &t.description {
                            Some(d) => Some(d.clone()),
                            None => None,
                        },
                    },
                );
                i += 1;
            }
            TestConnectResponse::Passed { discovered_tools: found }
        },
    }
}

/// What is shown of an error stays short, whatever the error.
pub proof fn law_redacted_errors_are_short(text: Seq<char>)
    ensures
        utf8_len(redacted(text)) <= REDACTED_MAX_BYTES + 3,
{
    let kept = longest_prefix(text, REDACTED_MAX_BYTES as nat);
    lemma_longest_prefix(text, REDACTED_MAX_BYTES as nat);
    lemma_utf8_len_concat(kept, "…"@);
    reveal_strlit("…");
    assert("…"@ =~= Seq::<char>::empty().push('…'));
    lemma_utf8_len_push(Seq::empty(), '…');
    lemma_utf8_len_at_least_chars(Seq::<char>::empty());
}

/// A short error is shown as it is. Of a long one as much is shown as fits, and an ellipsis
/// after it.
pub proof fn law_errors_are_shown_as_far_as_they_fit(text: Seq<char>, k: int)
    requires
        0 <= k <= text.len(),
    ensures
        utf8_len(text) <= 512 ==> redacted(text) == text,
        utf8_len(text) > 512 ==> exists|n: int|
            {
                &&& 0 <= n < text.len()
                &&& redacted(text) == #[trigger] text.take(n) + "…"@
                &&& utf8_len(text.take(k)) <= 512 ==> k <= n
            },
{
    if utf8_len(text) > 512 {
        let kept = longest_prefix(text, 512);
        lemma_longest_prefix(text, 512);
        law_longest_prefix_is_longest(text, 512, k);
        let n = kept.len() as int;
        if n == text.len() {
            assert(kept =~= text);
        }
        assert(redacted(text) == text.take(n) + "…"@);
    }
}

/// The web app sees a server as it is registered, and none of what is secret of it.
pub proof fn law_server_is_shown_as_registered(v: McpServerResponse, r: McpServerRecord)
    requires
        shows_server(v, r),
    ensures
        v.id == r.id && v.alias@ == r.alias@ && v.enabled == r.enabled && v.config == r.config,
        r.description matches Some(d) ==> v.description is Some && v.description->0@ == d@,
        r.description is None ==> v.description is None,
        v.last_seen_at == r.last_seen_at && v.last_error == r.last_error,
        v.discovered_tools == r.discovered_tools,
        v.created_by_user_id == r.created_by_user_id,
        v.created_at == r.created_at && v.updated_at == r.updated_at,
{
}

/// A request to change a server is taken exactly if the alias that it gives is one and the
/// description that it gives is not too long; what it does not give is not looked at.
pub proof fn law_update_is_checked_where_it_says_something(payload: UpdateMcpServerRequest)
    ensures
        update_refusal(payload) is None <==> (payload.alias matches Some(a)
            ==> McpServerAlias::refusal(a@) is None) && (payload.description matches Some(Some(d))
            ==> McpDescription::refusal(d@) is None),
{
}

/// A tested server shows its tools as it listed them, each under the name of a test.
pub proof fn law_tested_tools_are_shown_as_listed(d: DiscoveredTool, t: RemoteTool)
    requires
        shows_tested(d, t),
    ensures
        d.remote_name@ == t.name@,
        d.prefixed_name@ == "mcp_"@ + "test"@ + "_"@ + t.name@,
        d.description == t.description,
{
}

} // verus!
