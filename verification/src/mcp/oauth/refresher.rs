//! Keeping tokens fresh.
//!
//! Now and then every token that is about to expire is exchanged for a new one.
//! Reading, locking, exchanging and storing take place outside; what is to be
//! done with each server is decided here.

use crate::crypto::{nonce_of, EncryptedBlob, NONCE_BYTES};
use crate::ids::{uuid_text, McpServerId, OrgId};
use crate::mcp::credentials::{
    open_payload, opening, CredentialPayload, CredentialRow, McpCredentialRecord,
    McpCredentialWrite, OAuth2Payload,
};
use crate::mcp::oauth::errors::OAuthError;
use crate::mcp::oauth::flow::{RefreshOutcome, TokenExchangeResult};
use crate::mcp::oauth::store::DcrClientRecord;
use crate::mcp::types::{ConnectionStatus, McpServerRecord};
use crate::text::text4;
use crate::time::Timestamp;
use vstd::prelude::*;

verus! {

/// Seconds between two rounds.
pub const OAUTH_REFRESH_TICK: u64 = 60;

/// Seconds before its end at which a token is exchanged. Wide enough for a
/// missed round and for clocks that differ.
pub const OAUTH_REFRESH_SKEW: u64 = 120;

/// How many servers one round looks at.
pub const MAX_OAUTH_REFRESH_PER_TICK: usize = 200;

/// A token that expires within the window after `now`.
pub open spec fn due(expires_at: Timestamp, now: Timestamp) -> bool {
    expires_at@ <= now@ + OAUTH_REFRESH_SKEW * 1_000_000
}

/// Whether a token is to be exchanged at `now`.
pub fn is_due(expires_at: Timestamp, now: Timestamp) -> (r: bool)
    ensures
        r == due(expires_at, now),
{
    expires_at.micros() as i128 <= now.micros() as i128 + 120_000_000
}

impl CredentialRow {
    /// The blob of a row of tokens.
    pub fn oauth2_blob(&self) -> (r: Result<EncryptedBlob, OAuthError>)
        ensures
            if self.nonce@.len() == NONCE_BYTES {
                r matches Ok(blob) && self.seals(blob)
            } else {
                r matches Err(OAuthError::Misconfigured(s)) && s@ == "credential nonce wrong length"@
            },
    {
        match nonce_of(&self.nonce) {
            None => Err(OAuthError::Misconfigured("credential nonce wrong length".to_owned())),
            Some(nonce) => Ok(
                EncryptedBlob {
                    key_version: self.key_version,
                    nonce,
                    ciphertext: self.ciphertext.clone(),
                },
            ),
        }
    }
}

/// Takes the decoded payload of a row of tokens.
pub fn decode_oauth2(kind: &str, decoded: Result<CredentialPayload, String>) -> (r: Result<
    OAuth2Payload,
    OAuthError,
>)
    ensures
        match r {
            Ok(p) => opening(kind@, decoded, Ok(CredentialPayload::Oauth2(p))),
            Err(OAuthError::Mcp(e)) => opening(kind@, decoded, Err(e)),
            Err(OAuthError::Misconfigured(s)) => {
                &&& s@ == "expected oauth2 payload, got static_headers"@
                &&& decoded matches Ok(CredentialPayload::StaticHeaders { .. })
                &&& opening(kind@, decoded, Ok(decoded->Ok_0))
            },
            Err(_) => false,
        },
{
    match open_payload(kind, decoded) {
        Err(e) => Err(OAuthError::Mcp(e)),
        Ok(CredentialPayload::Oauth2(p)) => Ok(p),
        Ok(CredentialPayload::StaticHeaders { .. }) => Err(
            OAuthError::Misconfigured("expected oauth2 payload, got static_headers".to_owned()),
        ),
    }
}

/// Whether the row at position `i` could be decoded and is to be exchanged.
pub open spec fn row_due(rows: Seq<Result<OAuth2Payload, OAuthError>>, i: int, now: Timestamp) -> bool {
    rows[i] matches Ok(p) && due(p.expires_at, now)
}

/// The rows of a round that are to be exchanged, by position. A row that could
/// not be decoded is passed over: it does not hold up the others.
pub fn run_one_tick(rows: &Vec<Result<OAuth2Payload, OAuthError>>, now: Timestamp) -> (picked: Vec<
    usize,
>)
    ensures
        forall|k: int|
            0 <= k < picked@.len() ==> (#[trigger] picked@[k]) < rows@.len() && row_due(
                rows@,
                picked@[k] as int,
                now,
            ),
        forall|k: int, l: int| 0 <= k < l < picked@.len() ==> picked@[k] < picked@[l],
        forall|i: int|
            0 <= i < rows@.len() && #[trigger] row_due(rows@, i, now) ==> picked@.contains(
                i as usize,
            ),
{
    let mut picked: Vec<usize> = Vec::new();
    let mut i: usize = 0;
    while i < rows.len()
        invariant
            i <= rows@.len(),
            forall|k: int|
                0 <= k < picked@.len() ==> (#[trigger] picked@[k]) < i && row_due(
                    rows@,
                    picked@[k] as int,
                    now,
                ),
            forall|k: int, l: int| 0 <= k < l < picked@.len() ==> picked@[k] < picked@[l],
            forall|j: int|
                0 <= j < i && #[trigger] row_due(rows@, j, now) ==> picked@.contains(j as usize),
        decreases rows.len() - i,
    {
        let take = match &rows[i] {
            Ok(p) => is_due(p.expires_at, now),
            Err(_) => false,
        };
        let ghost before = picked@;
        if take {
            picked.push(i);
            proof {
                assert(picked@[picked@.len() - 1] == i);
                assert forall|j: int|
                    0 <= j < i + 1 && #[trigger] row_due(rows@, j, now) implies picked@.contains(
                    j as usize,
                ) by {
                    if j < i {
                        assert(before.contains(j as usize));
                        let k = choose|k: int| 0 <= k < before.len() && before[k] == j as usize;
                        assert(picked@[k] == j as usize);
                    }
                }
            }
        }
        i += 1;
    }
    picked
}

/// What is to be done with a server whose token is to be exchanged, once its
/// credentials were read again under its lock.
#[derive(Debug)]
pub enum RefreshPlan {
    /// Nothing: the credentials are gone, are no tokens, or are fresh by now.
    Leave,
    /// The user has to connect again, for this reason.
    Reconnect(&'static str),
    /// These tokens are to be exchanged.
    Exchange(OAuth2Payload),
}

/// What is to be done with credentials that were read at `now`.
pub open spec fn refresh_plan(read: Option<McpCredentialRecord>, now: Timestamp, plan: RefreshPlan) -> bool {
    match read {
        Some(rec) => match rec.payload {
            CredentialPayload::Oauth2(current) => if !due(current.expires_at, now) {
                plan is Leave
            } else if current.refresh_token is None {
                plan matches RefreshPlan::Reconnect(reason) && reason@ == "no refresh_token"@
            } else {
                plan == RefreshPlan::Exchange(current)
            },
            CredentialPayload::StaticHeaders { .. } => plan is Leave,
        },
        None => plan is Leave,
    }
}

/// Decides on a server whose token is to be exchanged. Its credentials are read
/// again under its lock, since another caller may have exchanged them meanwhile;
/// a token that cannot be exchanged calls for the user.
pub fn plan_refresh(read: Option<McpCredentialRecord>, now: Timestamp) -> (plan: RefreshPlan)
    ensures
        refresh_plan(read, now, plan),
{
    match read {
        Some(rec) => match rec.payload {
            CredentialPayload::Oauth2(current) => {
                if !is_due(current.expires_at, now) {
                    return RefreshPlan::Leave;
                }
                if current.refresh_token.is_none() {
                    return RefreshPlan::Reconnect("no refresh_token");
                }
                RefreshPlan::Exchange(current)
            },
            CredentialPayload::StaticHeaders { .. } => RefreshPlan::Leave,
        },
        None => RefreshPlan::Leave,
    }
}

/// The client with which tokens of `issuer` are exchanged for `org`: it must be
/// registered.
pub fn refresh_client(org: OrgId, issuer: &str, found: Option<DcrClientRecord>) -> (r: Result<
    DcrClientRecord,
    OAuthError,
>)
    ensures
        match found {
            Some(client) => r == Ok::<DcrClientRecord, OAuthError>(client),
            None => r matches Err(OAuthError::Misconfigured(s)) && s@ == "no DCR client for org OrgId("@
                + uuid_text(org.0) + ") / issuer "@ + issuer@,
        },
{
    match found {
        Some(client) => Ok(client),
        None => Err(
            OAuthError::Misconfigured(
                text4(
                    "no DCR client for org OrgId(",
                    org.text().as_str(),
                    ") / issuer ",
                    issuer,
                ),
            ),
        ),
    }
}

/// The tokens to keep after an exchange. What the authorization server left out
/// is carried forward: the refresh token and the scope.
pub open spec fn merged(current: OAuth2Payload, t: TokenExchangeResult) -> OAuth2Payload {
    OAuth2Payload {
        access_token: t.access_token,
        refresh_token: match t.refresh_token {
            Some(token) => Some(token),
            None => current.refresh_token,
        },
        expires_at: t.expires_at,
        scope: match t.scope {
            Some(scope) => Some(scope),
            None => current.scope,
        },
        issuer: t.issuer,
        token_endpoint: t.token_endpoint,
    }
}

/// What is to be done after an exchange.
#[derive(Debug)]
pub enum RefreshEnd {
    /// These credentials are to be stored.
    Store(McpCredentialWrite),
    /// The lock of the server is to be forgotten, and the user has to connect
    /// again, for this reason.
    Forget(&'static str),
}

/// Decides what an exchange comes to.
pub fn refresh_one(
    server_id: McpServerId,
    org_id: OrgId,
    current: OAuth2Payload,
    outcome: RefreshOutcome,
) -> (end: RefreshEnd)
    ensures
        match outcome {
            RefreshOutcome::Refreshed(t) => end == RefreshEnd::Store(
                McpCredentialWrite {
                    server_id,
                    org_id,
                    payload: CredentialPayload::Oauth2(merged(current, t)),
                },
            ),
            RefreshOutcome::Revoked => end matches RefreshEnd::Forget(reason) && reason@
                == "refresh_token revoked"@,
        },
        outcome matches RefreshOutcome::Refreshed(t) ==> {
            let kept = end->Store_0.payload->Oauth2_0;
            &&& end->Store_0.server_id == server_id && end->Store_0.org_id == org_id
            &&& kept.access_token == t.access_token && kept.expires_at == t.expires_at
            &&& t.refresh_token is Some ==> kept.refresh_token == t.refresh_token
            &&& t.refresh_token is None ==> kept.refresh_token == current.refresh_token
            &&& t.scope is Some ==> kept.scope == t.scope
            &&& t.scope is None ==> kept.scope == current.scope
        },
{
    match outcome {
        RefreshOutcome::Refreshed(t) => {
            let refresh_token = match t.refresh_token {
                Some(token) => Some(token),
                None => current.refresh_token,
            };
            let scope = match t.scope {
                Some(scope) => Some(scope),
                None => current.scope,
            };
            RefreshEnd::Store(
                McpCredentialWrite {
                    server_id,
                    org_id,
                    payload: CredentialPayload::Oauth2(
                        OAuth2Payload {
                            access_token: t.access_token,
                            refresh_token,
                            expires_at: t.expires_at,
                            scope,
                            issuer: t.issuer,
                            token_endpoint: t.token_endpoint,
                        },
                    ),
                },
            )
        },
        RefreshOutcome::Revoked => RefreshEnd::Forget("refresh_token revoked"),
    }
}

/// `current` after it was found that the user has to connect again.
pub fn mark_reconnect_required(current: McpServerRecord, reason: &str, now: Timestamp) -> (r:
    McpServerRecord)
    ensures
        r.last_error matches Some(s) && s@ == reason@,
        r == (McpServerRecord {
            connection_status: ConnectionStatus::ReconnectRequired,
            last_error: r.last_error,
            updated_at: now,
            ..current
        }),
{
    let mut current = current;
    current.connection_status = ConnectionStatus::ReconnectRequired;
    current.last_error = Some(reason.to_owned());
    current.updated_at = now;
    current
}

/// An exchange never loses the means to exchange again: a refresh token that was
/// there is there afterwards. What the authorization server issued takes the place of
/// what was held, and only what it left out is carried forward.
pub proof fn law_refresh_token_is_kept(current: OAuth2Payload, t: TokenExchangeResult)
    ensures
        current.refresh_token is Some ==> merged(current, t).refresh_token is Some,
        t.refresh_token is Some ==> merged(current, t).refresh_token == t.refresh_token,
        t.refresh_token is None ==> merged(current, t).refresh_token == current.refresh_token,
        t.scope is Some ==> merged(current, t).scope == t.scope,
        t.scope is None ==> merged(current, t).scope == current.scope,
        merged(current, t).access_token == t.access_token,
        merged(current, t).expires_at == t.expires_at,
        merged(current, t).issuer == t.issuer,
        merged(current, t).token_endpoint == t.token_endpoint,
{
}

/// What is done with credentials that were read again: tokens that expire within two
/// minutes are exchanged if they can be and call for the user if not; all others, and
/// whatever is no token, are left alone.
pub proof fn law_only_due_tokens_are_exchanged(
    read: Option<McpCredentialRecord>,
    now: Timestamp,
    plan: RefreshPlan,
)
    requires
        refresh_plan(read, now, plan),
    ensures
        plan matches RefreshPlan::Exchange(p) ==> {
            &&& read is Some && read->0.payload == CredentialPayload::Oauth2(p)
            &&& p.refresh_token is Some
            &&& p.expires_at@ <= now@ + 120_000_000
        },
        read matches Some(rec) && (rec.payload matches CredentialPayload::Oauth2(p)
            && p.expires_at@ <= now@ + 120_000_000) ==> {
            let p = read->0.payload->Oauth2_0;
            &&& p.refresh_token is Some ==> plan == RefreshPlan::Exchange(p)
            &&& p.refresh_token is None ==> plan is Reconnect
        },
        read matches Some(rec) && (rec.payload matches CredentialPayload::Oauth2(p)
            && p.expires_at@ > now@ + 120_000_000) ==> plan is Leave,
        read is None ==> plan is Leave,
        read matches Some(rec) && rec.payload is StaticHeaders ==> plan is Leave,
{
}

/// A round looks at every row that it could decode and passes over the others: a row is to
/// be exchanged exactly if its token expires within two minutes.
pub proof fn law_unreadable_rows_are_passed_over(
    rows: Seq<Result<OAuth2Payload, OAuthError>>,
    i: int,
    now: Timestamp,
)
    requires
        0 <= i < rows.len(),
    ensures
        rows[i] is Err ==> !row_due(rows, i, now),
        rows[i] matches Ok(p) ==> (row_due(rows, i, now) <==> p.expires_at@ <= now@ + 120_000_000),
{
}

/// After two exchanges, what the later one issued is held; what it left out is from
/// the earlier one, and what both left out from before.
pub proof fn law_later_exchange_prevails(
    current: OAuth2Payload,
    first: TokenExchangeResult,
    second: TokenExchangeResult,
)
    ensures
        ({
            let last = merged(merged(current, first), second);
            &&& last.access_token == second.access_token
            &&& last.expires_at == second.expires_at
            &&& second.refresh_token is Some ==> last.refresh_token == second.refresh_token
            &&& second.refresh_token is None && first.refresh_token is Some
                ==> last.refresh_token == first.refresh_token
            &&& second.refresh_token is None && first.refresh_token is None
                ==> last.refresh_token == current.refresh_token
        }),
{
}

/// A token is exchanged in time: one that is due stays due until it is exchanged, one
/// that has expired is due, and so is any that expires within two minutes. None is
/// exchanged earlier.
pub proof fn law_tokens_are_exchanged_in_time(expires_at: Timestamp, now: Timestamp, later: Timestamp)
    ensures
        now@ <= later@ && due(expires_at, now) ==> due(expires_at, later),
        expires_at@ <= now@ ==> due(expires_at, now),
        now@ < expires_at@ <= now@ + 120_000_000 ==> due(expires_at, now),
        expires_at@ > now@ + 120_000_000 ==> !due(expires_at, now),
{
}

/// Two callers that line up for one token exchange it once: with the tokens that
/// the first one stored, the second one finds nothing to do, unless they are
/// about to expire too.
pub proof fn law_second_caller_leaves_fresh_tokens(
    rec: McpCredentialRecord,
    now: Timestamp,
    plan: RefreshPlan,
)
    requires
        rec.payload matches CredentialPayload::Oauth2(p) && !due(p.expires_at, now),
        refresh_plan(Some(rec), now, plan),
    ensures
        plan is Leave,
{
}

/// A token that is due and that nothing can be exchanged for calls for the user, with the
/// reason.
pub proof fn law_user_is_called_for_want_of_a_refresh_token(
    rec: McpCredentialRecord,
    current: OAuth2Payload,
    now: Timestamp,
    plan: RefreshPlan,
)
    requires
        refresh_plan(Some(rec), now, plan),
        rec.payload == CredentialPayload::Oauth2(current),
        current.expires_at@ <= now@ + 120_000_000,
    ensures
        current.refresh_token is None <==> plan is Reconnect,
        plan matches RefreshPlan::Reconnect(reason) ==> reason@ == "no refresh_token"@,
        plan matches RefreshPlan::Exchange(tokens) ==> tokens == current,
        !(plan is Leave),
{
}

} // verus!
