//! The browser flow: registering a client, sending the user to the
//! authorization server, and taking the tokens that come back.

use crate::http_status::{canonical_reason, is_success, reason_phrase, success};
use crate::ids::OrgId;
use crate::mcp::oauth::discovery::AsMetadata;
use crate::mcp::oauth::errors::OAuthError;
use crate::mcp::oauth::store::{DcrClientRecord, NewOAuthClient, TokenAuthMethod};
use crate::text::{
    chars_of, decimal, has_substring, join, joined, law_joining_keeps_the_parts, lemma_ascii_len,
    lossy_text, push_decimal, split_words, text2, text3, text_equal, text_number, text_of,
    text_of_lossy, texts, utf8_len, words,
};
use crate::time::{in_calendar, Timestamp, TIMESTAMP_MAX_MICROS};
use crate::tokens::{random_token, url_safe, url_safe_char};
use crate::types::SecretString;
use crate::web_url::{parse_url, parsed_url};
use vstd::prelude::*;

verus! {

/// Seconds that one request may take.
pub const FLOW_HTTP_TIMEOUT: u64 = 10;

/// Maximum bytes of the answer to a registration.
pub const DCR_MAX_BYTES: usize = 32768;

/// How many characters of a refusal are quoted.
pub const DCR_QUOTED_CHARS: usize = 256;

/// Seconds after which a token is taken to expire when the authorization server
/// does not say.
pub const DEFAULT_EXPIRY_SECS: u64 = 600;

/// The longest time, in whole seconds, after which a token may be said to
/// expire: as many milliseconds as an `i64` counts.
pub const MAX_EXPIRY_SECS: u64 = 9_223_372_036_854_775;

/// The document that registers a client.
#[derive(Debug)]
pub struct DcrRequest {
    pub client_name: String,
    pub redirect_uris: Vec<String>,
    pub grant_types: Vec<String>,
    pub response_types: Vec<String>,
    pub token_endpoint_auth_method: TokenAuthMethod,
    pub scope: Option<String>,
}

/// The document that an authorization server answers a registration with.
#[derive(Debug)]
pub struct DcrResponse {
    pub client_id: String,
    pub client_secret: Option<String>,
    pub registration_client_uri: Option<String>,
    pub registration_access_token: Option<String>,
}

/// What came of a registration.
#[derive(Debug)]
pub enum DcrReply {
    /// It took too long.
    TimedOut,
    /// There was no answer, for this reason.
    Failed(String),
    /// The answer was not read to its end, for this reason.
    Unreadable(String),
    /// The answer: its status, its body, and the document that the body holds or
    /// why it holds none.
    Answer { status: u16, body: Vec<u8>, document: Result<DcrResponse, String> },
}

/// `method` is one of `supported`.
pub open spec fn supports(supported: Option<Vec<String>>, method: TokenAuthMethod) -> bool {
    supported matches Some(list) && exists|i: int|
        0 <= i < list@.len() && (#[trigger] list@[i])@ == method.label()
}

/// How a client is to authenticate: not at all where the authorization server
/// allows that, else with its secret in the header, else in the body; in the
/// header where the authorization server does not say.
pub open spec fn preferred_method(supported: Option<Vec<String>>) -> TokenAuthMethod {
    if supports(supported, TokenAuthMethod::NoSecret) {
        TokenAuthMethod::NoSecret
    } else if supports(supported, TokenAuthMethod::ClientSecretBasic) {
        TokenAuthMethod::ClientSecretBasic
    } else if supports(supported, TokenAuthMethod::ClientSecretPost) {
        TokenAuthMethod::ClientSecretPost
    } else {
        TokenAuthMethod::ClientSecretBasic
    }
}

fn lists_label(list: &Vec<String>, label: &str) -> (r: bool)
    ensures
        r == exists|i: int| 0 <= i < list@.len() && (#[trigger] list@[i])@ == label@,
{
    let mut i: usize = 0;
    while i < list.len()
        invariant
            i <= list@.len(),
            forall|j: int| 0 <= j < i ==> (#[trigger] list@[j])@ != label@,
        decreases list.len() - i,
    {
        if text_equal(list[i].as_str(), label) {
            return true;
        }
        i += 1;
    }
    false
}

fn is_supported(supported: &Option<Vec<String>>, method: TokenAuthMethod) -> (r: bool)
    ensures
        r == supports(*supported, method),
{
    match supported {
        None => false,
        Some(list) => lists_label(list, method.as_str()),
    }
}

/// How a client is to authenticate.
pub fn pick_auth_method(supported: &Option<Vec<String>>) -> (m: TokenAuthMethod)
    ensures
        m == preferred_method(*supported),
{
    if is_supported(supported, TokenAuthMethod::NoSecret) {
        TokenAuthMethod::NoSecret
    } else if is_supported(supported, TokenAuthMethod::ClientSecretBasic) {
        TokenAuthMethod::ClientSecretBasic
    } else if is_supported(supported, TokenAuthMethod::ClientSecretPost) {
        TokenAuthMethod::ClientSecretPost
    } else {
        TokenAuthMethod::ClientSecretBasic
    }
}

/// Both absent, or both present with the same text.
pub open spec fn same_text(a: Option<String>, b: Option<&str>) -> bool {
    match (a, b) {
        (Some(x), Some(y)) => x@ == y@,
        (None, None) => true,
        _ => false,
    }
}

/// `request` registers a client that comes back to `redirect_uri`.
pub open spec fn registers(
    request: DcrRequest,
    method: TokenAuthMethod,
    redirect_uri: Seq<char>,
    scope: Option<&str>,
) -> bool {
    &&& request.client_name@ == "Relay"@
    &&& texts(request.redirect_uris@) == seq![redirect_uri]
    &&& texts(request.grant_types@) == seq!["authorization_code"@, "refresh_token"@]
    &&& texts(request.response_types@) == seq!["code"@]
    &&& request.token_endpoint_auth_method == method
    &&& same_text(request.scope, scope)
}

fn own(scope: Option<&str>) -> (r: Option<String>)
    ensures
        same_text(r, scope),
{
    match scope {
        Some(s) => Some(s.to_owned()),
        None => None,
    }
}

/// Starts a registration: where to register, and with which document. An
/// authorization server that registers nobody is reported: the client must then
/// be set up by hand.
pub fn plan_registration(meta: &AsMetadata, redirect_uri: &str, scope: Option<&str>) -> (r: Result<
    (String, DcrRequest),
    OAuthError,
>)
    ensures
        match meta.registration_endpoint {
            None => r matches Err(OAuthError::Misconfigured(s)) && s@ == "AS "@ + meta.issuer@
                + " does not support dynamic client registration"@,
            Some(endpoint) => r matches Ok((at, request)) && at@ == endpoint@ && registers(
                request,
                preferred_method(meta.token_endpoint_auth_methods_supported),
                redirect_uri@,
                scope,
            ),
        },
{
    match &meta.registration_endpoint {
        None => Err(
            OAuthError::Misconfigured(
                text3(
                    "AS ",
                    meta.issuer.as_str(),
                    " does not support dynamic client registration",
                ),
            ),
        ),
        Some(endpoint) => {
            let request = DcrRequest {
                client_name: "Relay".to_owned(),
                redirect_uris: vec![redirect_uri.to_owned()],
                grant_types: vec!["authorization_code".to_owned(), "refresh_token".to_owned()],
                response_types: vec!["code".to_owned()],
                token_endpoint_auth_method: pick_auth_method(
                    &meta.token_endpoint_auth_methods_supported,
                ),
                scope: own(scope),
            };
            proof {
                assert(texts(request.redirect_uris@) =~= seq![redirect_uri@]);
                assert(texts(request.grant_types@) =~= seq![
                    "authorization_code"@,
                    "refresh_token"@,
                ]);
                assert(texts(request.response_types@) =~= seq!["code"@]);
            }
            Ok((endpoint.clone(), request))
        },
    }
}

/// The first characters of `s`, as many as a refusal is quoted with.
pub open spec fn quoted(s: Seq<char>) -> Seq<char> {
    if s.len() > DCR_QUOTED_CHARS {
        s.take(DCR_QUOTED_CHARS as int)
    } else {
        s
    }
}

fn quote(s: &str) -> (r: String)
    ensures
        r@ == quoted(s@),
{
    let chars = chars_of(s);
    let n: usize = if chars.len() > DCR_QUOTED_CHARS {
        DCR_QUOTED_CHARS
    } else {
        chars.len()
    };
    let out = text_of(&chars, 0, n);
    proof {
        assert(out@ =~= quoted(s@));
    }
    out
}

/// The secret that `raw` is, if it is one.
pub open spec fn secret_of(raw: Option<String>, secret: Option<SecretString>) -> bool {
    match raw {
        Some(s) => if SecretString::refusal(s@) is None {
            secret matches Some(v) && v@ == s@
        } else {
            secret is None
        },
        None => secret is None,
    }
}

fn keep_secret(raw: Option<String>) -> (secret: Option<SecretString>)
    ensures
        secret_of(raw, secret),
{
    match raw {
        Some(s) => match SecretString::try_from(s.as_str()) {
            Ok(v) => Some(v),
            Err(_) => None,
        },
        None => None,
    }
}

/// `client` is what the authorization server `meta` registered for `org` with
/// the answer `doc`.
pub open spec fn registered(
    meta: AsMetadata,
    org: OrgId,
    method: TokenAuthMethod,
    scope: Option<&str>,
    doc: DcrResponse,
    client: NewOAuthClient,
) -> bool {
    &&& client.org_id == org
    &&& client.issuer@ == meta.issuer@
    &&& client.client_id == doc.client_id
    &&& secret_of(doc.client_secret, client.client_secret)
    &&& client.authorization_endpoint@ == meta.authorization_endpoint@
    &&& client.token_endpoint@ == meta.token_endpoint@
    &&& client.registration_client_uri == doc.registration_client_uri
    &&& secret_of(doc.registration_access_token, client.registration_access_token)
    &&& client.token_endpoint_auth_method == method
    &&& same_text(client.scope, scope)
}

/// Takes the answer to a registration: the client, if the answer reports success,
/// is not too long and holds the document that it must. A refusal is quoted. A
/// secret that cannot be kept is dropped.
pub fn register_dynamic_client(
    meta: &AsMetadata,
    org_id: OrgId,
    scope: Option<&str>,
    reply: DcrReply,
) -> (r: Result<NewOAuthClient, OAuthError>)
    ensures
        match reply {
            DcrReply::TimedOut => r matches Err(OAuthError::Dcr(s)) && s@
                == "registration timed out"@,
            DcrReply::Failed(e) => r matches Err(OAuthError::Dcr(s)) && s@ == "http: "@ + e@,
            DcrReply::Unreadable(e) => r matches Err(OAuthError::Dcr(s)) && s@ == "body: "@ + e@,
            DcrReply::Answer { status, body, document } => if !success(status) {
                r matches Err(OAuthError::Dcr(s)) && s@ == decimal(status as nat) + " "@
                    + reason_phrase(status) + " body="@ + quoted(lossy_text(body@))
            } else if body@.len() > DCR_MAX_BYTES {
                r matches Err(OAuthError::Dcr(s)) && s@ == "response exceeds "@ + decimal(
                    DCR_MAX_BYTES as nat,
                ) + " bytes"@
            } else {
                match document {
                    Err(e) => r matches Err(OAuthError::Dcr(s)) && s@ == "parse: "@ + e@,
                    Ok(doc) => r matches Ok(client) && registered(
                        *meta,
                        org_id,
                        preferred_method(meta.token_endpoint_auth_methods_supported),
                        scope,
                        doc,
                        client,
                    ),
                }
            },
        },
{
    match reply {
        DcrReply::TimedOut => Err(OAuthError::Dcr("registration timed out".to_owned())),
        DcrReply::Failed(e) => Err(OAuthError::Dcr(text2("http: ", e.as_str()))),
        DcrReply::Unreadable(e) => Err(OAuthError::Dcr(text2("body: ", e.as_str()))),
        DcrReply::Answer { status, body, document } => {
            if !is_success(status) {
                let mut s = String::new();
                push_decimal(&mut s, status as u64);
                s.append(" ");
                s.append(canonical_reason(status).as_str());
                s.append(" body=");
                s.append(quote(text_of_lossy(&body).as_str()).as_str());
                proof {
                    assert(s@ =~= decimal(status as nat) + " "@ + reason_phrase(status) + " body="@
                        + quoted(lossy_text(body@)));
                }
                return Err(OAuthError::Dcr(s));
            }
            if body.len() > DCR_MAX_BYTES {
                return Err(
                    OAuthError::Dcr(text_number("response exceeds ", DCR_MAX_BYTES, " bytes")),
                );
            }
            match document {
                Err(e) => Err(OAuthError::Dcr(text2("parse: ", e.as_str()))),
                Ok(doc) => Ok(
                    NewOAuthClient {
                        org_id,
                        issuer: meta.issuer.clone(),
                        client_id: doc.client_id,
                        client_secret: keep_secret(doc.client_secret),
                        authorization_endpoint: meta.authorization_endpoint.clone(),
                        token_endpoint: meta.token_endpoint.clone(),
                        registration_client_uri: doc.registration_client_uri,
                        registration_access_token: keep_secret(doc.registration_access_token),
                        token_endpoint_auth_method: pick_auth_method(
                            &meta.token_endpoint_auth_methods_supported,
                        ),
                        scope: own(scope),
                    },
                ),
            }
        },
    }
}

/// What the browser is sent to, and what is kept for its return.
#[derive(Debug)]
pub struct AuthorizeStart {
    pub authorize_url: String,
    pub state: String,
    pub pkce_verifier: String,
}

/// The URL that `oauth2` sends a browser to, for an authorization endpoint, a
/// client, where it comes back to, scopes, a state and the verifier of a proof
/// key.
pub uninterp spec fn authorize_url_text(
    endpoint: Seq<char>,
    client_id: Seq<char>,
    redirect_uri: Seq<char>,
    scopes: Seq<Seq<char>>,
    state: Seq<char>,
    verifier: Seq<char>,
) -> Seq<char>;

/// `oauth2::AuthorizationRequest::url`, of a `BasicClient` with the endpoint and
/// the redirect, with the state and the SHA-256 challenge of the verifier. The
/// URL depends on the arguments alone. The endpoint and the redirect must be
/// URLs, and a verifier must have 43 to 128 bytes: `oauth2` refuses others.
#[verifier::external_body]
fn authorize_url(
    endpoint: &str,
    client_id: &str,
    redirect_uri: &str,
    scopes: &Vec<String>,
    state: &str,
    verifier: &str,
) -> (s: String)
    requires
        parsed_url(endpoint@) is Ok,
        parsed_url(redirect_uri@) is Ok,
        43 <= utf8_len(verifier@) <= 128,
    ensures
        s@ == authorize_url_text(
            endpoint@,
            client_id@,
            redirect_uri@,
            texts(scopes@),
            state@,
            verifier@,
        ),
{
    let key = oauth2::PkceCodeVerifier::new(verifier.to_owned());
    let client = oauth2::basic::BasicClient::new(oauth2::ClientId::new(client_id.to_owned()))
        .set_auth_uri(oauth2::AuthUrl::new(endpoint.to_owned()).expect("a URL"))
        .set_redirect_uri(oauth2::RedirectUrl::new(redirect_uri.to_owned()).expect("a URL"));
    let (url, _) = client.authorize_url(|| oauth2::CsrfToken::new(state.to_owned()))
        .set_pkce_challenge(oauth2::PkceCodeChallenge::from_code_verifier_sha256(&key))
        .add_scopes(scopes.iter().map(|s| oauth2::Scope::new(s.clone())))
        .url();
    url.to_string()
}

/// `oauth2::PkceCodeChallenge::new_random_sha256`, of which the verifier: 32
/// random bytes, in URL-safe base64 without padding. Which bytes depends on
/// chance.
#[verifier::external_body]
fn random_verifier() -> (s: String)
    ensures
        url_safe(s@),
        s@.len() == 43,
{
    oauth2::PkceCodeChallenge::new_random_sha256().1.into_secret()
}

/// Why the client cannot be sent to its authorization server.
pub open spec fn client_fault(client: DcrClientRecord, redirect_uri: Seq<char>) -> Option<Seq<char>> {
    match parsed_url(client.authorization_endpoint@) {
        Err(e) => Some("authorization_endpoint: "@ + e),
        Ok(_) => match parsed_url(client.token_endpoint@) {
            Err(e) => Some("token_endpoint: "@ + e),
            Ok(_) => match parsed_url(redirect_uri) {
                Err(e) => Some("redirect_uri: "@ + e),
                Ok(_) => None,
            },
        },
    }
}

/// Checks the URLs of a client, for every request that is made with it.
pub fn check_client(client: &DcrClientRecord, redirect_uri: &str) -> (r: Result<(), OAuthError>)
    ensures
        match client_fault(*client, redirect_uri@) {
            Some(detail) => r matches Err(OAuthError::Misconfigured(s)) && s@ == detail,
            None => r is Ok,
        },
{
    if let Err(e) = parse_url(client.authorization_endpoint.as_str()) {
        return Err(OAuthError::Misconfigured(text2("authorization_endpoint: ", e.as_str())));
    }
    if let Err(e) = parse_url(client.token_endpoint.as_str()) {
        return Err(OAuthError::Misconfigured(text2("token_endpoint: ", e.as_str())));
    }
    if let Err(e) = parse_url(redirect_uri) {
        return Err(OAuthError::Misconfigured(text2("redirect_uri: ", e.as_str())));
    }
    Ok(())
}

/// The scopes that are asked for.
pub open spec fn asked_scopes(scope: Option<&str>) -> Seq<Seq<char>> {
    match scope {
        Some(s) => words(s@),
        None => Seq::empty(),
    }
}

/// `start` sends a browser to the authorization server of `client` with its own
/// state and verifier.
pub open spec fn starts(
    client: DcrClientRecord,
    redirect_uri: Seq<char>,
    scope: Option<&str>,
    start: AuthorizeStart,
) -> bool {
    start.authorize_url@ == authorize_url_text(
        client.authorization_endpoint@,
        client.client_id@,
        redirect_uri,
        asked_scopes(scope),
        start.state@,
        start.pkce_verifier@,
    )
}

/// Starts a flow with the state `state` and the verifier `pkce_verifier`.
pub fn authorize_with(
    client: &DcrClientRecord,
    redirect_uri: &str,
    requested_scope: Option<&str>,
    state: String,
    pkce_verifier: String,
) -> (r: Result<AuthorizeStart, OAuthError>)
    requires
        43 <= utf8_len(pkce_verifier@) <= 128,
    ensures
        match client_fault(*client, redirect_uri@) {
            Some(detail) => r matches Err(OAuthError::Misconfigured(s)) && s@ == detail,
            None => r matches Ok(start) && {
                &&& start.state == state
                &&& start.pkce_verifier == pkce_verifier
                &&& starts(*client, redirect_uri@, requested_scope, start)
            },
        },
{
    if let Err(e) = check_client(client, redirect_uri) {
        return Err(e);
    }
    let scopes: Vec<String> = match requested_scope {
        Some(s) => split_words(s),
        None => Vec::new(),
    };
    proof {
        assert(texts(scopes@) =~= asked_scopes(requested_scope));
    }
    let authorize_url = authorize_url(
        client.authorization_endpoint.as_str(),
        client.client_id.as_str(),
        redirect_uri,
        &scopes,
        state.as_str(),
        pkce_verifier.as_str(),
    );
    Ok(AuthorizeStart { authorize_url, state, pkce_verifier })
}

/// Starts a flow: the URL to send the browser to, with a new state and a new
/// proof key, which are kept for the callback.
pub fn build_authorize_url(
    client: &DcrClientRecord,
    redirect_uri: &str,
    requested_scope: Option<&str>,
) -> (r: Result<AuthorizeStart, OAuthError>)
    ensures
        match client_fault(*client, redirect_uri@) {
            Some(detail) => r matches Err(OAuthError::Misconfigured(s)) && s@ == detail,
            None => r matches Ok(start) && {
                &&& url_safe(start.state@) && start.state@.len() == 43
                &&& url_safe(start.pkce_verifier@) && start.pkce_verifier@.len() == 43
                &&& starts(*client, redirect_uri@, requested_scope, start)
            },
        },
{
    let verifier = random_verifier();
    let state = random_token(32);
    proof {
        lemma_url_safe_len(verifier@);
    }
    authorize_with(client, redirect_uri, requested_scope, state, verifier)
}

proof fn lemma_url_safe_len(s: Seq<char>)
    requires
        url_safe(s),
    ensures
        utf8_len(s) == s.len(),
{
    assert forall|i: int| 0 <= i < s.len() implies (#[trigger] s[i] as u32) < 0x80 by {
        assert(url_safe_char(s[i]));
    }
    lemma_ascii_len(s);
}

/// Tokens as the token endpoint issued them.
#[derive(Debug)]
pub struct IssuedTokens {
    pub access_token: String,
    pub refresh_token: Option<String>,
    /// Seconds after which the access token expires, if that was said.
    pub expires_in: Option<u64>,
    pub scopes: Option<Vec<String>>,
}

/// The tokens that a flow came to.
#[derive(Debug)]
pub struct TokenExchangeResult {
    pub access_token: String,
    pub refresh_token: Option<String>,
    pub expires_at: Timestamp,
    pub scope: Option<String>,
    pub issuer: String,
    pub token_endpoint: String,
}

/// Seconds after which a token expires: what was said, and the default where
/// nothing was or where it is beyond measure.
pub open spec fn expiry_secs(expires_in: Option<u64>) -> u64 {
    match expires_in {
        Some(s) => if s <= MAX_EXPIRY_SECS {
            s
        } else {
            DEFAULT_EXPIRY_SECS
        },
        None => DEFAULT_EXPIRY_SECS,
    }
}

/// When a token expires that was issued at `now`, if the calendar reaches that.
pub fn expiry(now: Timestamp, expires_in: Option<u64>) -> (r: Option<Timestamp>)
    ensures
        match r {
            Some(t) => t@ == now@ + expiry_secs(expires_in) * 1_000_000,
            None => !in_calendar(now@ + expiry_secs(expires_in) * 1_000_000),
        },
{
    let secs: u64 = match expires_in {
        Some(s) => if s <= MAX_EXPIRY_SECS {
            s
        } else {
            DEFAULT_EXPIRY_SECS
        },
        None => DEFAULT_EXPIRY_SECS,
    };
    let end: i128 = now.micros() as i128 + secs as i128 * 1_000_000;
    if end > TIMESTAMP_MAX_MICROS as i128 {
        return None;
    }
    Timestamp::from_micros(end as i64)
}

/// `r` holds `issued`, as issued to `client` at `now`.
pub open spec fn exchanged(
    client: DcrClientRecord,
    issued: IssuedTokens,
    now: Timestamp,
    r: TokenExchangeResult,
) -> bool {
    &&& r.access_token == issued.access_token
    &&& r.refresh_token == issued.refresh_token
    &&& r.expires_at@ == now@ + expiry_secs(issued.expires_in) * 1_000_000
    &&& match (issued.scopes, r.scope) {
        (Some(list), Some(s)) => s@ == joined(texts(list@), " "@),
        (None, None) => true,
        _ => false,
    }
    &&& r.issuer@ == client.issuer@
    &&& r.token_endpoint@ == client.token_endpoint@
}

/// Takes the answer of the token endpoint of `client`: tokens that it issued at
/// `now`, or why it issued none. A token must not expire beyond the calendar.
pub fn exchange_code(
    client: &DcrClientRecord,
    answer: Result<IssuedTokens, String>,
    now: Timestamp,
) -> (r: Result<TokenExchangeResult, OAuthError>)
    requires
        answer matches Ok(issued) ==> in_calendar(
            now@ + expiry_secs(issued.expires_in) * 1_000_000,
        ),
    ensures
        match answer {
            Err(e) => r matches Err(OAuthError::TokenEndpoint(s)) && s@ == "exchange: "@ + e@,
            Ok(issued) => r matches Ok(tokens) && exchanged(*client, issued, now, tokens),
        },
{
    match answer {
        Err(e) => Err(OAuthError::TokenEndpoint(text2("exchange: ", e.as_str()))),
        Ok(issued) => {
            let expires_at = match expiry(now, issued.expires_in) {
                Some(t) => t,
                None => now,
            };
            let scope = match &issued.scopes {
                Some(list) => Some(join(list, " ")),
                None => None,
            };
            Ok(
                TokenExchangeResult {
                    access_token: issued.access_token,
                    refresh_token: issued.refresh_token,
                    expires_at,
                    scope,
                    issuer: client.issuer.clone(),
                    token_endpoint: client.token_endpoint.clone(),
                },
            )
        },
    }
}

/// What came of asking for new tokens.
#[derive(Debug)]
pub enum RefreshOutcome {
    /// New tokens were issued.
    Refreshed(TokenExchangeResult),
    /// The refresh token is no longer valid.
    Revoked,
}

/// A client that may do without a secret does: nothing else is asked for where
/// the authorization server supports that.
pub proof fn law_public_clients_are_preferred(supported: Option<Vec<String>>)
    ensures
        supports(supported, TokenAuthMethod::NoSecret) ==> preferred_method(supported)
            == TokenAuthMethod::NoSecret,
        supported is Some && preferred_method(supported) != TokenAuthMethod::ClientSecretBasic
            ==> supports(supported, preferred_method(supported)),
        supported is None ==> preferred_method(supported) == TokenAuthMethod::ClientSecretBasic,
{
}

/// The authorization server's list of methods has the label.
pub open spec fn lists_method(supported: Option<Vec<String>>, label: Seq<char>) -> bool {
    supported matches Some(list) && exists|i: int|
        0 <= i < list@.len() && (#[trigger] list@[i])@ == label
}

/// Without a secret before with one, and with it in the header before in the body: what the
/// authorization server lists is used in that order, and the header where it lists none of
/// them.
pub proof fn law_methods_are_tried_in_order(supported: Option<Vec<String>>)
    ensures
        lists_method(supported, "none"@) ==> preferred_method(supported)
            == TokenAuthMethod::NoSecret,
        !lists_method(supported, "none"@) && lists_method(supported, "client_secret_basic"@)
            ==> preferred_method(supported) == TokenAuthMethod::ClientSecretBasic,
        !lists_method(supported, "none"@) && !lists_method(supported, "client_secret_basic"@)
            && lists_method(supported, "client_secret_post"@) ==> preferred_method(supported)
            == TokenAuthMethod::ClientSecretPost,
        !lists_method(supported, "none"@) && !lists_method(supported, "client_secret_basic"@)
            && !lists_method(supported, "client_secret_post"@) ==> preferred_method(supported)
            == TokenAuthMethod::ClientSecretBasic,
{
    assert(lists_method(supported, "none"@) == supports(supported, TokenAuthMethod::NoSecret));
    assert(lists_method(supported, "client_secret_basic"@) == supports(
        supported,
        TokenAuthMethod::ClientSecretBasic,
    ));
    assert(lists_method(supported, "client_secret_post"@) == supports(
        supported,
        TokenAuthMethod::ClientSecretPost,
    ));
}

/// A registration asks for a client that comes back to the given place with a code, and may
/// exchange the code and refresh its tokens.
pub proof fn law_registration_asks_for_code_and_refresh(
    request: DcrRequest,
    method: TokenAuthMethod,
    redirect_uri: Seq<char>,
    scope: Option<&str>,
)
    requires
        registers(request, method, redirect_uri, scope),
    ensures
        request.redirect_uris@.len() == 1 && request.redirect_uris@[0]@ == redirect_uri,
        request.grant_types@.len() == 2 && request.grant_types@[0]@ == "authorization_code"@
            && request.grant_types@[1]@ == "refresh_token"@,
        request.response_types@.len() == 1 && request.response_types@[0]@ == "code"@,
        request.token_endpoint_auth_method == method,
        scope is None ==> request.scope is None,
        scope matches Some(s) ==> (request.scope matches Some(t) && t@ == s@),
{
    assert(texts(request.redirect_uris@).len() == 1);
    assert(texts(request.redirect_uris@)[0] == redirect_uri);
    assert(texts(request.grant_types@).len() == 2);
    assert(texts(request.grant_types@)[0] == "authorization_code"@);
    assert(texts(request.grant_types@)[1] == "refresh_token"@);
    assert(texts(request.response_types@).len() == 1);
    assert(texts(request.response_types@)[0] == "code"@);
}

/// A registered client is the one that the authorization server answered with: its id and
/// its secret are the answer's, its endpoints those of the server that answered, and it
/// belongs to the organisation that asked. A secret that can be kept is kept.
pub proof fn law_registered_client_is_the_answered_one(
    meta: AsMetadata,
    org: OrgId,
    method: TokenAuthMethod,
    scope: Option<&str>,
    doc: DcrResponse,
    client: NewOAuthClient,
)
    requires
        registered(meta, org, method, scope, doc, client),
    ensures
        client.client_id@ == doc.client_id@,
        client.org_id == org,
        client.issuer@ == meta.issuer@,
        client.authorization_endpoint@ == meta.authorization_endpoint@,
        client.token_endpoint@ == meta.token_endpoint@,
        client.token_endpoint_auth_method == method,
        client.registration_client_uri == doc.registration_client_uri,
        doc.client_secret is None ==> client.client_secret is None,
        doc.client_secret matches Some(s) ==> (SecretString::refusal(s@) is None ==> (
        client.client_secret matches Some(v) && v@ == s@)),
        doc.registration_access_token is None ==> client.registration_access_token is None,
        doc.registration_access_token matches Some(s) ==> (SecretString::refusal(s@) is None ==> (
        client.registration_access_token matches Some(v) && v@ == s@)),
        scope is None ==> client.scope is None,
        scope matches Some(s) ==> (client.scope matches Some(t) && t@ == s@),
{
}

/// A client is sent off only with three URLs that are URLs; the first that is none is named.
pub proof fn law_every_url_of_a_client_is_checked(client: DcrClientRecord, redirect_uri: Seq<char>)
    ensures
        client_fault(client, redirect_uri) is None <==> parsed_url(client.authorization_endpoint@)
            is Ok && parsed_url(client.token_endpoint@) is Ok && parsed_url(redirect_uri) is Ok,
        parsed_url(client.authorization_endpoint@) matches Err(e) ==> client_fault(
            client,
            redirect_uri,
        ) == Some("authorization_endpoint: "@ + e),
        parsed_url(client.authorization_endpoint@) is Ok ==> (parsed_url(
            client.token_endpoint@,
        ) matches Err(e) ==> client_fault(client, redirect_uri) == Some("token_endpoint: "@ + e)),
        parsed_url(client.authorization_endpoint@) is Ok && parsed_url(client.token_endpoint@) is Ok
            ==> (parsed_url(redirect_uri) matches Err(e) ==> client_fault(client, redirect_uri)
            == Some("redirect_uri: "@ + e)),
{
}

/// The tokens that a flow comes to are those that were issued: they expire when the server
/// said, ten minutes on where it said nothing, and their scope has every scope that was
/// granted.
pub proof fn law_exchanged_tokens_are_the_issued_ones(
    client: DcrClientRecord,
    issued: IssuedTokens,
    now: Timestamp,
    r: TokenExchangeResult,
    k: int,
)
    requires
        exchanged(client, issued, now, r),
    ensures
        r.access_token@ == issued.access_token@,
        r.refresh_token == issued.refresh_token,
        r.issuer@ == client.issuer@,
        r.token_endpoint@ == client.token_endpoint@,
        issued.expires_in is None ==> r.expires_at@ == now@ + 600_000_000,
        issued.expires_in matches Some(s) ==> {
            &&& s <= 9_223_372_036_854_775 ==> r.expires_at@ == now@ + s * 1_000_000
            &&& s > 9_223_372_036_854_775 ==> r.expires_at@ == now@ + 600_000_000
        },
        issued.scopes is None ==> r.scope is None,
        issued.scopes matches Some(list) ==> {
            &&& r.scope is Some
            &&& 0 <= k < list@.len() ==> has_substring(r.scope->0@, list@[k]@)
            &&& list@.len() == 1 ==> r.scope->0@ == list@[0]@
        },
{
    if issued.scopes is Some {
        let list = issued.scopes->0;
        if 0 <= k < list@.len() {
            assert(texts(list@)[k] == list@[k]@);
            law_joining_keeps_the_parts(texts(list@), " "@, k);
        }
    }
}

/// Of a refusal the first characters are quoted, all of it where it is short.
pub proof fn law_refusals_are_quoted_from_the_start(s: Seq<char>)
    ensures
        s.len() <= 256 ==> quoted(s) == s,
        s.len() > 256 ==> quoted(s).len() == 256,
        quoted(s).is_prefix_of(s),
{
    assert(s.subrange(0, s.len() as int) =~= s);
    if s.len() > 256 {
        assert(s.subrange(0, 256) =~= quoted(s));
    }
}

/// The browser is sent to the endpoint of the client, as that client, to come back to the given
/// place, with the state and the verifier that are kept; and it asks for the scopes that are
/// asked for, one by one.
pub proof fn law_browser_is_sent_as_the_client(
    client: DcrClientRecord,
    redirect_uri: Seq<char>,
    scope: Option<&str>,
    start: AuthorizeStart,
)
    requires
        starts(client, redirect_uri, scope, start),
    ensures
        scope is None ==> start.authorize_url@ == authorize_url_text(
            client.authorization_endpoint@,
            client.client_id@,
            redirect_uri,
            Seq::<Seq<char>>::empty(),
            start.state@,
            start.pkce_verifier@,
        ),
        scope matches Some(s) ==> start.authorize_url@ == authorize_url_text(
            client.authorization_endpoint@,
            client.client_id@,
            redirect_uri,
            words(s@),
            start.state@,
            start.pkce_verifier@,
        ),
{
}

/// A client is registered under one name, to come back to one place.
pub proof fn law_client_is_registered_by_name(
    request: DcrRequest,
    method: TokenAuthMethod,
    redirect_uri: Seq<char>,
    scope: Option<&str>,
)
    requires
        registers(request, method, redirect_uri, scope),
    ensures
        request.client_name@ == "Relay"@,
        request.redirect_uris@.len() == 1,
        request.redirect_uris@[0]@ == redirect_uri,
        scope is None ==> request.scope is None,
        scope matches Some(s) ==> request.scope is Some && request.scope->0@ == s@,
{
    assert(texts(request.redirect_uris@).len() == request.redirect_uris@.len());
    assert(texts(request.redirect_uris@)[0] == request.redirect_uris@[0]@);
}

} // verus!
