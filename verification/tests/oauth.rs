use relay::crypto::{CryptoError, EncryptedBlob};
use relay::ids::{McpServerId, OrgId, UserId};
use relay::mcp::credentials::{
    CredentialPayload, McpCredentialRecord, McpHeaders, OAuth2Payload,
};
use relay::mcp::oauth::discovery::{
    authority_answered, discover_authorization_server, fetched, join_well_known,
    resource_answered, AsMetadata, FetchReply, DISCOVERY_MAX_BYTES,
};
use relay::mcp::oauth::errors::OAuthError;
use relay::mcp::oauth::flow::{
    authorize_with, build_authorize_url, check_client, exchange_code, expiry, pick_auth_method,
    plan_registration, register_dynamic_client, DcrReply, DcrResponse, IssuedTokens,
    RefreshOutcome, TokenExchangeResult, DCR_MAX_BYTES,
};
use relay::mcp::oauth::probe::{probe_answered, probe_due, read_challenge, ProbeReply};
use relay::mcp::oauth::refresher::{
    decode_oauth2, mark_reconnect_required, plan_refresh, refresh_client, refresh_one,
    run_one_tick, RefreshEnd, RefreshPlan,
};
use relay::mcp::oauth::store::{
    decode_client_secret, DcrClientRecord, NewOAuthClient, OAuthClientRow, OAuthClients,
    PendingAuthorizationWrite, PendingAuthorizations, TokenAuthMethod,
};
use relay::mcp::types::{
    ConnectionStatus, McpHttpUrl, McpServerAlias, McpServerRecord, McpTransport,
};
use relay::time::Timestamp;
use relay::types::SecretString;

fn at(secs: i64) -> Timestamp {
    Timestamp::from_secs(secs).expect("in the calendar")
}

fn metadata(issuer: &str) -> AsMetadata {
    AsMetadata {
        issuer: issuer.to_owned(),
        authorization_endpoint: "https://as.example/authorize".to_owned(),
        token_endpoint: "https://as.example/token".to_owned(),
        registration_endpoint: Some("https://as.example/register".to_owned()),
        scopes_supported: None,
        token_endpoint_auth_methods_supported: None,
    }
}

fn client() -> DcrClientRecord {
    DcrClientRecord {
        org_id: OrgId::new(),
        issuer: "https://as.example".to_owned(),
        client_id: "abc".to_owned(),
        client_secret: None,
        authorization_endpoint: "https://as.example/authorize".to_owned(),
        token_endpoint: "https://as.example/token".to_owned(),
        token_endpoint_auth_method: TokenAuthMethod::NoSecret,
        scope: None,
    }
}

fn ok<T>(document: T) -> FetchReply<T> {
    FetchReply::Answer { status: 200, bytes: 10, document: Ok(document) }
}

#[test]
fn one_slash_stands_before_a_well_known_path() {
    for base in ["https://h.example", "https://h.example/", "https://h.example///"] {
        assert_eq!(
            join_well_known(base, ".well-known/x").expect("a URL"),
            "https://h.example/.well-known/x"
        );
    }
    assert_eq!(
        join_well_known("", "x").expect_err("no URL").message(),
        "discovery: join x: relative URL without a base"
    );
}

#[test]
fn discovery_goes_from_the_server_to_its_issuer() {
    let url = discover_authorization_server("https://mcp.example/api/").expect("a URL");
    assert_eq!(url, "https://mcp.example/api/.well-known/oauth-protected-resource");
    let servers = Some(vec!["https://as.example".to_owned(), "https://b.example".to_owned()]);
    let (issuer, next) = resource_answered(&url, ok(servers)).expect("an issuer");
    assert_eq!(issuer, "https://as.example");
    assert_eq!(next, "https://as.example/.well-known/oauth-authorization-server");
    let meta = authority_answered(&issuer, &next, ok(metadata("https://as.example")));
    assert_eq!(meta.expect("the issuer").token_endpoint, "https://as.example/token");
}

#[test]
fn discovery_says_what_is_wrong() {
    assert_eq!(
        discover_authorization_server("nope").expect_err("no URL").message(),
        "discovery: server url: relative URL without a base"
    );
    for servers in [None, Some(vec![])] {
        assert_eq!(
            resource_answered("u", ok(servers)).expect_err("none").message(),
            "discovery: no authorization_servers advertised"
        );
    }
    assert_eq!(
        resource_answered("u", ok(Some(vec!["nope".to_owned()]))).expect_err("bad").message(),
        "discovery: issuer url: relative URL without a base"
    );
    assert_eq!(
        authority_answered("https://a.example", "u", ok(metadata("https://b.example")))
            .expect_err("another issuer")
            .message(),
        "discovery: issuer mismatch: resource says https://a.example, AS metadata says \
         https://b.example"
    );
}

#[test]
fn fetches_fail_in_their_ways() {
    let fail = |reply: FetchReply<u8>| fetched("https://h/x", reply).expect_err("fails").message();
    assert_eq!(fail(FetchReply::TimedOut), "discovery: timed out");
    assert_eq!(fail(FetchReply::Failed("dns".to_owned())), "discovery: http: dns");
    assert_eq!(fail(FetchReply::Unreadable("cut".to_owned())), "discovery: body: cut");
    let answer = |status, bytes, document| FetchReply::Answer { status, bytes, document };
    assert_eq!(fail(answer(404, 0, Ok(1))), "discovery: https://h/x 404 Not Found");
    assert_eq!(fail(answer(799, 0, Ok(1))), "discovery: https://h/x 799 ");
    assert_eq!(
        fail(answer(200, DISCOVERY_MAX_BYTES + 1, Ok(1))),
        "discovery: response exceeds 32768 bytes"
    );
    assert_eq!(fail(answer(200, 1, Err("eof".to_owned()))), "discovery: parse: eof");
    assert_eq!(fetched("u", answer(299, DISCOVERY_MAX_BYTES, Ok(7))).expect("fits"), 7);
}

#[test]
fn public_clients_are_preferred() {
    let pick = |list: &[&str]| {
        pick_auth_method(&Some(list.iter().map(|s| (*s).to_owned()).collect()))
    };
    assert_eq!(pick(&["client_secret_post", "none"]), TokenAuthMethod::NoSecret);
    assert_eq!(
        pick(&["client_secret_post", "client_secret_basic"]),
        TokenAuthMethod::ClientSecretBasic
    );
    assert_eq!(pick(&["client_secret_post"]), TokenAuthMethod::ClientSecretPost);
    assert_eq!(pick(&["private_key_jwt"]), TokenAuthMethod::ClientSecretBasic);
    assert_eq!(pick_auth_method(&None), TokenAuthMethod::ClientSecretBasic);
}

#[test]
fn a_registration_asks_for_codes_and_refresh_tokens() {
    let meta = metadata("https://as.example");
    let (endpoint, request) =
        plan_registration(&meta, "https://relay.example/cb", Some("read")).expect("supported");
    assert_eq!(endpoint, "https://as.example/register");
    assert_eq!(request.client_name, "Relay");
    assert_eq!(request.redirect_uris, vec!["https://relay.example/cb"]);
    assert_eq!(request.grant_types, vec!["authorization_code", "refresh_token"]);
    assert_eq!(request.response_types, vec!["code"]);
    assert_eq!(request.scope.as_deref(), Some("read"));
    let mut closed = metadata("https://as.example");
    closed.registration_endpoint = None;
    assert_eq!(
        plan_registration(&closed, "https://relay.example/cb", None).expect_err("closed").message(),
        "misconfigured: AS https://as.example does not support dynamic client registration"
    );
}

fn answer(status: u16, body: Vec<u8>, document: Result<DcrResponse, String>) -> DcrReply {
    DcrReply::Answer { status, body, document }
}

fn document(secret: &str) -> DcrResponse {
    DcrResponse {
        client_id: "abc".to_owned(),
        client_secret: Some(secret.to_owned()),
        registration_client_uri: None,
        registration_access_token: None,
    }
}

#[test]
fn a_registered_client_is_taken() {
    let meta = metadata("https://as.example");
    let org = OrgId::new();
    let new = register_dynamic_client(&meta, org, None, answer(201, vec![1], Ok(document("s3"))))
        .ok()
        .expect("registered");
    assert_eq!(new.org_id, org);
    assert_eq!(new.client_id, "abc");
    assert_eq!(new.client_secret.expect("kept").expose(), "s3");
    assert_eq!(new.token_endpoint_auth_method, TokenAuthMethod::ClientSecretBasic);
    let dropped =
        register_dynamic_client(&meta, org, None, answer(200, vec![1], Ok(document(""))))
            .ok()
            .expect("registered");
    assert!(dropped.client_secret.is_none());
}

#[test]
fn a_registration_fails_in_its_ways() {
    let meta = metadata("https://as.example");
    let fail = |reply: DcrReply| {
        register_dynamic_client(&meta, OrgId::new(), None, reply)
            .err()
            .expect("fails")
            .message()
    };
    assert_eq!(
        fail(DcrReply::TimedOut),
        "dynamic client registration: registration timed out"
    );
    assert_eq!(
        fail(DcrReply::Failed("dns".to_owned())),
        "dynamic client registration: http: dns"
    );
    assert_eq!(
        fail(DcrReply::Unreadable("cut".to_owned())),
        "dynamic client registration: body: cut"
    );
    let mut body = "\u{e9}".repeat(300).into_bytes();
    assert_eq!(
        fail(answer(400, body.clone(), Err("x".to_owned()))),
        format!(
            "dynamic client registration: 400 Bad Request body={}",
            "\u{e9}".repeat(256)
        )
    );
    body.truncate(3);
    assert_eq!(
        fail(answer(500, body, Err("x".to_owned()))),
        "dynamic client registration: 500 Internal Server Error body=\u{e9}\u{fffd}"
    );
    assert_eq!(
        fail(answer(200, vec![0; DCR_MAX_BYTES + 1], Ok(document("s")))),
        "dynamic client registration: response exceeds 32768 bytes"
    );
    assert_eq!(
        fail(answer(200, vec![0], Err("eof".to_owned()))),
        "dynamic client registration: parse: eof"
    );
}

#[test]
fn a_flow_starts_with_a_new_state_and_proof_key() {
    let c = client();
    let start = build_authorize_url(&c, "https://relay.example/cb", Some("read  write"))
        .expect("a URL");
    assert_eq!(start.state.len(), 43);
    assert_eq!(start.pkce_verifier.len(), 43);
    let url = &start.authorize_url;
    assert!(url.starts_with("https://as.example/authorize?response_type=code&client_id=abc&state="));
    assert!(url.contains(&format!("state={}", start.state)));
    assert!(url.contains("code_challenge_method=S256"));
    assert!(url.contains("redirect_uri=https%3A%2F%2Frelay.example%2Fcb"));
    assert!(url.ends_with("&scope=read+write"));
    let again = build_authorize_url(&c, "https://relay.example/cb", None).expect("a URL");
    assert_ne!(again.state, start.state);
    assert_ne!(again.pkce_verifier, start.pkce_verifier);
    assert!(!again.authorize_url.contains("scope="));
}

#[test]
fn the_challenge_is_that_of_the_verifier() {
    let start = authorize_with(
        &client(),
        "https://relay.example/cb",
        None,
        "xyz".to_owned(),
        "dBjftJeZ4CVP-mB92K27uhbUJU1p1r_wW1gFWFOEjXk".to_owned(),
    )
    .expect("a URL");
    assert!(start
        .authorize_url
        .contains("code_challenge=E9Melhoa2OwvFrEMTJguCHaoeK1t8URWbuGJSstw-cM"));
    assert!(start.authorize_url.contains("state=xyz"));
}

#[test]
fn a_client_without_urls_is_misconfigured() {
    let fault = |c: &DcrClientRecord, redirect: &str| {
        check_client(c, redirect).expect_err("misconfigured").message()
    };
    let good = "https://relay.example/cb";
    let mut c = client();
    c.authorization_endpoint = "nope".to_owned();
    assert_eq!(
        fault(&c, good),
        "misconfigured: authorization_endpoint: relative URL without a base"
    );
    let mut c = client();
    c.token_endpoint = "nope".to_owned();
    assert_eq!(fault(&c, good), "misconfigured: token_endpoint: relative URL without a base");
    assert_eq!(
        fault(&client(), "nope"),
        "misconfigured: redirect_uri: relative URL without a base"
    );
    assert!(check_client(&client(), good).is_ok());
}

fn issued(expires_in: Option<u64>) -> IssuedTokens {
    IssuedTokens {
        access_token: "at".to_owned(),
        refresh_token: Some("rt".to_owned()),
        expires_in,
        scopes: Some(vec!["a".to_owned(), "b".to_owned()]),
    }
}

#[test]
fn issued_tokens_expire_when_it_is_said_or_after_ten_minutes() {
    let t = exchange_code(&client(), Ok(issued(Some(30))), at(100)).expect("issued");
    assert_eq!(t.expires_at, at(130));
    assert_eq!(t.scope.as_deref(), Some("a b"));
    assert_eq!(t.issuer, "https://as.example");
    assert_eq!(t.token_endpoint, "https://as.example/token");
    let t = exchange_code(&client(), Ok(issued(None)), at(100)).expect("issued");
    assert_eq!(t.expires_at, at(700));
    let t = exchange_code(&client(), Ok(issued(Some(u64::MAX))), at(100)).expect("issued");
    assert_eq!(t.expires_at, at(700));
    assert_eq!(expiry(at(0), Some(9_223_372_036_854_775)), None);
    assert_eq!(expiry(at(0), Some(9_223_372_036_854_776)), Some(at(600)));
    assert_eq!(
        exchange_code(&client(), Err("denied".to_owned()), at(0)).expect_err("denied").message(),
        "token endpoint: exchange: denied"
    );
}

fn new_client(org: OrgId, client_id: &str) -> NewOAuthClient {
    NewOAuthClient {
        org_id: org,
        issuer: "https://as.example".to_owned(),
        client_id: client_id.to_owned(),
        client_secret: None,
        authorization_endpoint: "https://as.example/authorize".to_owned(),
        token_endpoint: "https://as.example/token".to_owned(),
        registration_client_uri: None,
        registration_access_token: None,
        token_endpoint_auth_method: TokenAuthMethod::NoSecret,
        scope: None,
    }
}

fn blob(n: u8) -> EncryptedBlob {
    EncryptedBlob { key_version: 2, nonce: [n; 12], ciphertext: vec![n, n] }
}

#[test]
fn the_first_client_of_an_organisation_at_an_issuer_stays() {
    let mut clients = OAuthClients::new();
    let org = OrgId::new();
    let row = OAuthClientRow::new(new_client(org, "first"), Some(blob(1)), None, 2, at(1));
    assert_eq!(clients.upsert(row).client_id, "first");
    let again = OAuthClientRow::new(new_client(org, "second"), None, None, 2, at(2));
    assert_eq!(clients.upsert(again).client_id, "first");
    let other = OAuthClientRow::new(new_client(OrgId::new(), "other"), None, None, 2, at(3));
    assert_eq!(clients.upsert(other).client_id, "other");
    assert_eq!(
        clients.read(org, "https://as.example").map(|r| r.client_id.as_str()),
        Some("first")
    );
    assert!(clients.read(org, "https://b.example").is_none());
}

#[test]
fn a_sealed_secret_comes_back_whole_or_not_at_all() {
    let row = OAuthClientRow::new(new_client(OrgId::new(), "x"), Some(blob(7)), None, 2, at(1));
    let sealed = row.secret_blob().expect("whole").expect("sealed");
    assert_eq!((sealed.nonce, sealed.ciphertext), ([7; 12], vec![7, 7]));
    let plain = OAuthClientRow::new(new_client(OrgId::new(), "x"), None, Some(blob(1)), 2, at(1));
    assert!(plain.secret_blob().expect("none").is_none());
    let mut torn = OAuthClientRow::new(new_client(OrgId::new(), "x"), Some(blob(7)), None, 2, at(1));
    torn.client_secret_nonce = Some(vec![1, 2, 3]);
    assert_eq!(
        torn.secret_blob().expect_err("torn").message(),
        "misconfigured: oauth client_secret nonce wrong length"
    );
    let rec = row.into_record(Some(SecretString::try_from("s").ok().expect("valid")));
    assert_eq!(rec.client_secret.expect("opened").expose(), "s");
}

#[test]
fn an_opened_secret_must_be_text() {
    let secret = decode_client_secret(Ok("s\u{e9}".as_bytes().to_vec())).ok().expect("text");
    assert_eq!(secret.expose(), "s\u{e9}");
    let fail = |opened| decode_client_secret(opened).err().expect("fails").message();
    assert_eq!(fail(Ok(vec![0xff])), "misconfigured: oauth client_secret not utf-8");
    assert_eq!(
        fail(Ok(vec![])),
        "misconfigured: oauth client_secret invalid: secret must not be empty"
    );
    assert_eq!(
        fail(Err(CryptoError { detail: "bad tag".to_owned() })),
        "crypto: bad tag"
    );
}

fn pending(state: &str, expires: i64) -> PendingAuthorizationWrite {
    PendingAuthorizationWrite {
        state: state.to_owned(),
        server_id: McpServerId::new(),
        user_id: UserId::new(),
        org_id: OrgId::new(),
        issuer: "https://as.example".to_owned(),
        pkce_verifier: "v".to_owned(),
        redirect_to: None,
        expires_at: at(expires),
    }
}

#[test]
fn an_authorization_is_handed_out_once() {
    let mut table = PendingAuthorizations::new();
    table.insert(pending("a", 100)).expect("new");
    table.insert(pending("b", 100)).expect("new");
    assert!(matches!(table.insert(pending("a", 200)), Err(OAuthError::Db(_))));
    assert_eq!(table.consume("a", at(50)).map(|p| p.state), Some("a".to_owned()));
    assert!(table.consume("a", at(50)).is_none());
    assert!(table.consume("c", at(50)).is_none());
    assert!(table.consume("b", at(100)).is_none());
    assert!(table.consume("b", at(99)).is_some());
}

fn tokens(expires: i64, refresh: Option<&str>) -> OAuth2Payload {
    OAuth2Payload {
        access_token: "old".to_owned(),
        refresh_token: refresh.map(|s| s.to_owned()),
        expires_at: at(expires),
        scope: Some("read".to_owned()),
        issuer: "https://as.example".to_owned(),
        token_endpoint: "https://as.example/token".to_owned(),
    }
}

fn stored(payload: CredentialPayload) -> Option<McpCredentialRecord> {
    Some(McpCredentialRecord { server_id: McpServerId::new(), org_id: OrgId::new(), payload })
}

#[test]
fn a_round_picks_what_is_about_to_expire() {
    let rows = vec![
        Ok(tokens(1_000, None)),
        Err(OAuthError::InvalidState),
        Ok(tokens(1_120, None)),
        Ok(tokens(1_121, None)),
    ];
    assert_eq!(run_one_tick(&rows, at(1_000)), vec![0, 2]);
}

#[test]
fn tokens_are_looked_at_again_under_the_lock() {
    let now = at(1_000);
    assert!(matches!(plan_refresh(None, now), RefreshPlan::Leave));
    let headers = CredentialPayload::StaticHeaders { headers: McpHeaders::new() };
    assert!(matches!(plan_refresh(stored(headers), now), RefreshPlan::Leave));
    let fresh = CredentialPayload::Oauth2(tokens(5_000, Some("rt")));
    assert!(matches!(plan_refresh(stored(fresh), now), RefreshPlan::Leave));
    let bare = CredentialPayload::Oauth2(tokens(1_000, None));
    assert!(matches!(
        plan_refresh(stored(bare), now),
        RefreshPlan::Reconnect("no refresh_token")
    ));
    let due = CredentialPayload::Oauth2(tokens(1_000, Some("rt")));
    assert!(matches!(plan_refresh(stored(due), now), RefreshPlan::Exchange(_)));
}

#[test]
fn an_exchange_keeps_what_the_answer_leaves_out() {
    let (server, org) = (McpServerId::new(), OrgId::new());
    let answer = TokenExchangeResult {
        access_token: "new".to_owned(),
        refresh_token: None,
        expires_at: at(9_000),
        scope: None,
        issuer: "https://as.example".to_owned(),
        token_endpoint: "https://as.example/token".to_owned(),
    };
    match refresh_one(server, org, tokens(1, Some("rt")), RefreshOutcome::Refreshed(answer)) {
        RefreshEnd::Store(write) => {
            assert_eq!((write.server_id, write.org_id), (server, org));
            match write.payload {
                CredentialPayload::Oauth2(p) => {
                    assert_eq!(p.access_token, "new");
                    assert_eq!(p.refresh_token.as_deref(), Some("rt"));
                    assert_eq!(p.scope.as_deref(), Some("read"));
                    assert_eq!(p.expires_at, at(9_000));
                }
                CredentialPayload::StaticHeaders { .. } => panic!("tokens expected"),
            }
        }
        other => panic!("expected a store, got {other:?}"),
    }
    assert!(matches!(
        refresh_one(server, org, tokens(1, Some("rt")), RefreshOutcome::Revoked),
        RefreshEnd::Forget("refresh_token revoked")
    ));
}

#[test]
fn an_unknown_client_is_misconfigured() {
    let org = OrgId(1);
    assert!(refresh_client(org, "https://as.example", Some(client())).is_ok());
    assert_eq!(
        refresh_client(org, "https://as.example", None).err().expect("unknown").message(),
        "misconfigured: no DCR client for org OrgId(00000000-0000-0000-0000-000000000001) / \
         issuer https://as.example"
    );
}

#[test]
fn rows_of_tokens_must_hold_tokens() {
    let p = decode_oauth2("oauth2", Ok(CredentialPayload::Oauth2(tokens(1, None))));
    assert_eq!(p.expect("tokens").access_token, "old");
    let headers = || CredentialPayload::StaticHeaders { headers: McpHeaders::new() };
    assert_eq!(
        decode_oauth2("static_headers", Ok(headers())).expect_err("headers").message(),
        "misconfigured: expected oauth2 payload, got static_headers"
    );
    assert!(matches!(decode_oauth2("oauth2", Ok(headers())), Err(OAuthError::Mcp(_))));
}

#[test]
fn a_server_whose_tokens_are_gone_calls_for_its_user() {
    let rec = McpServerRecord {
        id: McpServerId::new(),
        org_id: OrgId::new(),
        alias: McpServerAlias::try_from("one").expect("valid"),
        enabled: true,
        config: McpTransport::Http {
            url: McpHttpUrl::try_from("https://one.example").expect("valid"),
        },
        description: None,
        last_seen_at: Some(at(1)),
        last_error: None,
        discovered_tools: None,
        created_by_user_id: UserId::new(),
        connection_status: ConnectionStatus::Healthy,
        created_at: at(0),
        updated_at: at(0),
    };
    let after = mark_reconnect_required(rec, "no refresh_token", at(9));
    assert_eq!(after.connection_status.as_str(), "reconnect_required");
    assert_eq!(after.last_error.as_deref(), Some("no refresh_token"));
    assert_eq!(after.updated_at, at(9));
    assert_eq!(after.last_seen_at, Some(at(1)));
}

#[test]
fn a_server_without_a_description_is_asked_where_it_has_one() {
    let answer = |status| FetchReply::<u8>::Answer { status, bytes: 0, document: Err(String::new()) };
    assert!(probe_due(&answer(404)));
    assert!(!probe_due(&answer(500)) && !probe_due(&ok(1u8)));
    assert!(!probe_due(&FetchReply::<u8>::TimedOut));
    let missing = || OAuthError::Discovery("https://h/x 404 Not Found".to_owned());
    let reply = |status, challenges: &[&str]| {
        let challenges = challenges.iter().map(|c| (*c).to_owned()).collect();
        probe_answered(missing(), Some(ProbeReply { status, challenges }))
    };
    let named = "Bearer realm=\"a\", resource_metadata=\"HTTPS://H.example/meta\", x=1";
    assert_eq!(reply(401, &["Basic", named]).expect("named"), "https://h.example/meta");
    for unnamed in [reply(200, &[named]), reply(401, &["Bearer"]), reply(401, &[])] {
        assert_eq!(
            unnamed.expect_err("no place").message(),
            "discovery: https://h/x 404 Not Found"
        );
    }
    assert!(probe_answered(missing(), None).is_err());
}

#[test]
fn a_challenge_names_a_place_with_or_without_quotes() {
    let read = |c: &str| read_challenge(c);
    assert_eq!(read("bearer resource_metadata=https://h/m, x=1").as_deref(), Some("https://h/m"));
    assert_eq!(read("BEARER resource_metadata=\"a, b\"").as_deref(), Some("a, b"));
    assert_eq!(read("Bearer resource_metadata=").as_deref(), Some(""));
    assert_eq!(read("Basic resource_metadata=x"), None);
    assert_eq!(read("Bearer realm=x"), None);
}
