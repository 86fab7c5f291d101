use relay::agents::{
    AgentDescription, AgentName, AgentRecord, AgentStoreError, AgentSystemPrompt,
    AllowedMcpServers,
};
use relay::auth::{
    AuthError, Claims, EmailAddress, Language, OrgMembership, OrgSlug, Principal, Role, User,
};
use relay::db::DbFault;
use relay::http::auth_layer::{
    extract_principal, require_principal, session_token, verified_claims, MissingPrincipal,
};
use relay::http::cookies::{
    build_csrf_cookie, build_expired_csrf_cookie, build_expired_session_cookie,
    build_session_cookie, SameSite,
};
use relay::http::error::HttpError;
use relay::http::routes::agents::{
    agent_response, create_agent, update_agent, CreateAgentRequest, UpdateAgentRequest,
};
use relay::http::routes::auth::{
    callback, login, sanitize_return_to, CallbackAction, CallbackQuery, CallbackReply,
};
use relay::http::routes::mcp::{
    admit_test_connect, create_mcp_server, redact_error, require_visible, server_response,
    test_connect_mcp_server, try_into_response, update_mcp_server, CreateMcpServerRequest,
    TestConnectReply, TestConnectResponse, UpdateMcpServerRequest,
};
use relay::http::routes::me::{logout, me, set_org_language, switch_org, switch_role};
use relay::http::routes::memory::{
    create_memory_note, event_response, list_events, list_memory, note_response, revert_event,
    store_error, CreateNoteRequest, ListEventsQuery, RevertResponse,
};
use relay::http::routes::prompts::{
    prompt_request, session_agent_participant, submit_prompt, submit_response, ReceiverSource,
    SubmitPromptRequest,
};
use relay::http::routes::threads::{
    history_cursor, history_limit, history_row_to_message, list_limit, thread_row_to_summary,
    FrameChunk, HistoryRow, PublishedChunk, ThreadStreamEvent, ThreadStreamState,
};
use relay::ids::{
    AgentId, McpServerId, MemoryEventId, MemoryId, OrgId, PromptRequestId, SessionId, UserId,
};
use relay::mcp::error::McpError;
use relay::mcp::rate_limit::TestConnectRateLimiter;
use relay::mcp::registry::RemoteTool;
use relay::mcp::store::McpServerRow;
use relay::mcp::types::{ConnectionStatus, McpHttpUrl, McpTransport, McpTransportInput};
use relay::memory::store::{
    MemoryEvent, MemoryEventPayload, MemoryMutation, MemoryRow, MemoryStoreError, MutationSource,
};
use relay::memory::types::{
    MemoryContent, MemoryKind, MemoryState, MutationKind, MutationSourceKind,
};
use relay::runtime::{EnqueueOutcome, PromptError, RequestStatus, ResponseError};
use relay::session::SessionError;
use relay::time::Timestamp;
use relay::types::{
    MessageSender, MessageSenderKind, ParseError, Participant, ParticipantKind,
    RequestKindPayload,
};

fn at(secs: i64) -> Timestamp {
    Timestamp::from_secs(secs).expect("in the calendar")
}

fn principal(role: Role) -> Principal {
    Principal { user_id: UserId(1), active_org_id: OrgId(2), role }
}

#[test]
fn every_error_has_its_status_and_answer() {
    let empty = || ParseError::Empty { field: "x" };
    let s = |t: &str| t.to_owned();
    let cases = vec![
        (HttpError::BadRequest(s("why")), 400, "why"),
        (HttpError::NotFound, 404, "not found"),
        (HttpError::Forbidden("no"), 403, "no"),
        (HttpError::Conflict(s("twice")), 409, "twice"),
        (HttpError::PayloadTooLarge, 413, "too large"),
        (HttpError::TooManyRequests, 429, "too many requests"),
        (HttpError::Parse(empty()), 400, "x must not be empty"),
        (HttpError::Session(SessionError::NotFound(SessionId(1))), 404, "session not found"),
        (HttpError::Session(SessionError::AgentNotFound(AgentId(1))), 400, "unknown agent_id"),
        (
            HttpError::Session(SessionError::MessageCapExceeded { max: 9 }),
            429,
            "session: message cap reached (max 9)",
        ),
        (HttpError::Session(SessionError::Backend(s("b"))), 400, "session store: b"),
        (HttpError::Agent(AgentStoreError::NotFound(AgentId(1))), 400, "unknown agent_id"),
        (
            HttpError::Agent(AgentStoreError::NameNotFound(s("n"))),
            404,
            "agent: agent `n` not found",
        ),
        (
            HttpError::Agent(AgentStoreError::DefaultDeletionForbidden),
            409,
            "agent: the default agent cannot be deleted",
        ),
        (
            HttpError::Agent(AgentStoreError::InUse(AgentId(1))),
            409,
            "agent: agent 00000000-0000-0000-0000-000000000001 is in use",
        ),
        (
            HttpError::Agent(AgentStoreError::NameTaken(s("n"))),
            409,
            "agent: agent name `n` already in use",
        ),
        (
            HttpError::Agent(AgentStoreError::Parse(empty())),
            400,
            "agent: parse: x must not be empty",
        ),
        (HttpError::Agent(AgentStoreError::NoDefault), 500, "default agent not seeded"),
        (HttpError::Agent(AgentStoreError::Backend(s("b"))), 500, "agent store error"),
        (
            HttpError::Prompt(PromptError::PendingCapExceeded { max: 7 }),
            429,
            "prompt pipeline: pending cap reached (max 7)",
        ),
        (HttpError::Prompt(PromptError::RequestNotFound(PromptRequestId(1))), 404, "not found"),
        (HttpError::Prompt(PromptError::SessionNotFound(SessionId(1))), 404, "not found"),
        (HttpError::Prompt(PromptError::Backend(s("b"))), 400, "prompt queue: b"),
        (
            HttpError::Response(ResponseError::NotFound(PromptRequestId(1))),
            404,
            "stream not found",
        ),
        (HttpError::Response(ResponseError::Backend(s("b"))), 502, "response backend: b"),
        (
            HttpError::Mcp(McpError::ServerCapExceeded { max: 3 }),
            429,
            "mcp: server cap reached (max 3)",
        ),
        (
            HttpError::Mcp(McpError::AliasTaken(s("a"))),
            409,
            "mcp: mcp server alias `a` already in use",
        ),
        (HttpError::Mcp(McpError::NotFound(McpServerId(1))), 404, "mcp server not found"),
        (HttpError::Mcp(McpError::Parse(empty())), 400, "mcp: parse: x must not be empty"),
        (HttpError::Mcp(McpError::InvalidConfig(s("c"))), 400, "mcp: config rejected: c"),
        (HttpError::Mcp(McpError::Db(DbFault::DuplicateKey)), 500, "mcp store error"),
        (HttpError::Mcp(McpError::CallTimeout), 500, "mcp store error"),
        (HttpError::Auth(AuthError::Parse(empty())), 400, "x must not be empty"),
        (HttpError::Auth(AuthError::Unauthenticated), 401, "unauthorized"),
        (HttpError::Auth(AuthError::Jwt(s("j"))), 401, "unauthorized"),
        (HttpError::Auth(AuthError::OAuthStateInvalid), 401, "unauthorized"),
        (HttpError::Auth(AuthError::EmailUnverified), 403, "email not verified by provider"),
        (
            HttpError::Auth(AuthError::NotMember(OrgId(1))),
            403,
            "auth: not a member of org 00000000-0000-0000-0000-000000000001",
        ),
        (HttpError::Auth(AuthError::OAuthProvider(s("p"))), 502, "oauth provider unavailable"),
        (HttpError::Auth(AuthError::Db(DbFault::Driver(s("d")))), 500, "auth error"),
        (HttpError::Internal, 500, "internal error"),
    ];
    for (error, status, answer) in cases {
        let r = error.into_response();
        assert_eq!((r.status, r.error.as_str()), (status, answer));
    }
}

#[test]
fn a_request_comes_from_a_member() {
    assert_eq!(session_token(Some("t")).expect("there"), "t");
    assert!(matches!(session_token(None), Err(HttpError::Auth(AuthError::Unauthenticated))));
    let claims = || Claims { sub: UserId(1), org: OrgId(2) };
    assert_eq!(verified_claims(Ok(claims())).expect("valid").sub, UserId(1));
    assert!(matches!(
        verified_claims(Err(AuthError::Jwt("expired".to_owned()))),
        Err(HttpError::Auth(AuthError::Unauthenticated))
    ));
    let p = require_principal(claims(), Some(Role::Admin)).expect("a member");
    assert_eq!((p.user_id, p.active_org_id, p.role), (UserId(1), OrgId(2), Role::Admin));
    let turned_away = require_principal(claims(), None).expect_err("no member");
    assert!(matches!(turned_away, HttpError::Auth(AuthError::Unauthenticated)));
    assert_eq!(turned_away.into_response().status, 401);
    assert!(extract_principal(Some(p)).is_ok());
    assert!(extract_principal(None).is_err());
    assert_eq!(MissingPrincipal.into_response().0, 500);
}

#[test]
fn cookies_are_for_the_whole_site() {
    let c = build_session_cookie("t".to_owned(), true, 60);
    assert_eq!((c.name.as_str(), c.value.as_str(), c.path.as_str()), ("relay_session", "t", "/"));
    assert!(c.http_only && c.secure && c.same_site == SameSite::Lax && c.max_age_secs == 60);
    let c = build_csrf_cookie("u".to_owned(), false, 60);
    assert_eq!((c.name.as_str(), c.value.as_str()), ("relay_csrf", "u"));
    assert!(!c.http_only && !c.secure);
    let gone = build_expired_session_cookie(true);
    assert_eq!((gone.value.as_str(), gone.max_age_secs), ("", 0));
    let gone = build_expired_csrf_cookie(true);
    assert_eq!((gone.name.as_str(), gone.value.as_str(), gone.max_age_secs), ("relay_csrf", "", 0));
}

#[test]
fn a_login_returns_to_a_path_only() {
    assert_eq!(sanitize_return_to("/a?b"), Some("/a?b".to_owned()));
    assert_eq!(sanitize_return_to("//evil.example"), None);
    assert_eq!(sanitize_return_to("https://evil.example"), None);
    assert_eq!(sanitize_return_to(""), None);
    let long = format!("/{}", "a".repeat(2047));
    assert!(sanitize_return_to(&long).is_some());
    assert!(sanitize_return_to(&format!("{long}a")).is_none());
    let row = login(Some("//x"), "s".to_owned(), "v".to_owned(), at(100));
    assert_eq!(row.redirect_to, None);
    assert_eq!((row.created_at, row.expires_at), (at(100), at(700)));
    let row = login(Some("/x"), "s".to_owned(), "v".to_owned(), at(100));
    assert_eq!(row.redirect_to.as_deref(), Some("/x"));
}

fn query(state: &str, error: Option<&str>) -> CallbackQuery {
    CallbackQuery {
        code: "c0de".to_owned(),
        state: state.to_owned(),
        error: error.map(|e| e.to_owned()),
    }
}

fn user(display: Option<&str>) -> User {
    User {
        id: UserId(1),
        email: EmailAddress::try_from("ann@corp.example").expect("valid"),
        display_name: display.map(|d| d.to_owned()),
        avatar_url: None,
    }
}

fn membership() -> OrgMembership {
    OrgMembership {
        org_id: OrgId(5),
        org_name: "Corp".to_owned(),
        org_slug: OrgSlug::try_from("corp").expect("valid"),
        role: Role::Owner,
        default_language: Language::English,
    }
}

#[test]
fn a_callback_must_make_sense() {
    assert!(matches!(
        callback(query("s", Some("access_denied"))),
        Err(HttpError::BadRequest(t)) if t == "oauth: access_denied"
    ));
    assert!(matches!(callback(query("", None)), Err(HttpError::Parse(_))));
}

#[test]
fn a_callback_logs_a_member_in() {
    let (mut run, first) = callback(query("s", None)).expect("sensible");
    assert!(matches!(first, CallbackAction::ConsumeState { state } if state.as_str() == "s"));
    let next = run.advance(CallbackReply::Consumed {
        pkce_verifier: "v".to_owned(),
        redirect_to: Some("/back".to_owned()),
    });
    assert!(matches!(
        next,
        CallbackAction::Exchange { code, pkce_verifier } if code == "c0de" && pkce_verifier == "v"
    ));
    assert!(matches!(run.advance(CallbackReply::Exchanged), CallbackAction::UpsertUser));
    let next = run.advance(CallbackReply::Upserted { user: user(None) });
    assert!(matches!(next, CallbackAction::ListOrgs { user: UserId(1) }));
    let next = run.advance(CallbackReply::Orgs { orgs: vec![membership()] });
    assert!(matches!(next, CallbackAction::MintToken { user: UserId(1), org: OrgId(5) }));
    let reply = CallbackReply::Minted { token: "jwt".to_owned(), secure: true, ttl_secs: 60 };
    match run.advance(reply) {
        CallbackAction::Finish { session, csrf, location } => {
            assert_eq!(session.value, "jwt");
            assert_eq!(location, "/back");
            assert_eq!(csrf.name, "relay_csrf");
            assert_eq!(csrf.max_age_secs, 60);
            assert!(!csrf.value.is_empty());
        }
        other => panic!("expected the end, got {other:?}"),
    }
}

#[test]
fn a_user_without_an_organisation_gets_one() {
    for (display, name) in [(None, "ann@corp.example"), (Some("Ann"), "Ann")] {
        let (mut run, _) = callback(query("s", None)).expect("sensible");
        run.advance(CallbackReply::Consumed { pkce_verifier: "v".to_owned(), redirect_to: None });
        run.advance(CallbackReply::Exchanged);
        run.advance(CallbackReply::Upserted { user: user(display) });
        match run.advance(CallbackReply::Orgs { orgs: vec![] }) {
            CallbackAction::CreatePersonalOrg { user, slug_seed, display } => {
                assert_eq!((user, slug_seed.as_str(), display.as_str()), (UserId(1), "ann", name));
            }
            other => panic!("expected a new organisation, got {other:?}"),
        }
        let next = run.advance(CallbackReply::OrgCreated { org: OrgId(8) });
        assert!(matches!(next, CallbackAction::SeedDefaultAgent { org: OrgId(8) }));
        let next = run.advance(CallbackReply::Seeded);
        assert!(matches!(next, CallbackAction::MintToken { user: UserId(1), org: OrgId(8) }));
        let reply = CallbackReply::Minted { token: "jwt".to_owned(), secure: false, ttl_secs: 1 };
        assert!(matches!(
            run.advance(reply),
            CallbackAction::Finish { location, .. } if location == "/"
        ));
    }
}

#[test]
fn a_browser_keeps_a_token_that_can_be_taken() {
    let p = principal(Role::Member);
    let orgs = vec![membership()];
    let (body, cookie) = me(p, Some(user(Some("Ann"))), &orgs, None, true, 60).expect("known");
    assert_eq!(body.user.email, "ann@corp.example");
    assert_eq!(body.orgs[0].slug, "corp");
    assert_eq!((body.active_org_id, body.role), (OrgId(2), Role::Member));
    let minted = cookie.expect("a new one").value;
    let p = principal(Role::Member);
    let (_, cookie) = me(p, Some(user(None)), &orgs, Some(&minted), true, 60).expect("known");
    assert!(cookie.is_none());
    let p = principal(Role::Member);
    let (_, cookie) = me(p, Some(user(None)), &orgs, Some(""), true, 60).expect("known");
    assert!(cookie.is_some());
    assert!(matches!(
        me(principal(Role::Member), None, &orgs, None, true, 60),
        Err(HttpError::Auth(AuthError::Unauthenticated))
    ));
}

#[test]
fn sessions_end_and_change_with_both_cookies() {
    let (session, csrf) = logout(true);
    assert_eq!((session.max_age_secs, csrf.max_age_secs), (0, 0));
    assert_eq!(switch_role(OrgId(1), Some(Role::Admin)).expect("a member"), Role::Admin);
    assert!(matches!(
        switch_role(OrgId(1), None),
        Err(HttpError::Auth(AuthError::NotMember(OrgId(1))))
    ));
    let (session, csrf) = switch_org("jwt".to_owned(), true, 60);
    let (_, other) = switch_org("jwt".to_owned(), true, 60);
    assert_eq!(session.value, "jwt");
    assert_ne!(csrf.value, other.value);
    assert!(set_org_language(principal(Role::Owner)).is_ok());
    assert!(set_org_language(principal(Role::Admin)).is_ok());
    assert!(matches!(
        set_org_language(principal(Role::Member)),
        Err(HttpError::Forbidden("owner or admin role required"))
    ));
}

fn transport() -> McpTransport {
    McpTransport::Http { url: McpHttpUrl::try_from("https://one.example").expect("valid") }
}

fn new_server(alias: &str, description: Option<String>) -> CreateMcpServerRequest {
    CreateMcpServerRequest {
        alias: alias.to_owned(),
        config: transport(),
        description,
        enabled: None,
    }
}

#[test]
fn a_server_is_registered_for_the_active_organisation() {
    let new = create_mcp_server(principal(Role::Member), new_server("one", Some("d".to_owned())))
        .expect("sensible");
    assert_eq!((new.org_id, new.created_by_user_id), (OrgId(2), UserId(1)));
    assert_eq!(new.alias.as_str(), "one");
    assert!(new.enabled);
    for bad in [new_server("NO", None), new_server("one", Some("d".repeat(513)))] {
        let r = create_mcp_server(principal(Role::Member), bad);
        assert!(matches!(r, Err(HttpError::Parse(_))));
    }
}

#[test]
fn a_change_of_a_server_is_read() {
    let change = update_mcp_server(UpdateMcpServerRequest {
        alias: Some("two".to_owned()),
        config: None,
        description: Some(None),
        enabled: Some(false),
    })
    .expect("sensible");
    assert_eq!(change.alias.expect("named").as_str(), "two");
    assert!(matches!(change.description, Some(None)));
    assert!(change.config.is_none() && change.enabled == Some(false));
    let bad = |alias: Option<&str>, d: Option<String>| {
        update_mcp_server(UpdateMcpServerRequest {
            alias: alias.map(|a| a.to_owned()),
            config: None,
            description: Some(d),
            enabled: None,
        })
    };
    assert!(matches!(bad(Some("NO"), None), Err(HttpError::Parse(_))));
    assert!(matches!(bad(None, Some("d".repeat(513))), Err(HttpError::Parse(_))));
}

fn server_row() -> McpServerRow {
    McpServerRow {
        id: McpServerId(1),
        org_id: OrgId(2),
        alias: "one".to_owned(),
        enabled: true,
        config: Ok(McpTransportInput::Http { url: "https://one.example".to_owned() }),
        description: Some("d".to_owned()),
        last_seen_at: None,
        last_error: Some("e".to_owned()),
        discovered_tools: Ok(None),
        created_by_user_id: UserId(3),
        connection_status: ConnectionStatus::Healthy,
        created_at: at(1),
        updated_at: at(2),
    }
}

#[test]
fn a_row_of_a_server_is_shown() {
    let v = try_into_response(server_row()).expect("readable");
    assert_eq!((v.id, v.alias.as_str(), v.enabled), (McpServerId(1), "one", true));
    assert_eq!(v.description.as_deref(), Some("d"));
    assert_eq!(v.config, transport());
    let rec = server_row().into_record().expect("readable");
    assert_eq!(server_response(rec).created_by_user_id, UserId(3));
    let mut row = server_row();
    row.alias = "NO".to_owned();
    assert!(matches!(try_into_response(row), Err(HttpError::Parse(_))));
    let mut row = server_row();
    row.config = Err("torn".to_owned());
    assert!(matches!(try_into_response(row), Err(HttpError::Internal)));
    let mut row = server_row();
    row.description = Some("d".repeat(513));
    assert!(matches!(try_into_response(row), Err(HttpError::Parse(_))));
    let mut row = server_row();
    row.discovered_tools = Err("torn".to_owned());
    assert!(matches!(try_into_response(row), Err(HttpError::Internal)));
}

#[test]
fn what_is_out_of_sight_is_not_there() {
    assert!(require_visible(true).is_ok());
    assert!(matches!(require_visible(false), Err(HttpError::NotFound)));
}

#[test]
fn shown_errors_are_cut_at_a_character() {
    let e = McpError::Connect("short".to_owned());
    assert_eq!(redact_error(&e), "connect to mcp server failed: short");
    let cut = redact_error(&McpError::Connect("\u{e9}".repeat(400)));
    assert_eq!(
        cut,
        format!("connect to mcp server failed: {}\u{2026}", "\u{e9}".repeat(241))
    );
    assert_eq!(cut.len(), 515);
}

#[test]
fn a_connection_test_always_answers() {
    let e = || McpError::Connect("refused".to_owned());
    for reply in [TestConnectReply::ConnectFailed(e()), TestConnectReply::ListFailed(e())] {
        match test_connect_mcp_server(reply) {
            TestConnectResponse::Failed { error } => {
                assert_eq!(error, "connect to mcp server failed: refused")
            }
            other => panic!("expected a failure, got {other:?}"),
        }
    }
    let tools = vec![RemoteTool {
        name: "a tool".to_owned(),
        description: Some("d".to_owned()),
        input_schema: "{}".to_owned(),
    }];
    match test_connect_mcp_server(TestConnectReply::Listed(tools)) {
        TestConnectResponse::Passed { discovered_tools } => {
            assert_eq!(discovered_tools[0].prefixed_name, "mcp_test_a tool");
            assert_eq!(discovered_tools[0].remote_name, "a tool");
        }
        other => panic!("expected tools, got {other:?}"),
    }
}

#[test]
fn connection_tests_are_limited() {
    let mut limiter = TestConnectRateLimiter::new();
    let mut passed = 0;
    loop {
        match admit_test_connect(&mut limiter, UserId(1), 0) {
            Ok(()) => passed += 1,
            Err(e) => {
                assert_eq!(e.into_response().status, 429);
                break;
            }
        }
    }
    assert_eq!(passed, relay::mcp::limits::MCP_TEST_CONNECT_PER_MIN);
    assert!(admit_test_connect(&mut limiter, UserId(2), 0).is_ok());
}

fn memory(content: &str) -> MemoryRow {
    MemoryRow {
        id: MemoryId(1),
        agent_id: AgentId(2),
        org_id: OrgId(3),
        kind: MemoryKind::Procedure,
        content: MemoryContent::try_from(content).expect("valid"),
        state: MemoryState::Held,
        pinned: true,
        source_turn_id: None,
        created_at: at(1),
        last_validated_at: at(2),
        last_accessed_at: at(3),
        access_count: 4,
    }
}

fn note(content: &str, state: Option<MemoryState>) -> CreateNoteRequest {
    CreateNoteRequest {
        kind: MemoryKind::Procedure,
        content: content.to_owned(),
        state,
        pinned: false,
    }
}

#[test]
fn memories_are_shown() {
    let v = list_memory(&vec![memory("a"), memory("b")]);
    assert_eq!((v[0].content.as_str(), v[1].content.as_str()), ("a", "b"));
    assert_eq!((v[0].kind.as_str(), v[0].state.as_str()), ("procedure", "held"));
    assert_eq!((v[0].pinned, v[0].access_count, v[0].last_accessed_at), (true, 4, at(3)));
    assert_eq!(note_response(Some(memory("a"))).expect("written").content, "a");
    assert!(matches!(
        note_response(None),
        Err(HttpError::BadRequest(s)) if s == "write returned no row"
    ));
    assert!(matches!(revert_event(Some(memory("a"))), RevertResponse::Row(v) if v.content == "a"));
    assert!(matches!(revert_event(None), RevertResponse::Removed { removed: true }));
    let e = MemoryStoreError::NotFound { id: MemoryId(1) };
    let text = e.message();
    assert!(matches!(store_error(&e), HttpError::BadRequest(s) if s == text));
}

#[test]
fn a_note_is_held_unless_it_is_said() {
    let (m, vouched) = create_memory_note(AgentId(2), note("n", None)).expect("sensible");
    assert!(!vouched);
    assert!(matches!(
        m,
        MemoryMutation::Write {
            agent: AgentId(2),
            state: MemoryState::Held,
            pinned: false,
            source: MutationSource::Operator,
            ..
        }
    ));
    for (state, expected) in [
        (MemoryState::Tentative, false),
        (MemoryState::Held, false),
        (MemoryState::Validated, true),
        (MemoryState::Core, true),
    ] {
        let (_, vouched) = create_memory_note(AgentId(2), note("n", Some(state))).expect("fine");
        assert_eq!(vouched, expected);
    }
    assert!(matches!(create_memory_note(AgentId(2), note("", None)), Err(HttpError::Parse(_))));
}

fn event(id: u128, source: MutationSource, payload: MemoryEventPayload) -> MemoryEvent {
    MemoryEvent {
        id: MemoryEventId(id),
        agent_id: AgentId(2),
        org_id: OrgId(3),
        target_memory_id: MemoryId(1),
        source,
        created_at: at(1),
        payload,
    }
}

#[test]
fn events_are_shown_by_source_and_kind() {
    let c = |s: &str| MemoryContent::try_from(s).expect("valid");
    let write = MemoryEventPayload::Write {
        content: c("w"),
        kind: MemoryKind::Procedure,
        state: MemoryState::Held,
        pinned: false,
    };
    let update = MemoryEventPayload::Update {
        before: c("b"),
        after: c("a"),
        kind: MemoryKind::Procedure,
        state: MemoryState::Held,
        pinned: false,
    };
    let forget = MemoryEventPayload::Forget { before: c("f") };
    let turn = MutationSource::Turn(PromptRequestId(9));
    let events = vec![
        event(1, MutationSource::Operator, write),
        event(2, turn, update),
        event(3, MutationSource::Operator, forget),
    ];
    let shown: Vec<_> = events.iter().map(event_response).collect();
    assert_eq!((shown[0].content_before.as_deref(), shown[0].content_after.as_deref()), (None, Some("w")));
    assert_eq!((shown[1].content_before.as_deref(), shown[1].content_after.as_deref()), (Some("b"), Some("a")));
    assert_eq!((shown[2].content_before.as_deref(), shown[2].content_after.as_deref()), (Some("f"), None));
    assert_eq!((shown[1].mutation.as_str(), shown[1].source.as_str()), ("update", "turn"));
    assert_eq!((shown[1].source_turn_id, shown[0].source_turn_id), (Some(PromptRequestId(9)), None));
    let ids = |source, mutation| -> Vec<u128> {
        list_events(ListEventsQuery { source, mutation }, &events).iter().map(|v| v.id.0).collect()
    };
    assert_eq!(ids(None, None), vec![1, 2, 3]);
    assert_eq!(ids(Some(MutationSourceKind::Operator), None), vec![1, 3]);
    assert_eq!(ids(Some(MutationSourceKind::Operator), Some(MutationKind::Forget)), vec![3]);
    assert_eq!(ids(Some(MutationSourceKind::Librarian), None), Vec::<u128>::new());
}

fn submission(session: Option<u128>, agent: Option<u128>) -> SubmitPromptRequest {
    SubmitPromptRequest {
        session_id: session.map(SessionId),
        agent_id: agent.map(AgentId),
        content: "hello".to_owned(),
        idempotency_key: "k".to_owned(),
    }
}

#[test]
fn a_prompt_finds_its_agent() {
    let source = |s, a| submit_prompt(submission(s, a)).expect("sensible").receiver;
    assert_eq!(source(None, None), ReceiverSource::Default);
    assert_eq!(source(None, Some(2)), ReceiverSource::Named(AgentId(2)));
    assert_eq!(source(Some(1), Some(2)), ReceiverSource::Session(SessionId(1)));
    assert_eq!(source(Some(1), Some(3)), ReceiverSource::Session(SessionId(1)));
    let agent = |id| Participant::Agent { agent_id: AgentId(id) };
    assert_eq!(session_agent_participant(agent(1), agent(2)).expect("one"), AgentId(1));
    assert_eq!(session_agent_participant(Participant::Human, agent(2)).expect("one"), AgentId(2));
    assert!(matches!(
        session_agent_participant(Participant::Human, Participant::Human),
        Err(HttpError::Internal)
    ));
}

#[test]
fn a_prompt_is_read_and_queued() {
    let mut bad = submission(None, None);
    bad.content = String::new();
    assert!(matches!(submit_prompt(bad), Err(HttpError::BadRequest(_))));
    let mut bad = submission(None, None);
    bad.idempotency_key = "k".repeat(129);
    assert!(matches!(submit_prompt(bad), Err(HttpError::BadRequest(_))));
    let pending = submit_prompt(submission(Some(1), None)).expect("sensible");
    let request = prompt_request(pending, AgentId(4));
    assert_eq!((request.session, request.receiver_agent_id), (Some(SessionId(1)), AgentId(4)));
    assert_eq!(request.content.as_str(), "hello");
    assert!(matches!(request.sender, Participant::Human));
    assert!(matches!(request.kind_payload, RequestKindPayload::Normal));
    assert!(request.parent_session.is_none());
}

#[test]
fn a_prompt_that_was_there_is_answered_with_ok() {
    let (request_id, session) = (PromptRequestId(1), SessionId(2));
    let status = RequestStatus::Pending;
    let (code, body) = submit_response(&EnqueueOutcome::Inserted { request_id, session, status });
    assert_eq!((code, body.request_id, body.session_id), (202, request_id, session));
    let status = RequestStatus::Completed;
    let (code, body) = submit_response(&EnqueueOutcome::Existing { request_id, session, status });
    assert_eq!((code, body.status), (200, RequestStatus::Completed));
}

#[test]
fn pages_are_bounded() {
    assert_eq!((list_limit(None), list_limit(Some(0)), list_limit(Some(7))), (50, 1, 7));
    assert_eq!(list_limit(Some(u32::MAX)), 200);
    assert_eq!((history_limit(None), history_limit(Some(0))), (200, 1));
    assert_eq!(history_limit(Some(5_000)), 1_000);
    assert_eq!(history_cursor(Some(at(1)), Some(4)).expect("whole"), (Some(at(1)), 4));
    assert_eq!(history_cursor(None, None).expect("none"), (None, 0));
    for (ts, seq) in [(Some(at(1)), None), (None, Some(4))] {
        assert!(matches!(history_cursor(ts, seq), Err(HttpError::BadRequest(_))));
    }
}

#[test]
fn rows_of_conversations_are_shown() {
    let s = thread_row_to_summary((
        PromptRequestId(1),
        SessionId(2),
        AgentId(3),
        "ann".to_owned(),
        "hello".to_owned(),
        4,
        at(5),
        RequestStatus::Processing,
        at(6),
    ));
    assert_eq!((s.root_request_id, s.root_session_id), (PromptRequestId(1), SessionId(2)));
    assert_eq!((s.first_agent.id, s.first_agent.name.as_str()), (AgentId(3), "ann"));
    assert_eq!((s.preview.as_str(), s.reply_count), ("hello", 4));
    let row = HistoryRow {
        session_id: SessionId(2),
        seq: 7,
        sender_kind: MessageSenderKind::Agent,
        sender_agent_id: Some(AgentId(3)),
        receiver_kind: ParticipantKind::Human,
        receiver_agent_id: None,
        body: "{}".to_owned(),
        created_at: at(1),
        request_id: PromptRequestId(1),
    };
    assert!(row.is_well_shaped());
    let m = history_row_to_message(row);
    assert!(matches!(m.sender, MessageSender::Agent { agent_id: AgentId(3) }));
    assert!(matches!(m.receiver, Participant::Human));
    assert_eq!(m.seq, 7);
}

fn item(kind: &str, terminal: bool) -> Result<ThreadStreamEvent, ResponseError> {
    Ok(ThreadStreamEvent::Item {
        request_id: PromptRequestId(1),
        from_agent: AgentId(2),
        chunk_seq: 3,
        chunk: PublishedChunk { kind: kind.to_owned(), terminal, json: "{}".to_owned() },
    })
}

#[test]
fn a_stream_ends_with_its_last_chunk() {
    let mut stream = ThreadStreamState::stream_thread();
    let first = stream.next(item("text", false)).expect("open");
    assert_eq!((first.cursor, first.kind.as_str(), first.chunk_seq), (0, "text", Some(3)));
    assert_eq!((first.request_id, first.from_agent), (Some(PromptRequestId(1)), Some(AgentId(2))));
    let lost = stream.next(Ok(ThreadStreamEvent::Stalled)).expect("open");
    assert_eq!((lost.cursor, lost.kind.as_str(), lost.request_id), (1, "stalled", None));
    let failed = stream.next(Err(ResponseError::Backend("b".to_owned()))).expect("open");
    assert_eq!((failed.cursor, failed.kind.as_str()), (2, "error"));
    assert!(matches!(
        failed.chunk,
        FrameChunk::Error { reason } if reason == "response backend: b"
    ));
    let last = stream.next(item("done", true)).expect("still sent");
    assert_eq!((last.cursor, last.kind.as_str()), (3, "done"));
    assert!(stream.next(item("late", false)).is_none());
    assert!(stream.next(Ok(ThreadStreamEvent::Stalled)).is_none());
}

fn new_agent(name: &str, servers: usize) -> CreateAgentRequest {
    CreateAgentRequest {
        name: name.to_owned(),
        system_prompt: "be kind".to_owned(),
        description: "d".to_owned(),
        is_default: true,
        allowed_mcp_servers: (0..servers).map(|i| McpServerId(i as u128)).collect(),
    }
}

#[test]
fn agents_are_created_and_changed() {
    let new = create_agent(new_agent("ann", 2)).expect("sensible");
    assert_eq!((new.name.as_str(), new.is_default), ("ann", true));
    assert_eq!(new.allowed_mcp_servers.into_inner(), vec![McpServerId(0), McpServerId(1)]);
    assert!(matches!(create_agent(new_agent("", 0)), Err(HttpError::Parse(_))));
    assert_eq!(
        create_agent(new_agent("ann", 33)).expect_err("too many").message(),
        "parse: allowed_mcp_servers is too long: 33 bytes, at most 32"
    );
    let change = |name: Option<&str>, servers: Option<Vec<McpServerId>>| {
        update_agent(UpdateAgentRequest {
            name: name.map(|n| n.to_owned()),
            system_prompt: None,
            description: None,
            is_default: None,
            allowed_mcp_servers: servers,
        })
    };
    let c = change(Some("bob"), Some(vec![])).expect("sensible");
    assert_eq!(c.name.expect("named").as_str(), "bob");
    assert_eq!(c.allowed_mcp_servers.expect("named").into_inner(), vec![]);
    assert!(c.system_prompt.is_none() && c.is_default.is_none());
    assert!(matches!(change(Some(""), None), Err(HttpError::Parse(_))));
}

#[test]
fn an_agent_is_shown() {
    let v = agent_response(AgentRecord {
        id: AgentId(1),
        name: AgentName::try_from("ann").expect("valid"),
        system_prompt: AgentSystemPrompt::try_from("p").expect("valid"),
        description: AgentDescription::try_from("d").expect("valid"),
        is_default: false,
        allowed_mcp_servers: AllowedMcpServers::try_from(vec![McpServerId(4)]).expect("valid"),
        created_at: at(1),
        updated_at: at(2),
    });
    assert_eq!((v.id, v.name.as_str(), v.system_prompt.as_str()), (AgentId(1), "ann", "p"));
    assert_eq!((v.allowed_mcp_servers, v.created_at, v.updated_at), (vec![McpServerId(4)], at(1), at(2)));
}
