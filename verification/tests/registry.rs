use relay::db::DbFault;
use relay::ids::{McpServerId, OrgId, UserId};
use relay::mcp::credentials::{CredentialPayload, McpHeaders};
use relay::mcp::error::McpError;
use relay::mcp::limits::{MAX_MCP_SERVERS, MAX_TOOLS_PER_SERVER};
use relay::mcp::registry::{McpRegistry, RefreshAction, RefreshReply, RemoteTool};
use relay::mcp::store::{
    apply_health, decode_rows, map_unique_violation, plan_create, plan_update, read_server,
    settle_touch, settle_write, DriverFault, McpHealthUpdate, McpServerCreate, McpServerRow,
    McpServerUpdate,
};
use relay::mcp::types::{
    ConnectionStatus, DiscoveredTool, McpDescription, McpHttpUrl, McpServerAlias, McpServerRecord,
    McpTransport, McpTransportInput,
};
use relay::time::Timestamp;

fn at(secs: i64) -> Timestamp {
    Timestamp::from_secs(secs).expect("in the calendar")
}

fn alias(s: &str) -> McpServerAlias {
    McpServerAlias::try_from(s).expect("valid")
}

fn transport(url: &str) -> McpTransport {
    McpTransport::Http { url: McpHttpUrl::try_from(url).expect("valid") }
}

fn server(name: &str, url: &str) -> McpServerRecord {
    McpServerRecord {
        id: McpServerId::new(),
        org_id: OrgId::new(),
        alias: alias(name),
        enabled: true,
        config: transport(url),
        description: None,
        last_seen_at: None,
        last_error: None,
        discovered_tools: None,
        created_by_user_id: UserId::new(),
        connection_status: ConnectionStatus::Healthy,
        created_at: at(0),
        updated_at: at(0),
    }
}

fn copy(r: &McpServerRecord) -> McpServerRecord {
    McpServerRecord {
        id: r.id,
        org_id: r.org_id,
        alias: r.alias.clone(),
        enabled: r.enabled,
        config: r.config.clone(),
        description: r.description.clone(),
        last_seen_at: r.last_seen_at,
        last_error: r.last_error.clone(),
        discovered_tools: None,
        created_by_user_id: r.created_by_user_id,
        connection_status: r.connection_status,
        created_at: r.created_at,
        updated_at: r.updated_at,
    }
}

fn tool(name: &str) -> RemoteTool {
    RemoteTool { name: name.to_owned(), description: None, input_schema: "{}".to_owned() }
}

fn next(run: &mut relay::mcp::registry::RefreshRun, reply: RefreshReply) -> RefreshAction {
    run.advance(reply)
}

#[test]
fn a_refresh_collects_the_tools_of_every_server_by_name() {
    let one = server("one", "https://one.example/");
    let two = server("two", "https://two.example/");
    let (id1, id2) = (one.id, two.id);
    let mut registry = McpRegistry::new();
    let mut run = registry.refresh(vec![two, one]);
    assert!(matches!(next(&mut run, RefreshReply::Proceed), RefreshAction::Connect { id, .. } if id == id2));
    assert!(matches!(
        next(&mut run, RefreshReply::Connected(Ok(()))),
        RefreshAction::ListTools { id } if id == id2
    ));
    match next(&mut run, RefreshReply::Listed(Ok(vec![tool("b"), tool("a")]), at(5))) {
        RefreshAction::Record { id, health, .. } => {
            assert_eq!(id, id2);
            assert_eq!(health.last_seen_at, Some(at(5)));
            assert_eq!(health.last_error, None);
            let found = health.discovered_tools.expect("listed");
            assert_eq!(found[0].prefixed_name, "mcp_two_b");
            assert_eq!(found[1].remote_name, "a");
        }
        other => panic!("expected a record, got {other:?}"),
    }
    assert!(matches!(next(&mut run, RefreshReply::Proceed), RefreshAction::Connect { id, .. } if id == id1));
    next(&mut run, RefreshReply::Connected(Ok(())));
    next(&mut run, RefreshReply::Listed(Ok(vec![tool("z")]), at(6)));
    assert!(matches!(next(&mut run, RefreshReply::Proceed), RefreshAction::Finish));
    registry.install(run);
    let names: Vec<String> =
        registry.specs().iter().map(|s| s.name.as_str().to_owned()).collect();
    assert_eq!(names, vec!["mcp_one_z", "mcp_two_a", "mcp_two_b"]);
    assert_eq!(registry.specs()[0].description, "(no description provided)");
    assert_eq!(registry.len(), 3);
    assert!(!registry.is_empty());
    assert!(registry.holds(id1) && registry.holds(id2));
    let (t, origin) = registry.lookup("mcp_two_a").expect("there");
    assert_eq!((t.remote_name(), origin.server, origin.remote_name.as_str()), ("a", id2, "a"));
    assert!(registry.get("mcp_two_c").is_none());
    let snapshot = registry.snapshot();
    assert_eq!(snapshot.tool_origins[0].server, id1);
}

#[test]
fn a_server_that_fails_does_not_hold_up_the_others() {
    let (a, b, c, d) = (
        server("a", "https://a.example/"),
        server("b", "https://b.example/"),
        server("c", "https://c.example/"),
        server("d", "https://d.example/"),
    );
    let mut registry = McpRegistry::with_credentials(true);
    let mut run = registry.refresh(vec![a, b, c, d]);
    let mut texts = Vec::new();
    let mut note = |action: RefreshAction| match action {
        RefreshAction::Record { health, .. } => texts.push(health.last_error),
        other => panic!("expected a record, got {other:?}"),
    };
    assert!(matches!(run.advance(RefreshReply::Proceed), RefreshAction::LoadCredentials { .. }));
    note(run.advance(RefreshReply::Credentials(Err(McpError::Backend("torn".to_owned())))));
    run.advance(RefreshReply::Proceed);
    assert!(matches!(
        run.advance(RefreshReply::Credentials(Ok(None))),
        RefreshAction::Connect { credentials: None, .. }
    ));
    note(run.advance(RefreshReply::Connected(Err(McpError::Connect("refused".to_owned())))));
    run.advance(RefreshReply::Proceed);
    run.advance(RefreshReply::Credentials(Ok(None)));
    run.advance(RefreshReply::Connected(Ok(())));
    note(run.advance(RefreshReply::Listed(Err(McpError::ListTools("late".to_owned())), at(1))));
    run.advance(RefreshReply::Proceed);
    run.advance(RefreshReply::Credentials(Ok(None)));
    run.advance(RefreshReply::Connected(Ok(())));
    note(run.advance(RefreshReply::Listed(Ok(vec![tool("works")]), at(1))));
    assert!(matches!(run.advance(RefreshReply::Proceed), RefreshAction::Finish));
    registry.install(run);
    assert_eq!(
        texts,
        vec![
            Some("credentials: mcp store backend error: torn".to_owned()),
            Some("connect: connect to mcp server failed: refused".to_owned()),
            Some("list_tools: list_tools on mcp server failed: late".to_owned()),
            None,
        ]
    );
    assert_eq!(registry.len(), 1);
}

#[test]
fn a_connection_is_kept_for_the_same_transport_without_credentials() {
    let one = server("one", "https://one.example/");
    let id = one.id;
    let mut registry = McpRegistry::with_credentials(true);
    let refresh = |registry: &mut McpRegistry, row: McpServerRecord, creds| {
        let mut run = registry.refresh(vec![row]);
        run.advance(RefreshReply::Proceed);
        let action = run.advance(RefreshReply::Credentials(Ok(creds)));
        let connects = matches!(action, RefreshAction::Connect { .. });
        if connects {
            run.advance(RefreshReply::Connected(Ok(())));
        }
        run.advance(RefreshReply::Listed(Ok(vec![]), at(1)));
        run.advance(RefreshReply::Proceed);
        registry.install(run);
        connects
    };
    assert!(refresh(&mut registry, copy(&one), None));
    assert!(!refresh(&mut registry, copy(&one), None));
    let secret = CredentialPayload::StaticHeaders { headers: McpHeaders::new() };
    assert!(refresh(&mut registry, copy(&one), Some(secret)));
    let mut moved = copy(&one);
    moved.config = transport("https://moved.example/");
    assert!(refresh(&mut registry, moved, None));
    assert!(registry.holds(id));
}

#[test]
fn names_that_collide_or_make_no_tool_name_are_left_out() {
    let one = server("one", "https://one.example/");
    let same = server("one", "https://other.example/");
    let mut registry = McpRegistry::new();
    let mut run = registry.refresh(vec![one, same]);
    run.advance(RefreshReply::Proceed);
    run.advance(RefreshReply::Connected(Ok(())));
    let long = "x".repeat(60);
    let listed = vec![tool("a"), tool("a"), tool("not a name"), tool(&long), tool("b")];
    match run.advance(RefreshReply::Listed(Ok(listed), at(1))) {
        RefreshAction::Record { health, .. } => {
            let found: Vec<String> = health
                .discovered_tools
                .expect("listed")
                .into_iter()
                .map(|t| t.prefixed_name)
                .collect();
            assert_eq!(found, vec!["mcp_one_a", "mcp_one_b"]);
        }
        other => panic!("expected a record, got {other:?}"),
    }
    run.advance(RefreshReply::Proceed);
    run.advance(RefreshReply::Connected(Ok(())));
    match run.advance(RefreshReply::Listed(Ok(vec![tool("a")]), at(2))) {
        RefreshAction::Record { health, .. } => {
            assert_eq!(health.discovered_tools, Some(Vec::<DiscoveredTool>::new()))
        }
        other => panic!("expected a record, got {other:?}"),
    }
}

#[test]
fn servers_and_tools_are_capped() {
    let rows: Vec<McpServerRecord> = (0..MAX_MCP_SERVERS + 3)
        .map(|i| server(&format!("s{i}"), "https://many.example/"))
        .collect();
    let mut registry = McpRegistry::new();
    let mut run = registry.refresh(rows);
    let mut servers = 0;
    let mut reply = RefreshReply::Proceed;
    loop {
        reply = match run.advance(reply) {
            RefreshAction::Finish => break,
            RefreshAction::Connect { .. } => RefreshReply::Connected(Ok(())),
            RefreshAction::ListTools { .. } => {
                servers += 1;
                let many = if servers == 1 { MAX_TOOLS_PER_SERVER + 5 } else { 0 };
                let listed = (0..many).map(|i| tool(&format!("t{i}"))).collect();
                RefreshReply::Listed(Ok(listed), at(1))
            }
            _ => RefreshReply::Proceed,
        };
    }
    registry.install(run);
    assert_eq!(servers, MAX_MCP_SERVERS);
    assert_eq!(registry.len(), MAX_TOOLS_PER_SERVER);
}

fn request(name: &str) -> McpServerCreate {
    McpServerCreate {
        org_id: OrgId::new(),
        created_by_user_id: UserId::new(),
        alias: alias(name),
        config: transport("https://one.example/"),
        description: None,
        enabled: true,
    }
}

#[test]
fn servers_are_registered_up_to_the_cap() {
    let id = McpServerId::new();
    let rec = plan_create(31, 32, request("one"), id, at(3)).expect("room");
    assert_eq!((rec.id, rec.created_at, rec.updated_at), (id, at(3), at(3)));
    assert_eq!(rec.connection_status, ConnectionStatus::Healthy);
    let err = plan_create(32, 32, request("one"), id, at(3)).expect_err("full");
    assert_eq!(err.message(), "server cap reached (max 32)");
}

#[test]
fn a_unique_violation_means_that_the_alias_is_taken() {
    let fault = |code: Option<&str>| DriverFault {
        sqlstate: code.map(|c| c.to_owned()),
        detail: "driver says no".to_owned(),
    };
    let e = map_unique_violation(fault(Some("23505")), &alias("one"));
    assert_eq!(e.message(), "mcp server alias `one` already in use");
    for code in [None, Some("23503")] {
        let e = map_unique_violation(fault(code), &alias("one"));
        assert!(matches!(&e, McpError::Db(DbFault::Driver(d)) if d == "driver says no"));
    }
    let rec = server("one", "https://one.example/");
    assert!(settle_write(copy(&rec), None).is_ok());
    assert!(settle_write(rec, Some(fault(Some("23505")))).is_err());
}

#[test]
fn an_update_changes_what_it_names() {
    let row = row_of("one");
    let change = McpServerUpdate {
        alias: None,
        config: None,
        description: Some(None),
        enabled: Some(false),
    };
    let id = row.id;
    let rec = plan_update(id, Some(row), change, at(9)).expect("readable");
    assert_eq!(rec.alias.as_str(), "one");
    assert_eq!(rec.description, None);
    assert!(!rec.enabled);
    assert_eq!(rec.updated_at, at(9));
    assert_eq!(rec.created_at, at(1));
    let nothing =
        McpServerUpdate { alias: None, config: None, description: None, enabled: None };
    let err = plan_update(id, None, nothing, at(9)).expect_err("missing");
    assert!(matches!(err, McpError::NotFound(missing) if missing == id));
}

fn row_of(name: &str) -> McpServerRow {
    McpServerRow {
        id: McpServerId::new(),
        org_id: OrgId::new(),
        alias: name.to_owned(),
        enabled: true,
        config: Ok(McpTransportInput::Http { url: "https://one.example".to_owned() }),
        description: Some("notes".to_owned()),
        last_seen_at: None,
        last_error: None,
        discovered_tools: Ok(None),
        created_by_user_id: UserId::new(),
        connection_status: ConnectionStatus::Healthy,
        created_at: at(1),
        updated_at: at(2),
    }
}

#[test]
fn a_row_is_read_or_refused_with_its_first_fault() {
    let row = row_of("one");
    let id = row.id;
    let rec = read_server(id, Some(row)).expect("readable");
    assert_eq!(rec.config, transport("https://one.example/"));
    assert_eq!(rec.description.map(|d| d.as_str().to_owned()), Some("notes".to_owned()));
    let mut row = row_of("NO");
    row.config = Err("x".to_owned());
    assert!(matches!(row.into_record(), Err(McpError::Parse(_))));
    let mut row = row_of("one");
    row.config = Err("bad json".to_owned());
    row.description = Some("d".repeat(600));
    assert_eq!(
        row.into_record().expect_err("config").message(),
        "mcp store backend error: deserialize transport: bad json"
    );
    let mut row = row_of("one");
    row.config = Ok(McpTransportInput::Http { url: "ftp://x".to_owned() });
    assert_eq!(
        row.into_record().expect_err("scheme").message(),
        "mcp store backend error: deserialize transport: mcp_transport.url is malformed: \
         scheme must be http or https"
    );
    let mut row = row_of("one");
    row.description = Some("d".repeat(513));
    row.discovered_tools = Err("x".to_owned());
    assert!(matches!(row.into_record(), Err(McpError::Parse(_))));
    let mut row = row_of("one");
    row.discovered_tools = Err("bad list".to_owned());
    assert_eq!(
        row.into_record().expect_err("tools").message(),
        "mcp store backend error: deserialize discovered: bad list"
    );
    assert!(matches!(read_server(id, None), Err(McpError::NotFound(_))));
}

#[test]
fn one_bad_row_fails_a_list() {
    assert_eq!(decode_rows(vec![row_of("one"), row_of("two")]).expect("fine").len(), 2);
    assert!(decode_rows(vec![row_of("one"), row_of("NO")]).is_err());
}

#[test]
fn a_statement_that_touches_nothing_misses_its_server() {
    let id = McpServerId::new();
    assert!(settle_touch(id, 1).is_ok());
    assert!(matches!(settle_touch(id, 0), Err(McpError::NotFound(m)) if m == id));
}

#[test]
fn what_a_refresh_found_out_is_stored_as_it_is() {
    let mut rec = server("one", "https://one.example/");
    rec.discovered_tools = Some(vec![DiscoveredTool {
        remote_name: "a".to_owned(),
        prefixed_name: "mcp_one_a".to_owned(),
        description: None,
    }]);
    rec.last_seen_at = Some(at(1));
    let health = McpHealthUpdate {
        last_seen_at: None,
        last_error: Some("connect: no".to_owned()),
        discovered_tools: None,
    };
    let after = apply_health(rec, health, at(5));
    assert!(after.discovered_tools.is_none());
    assert_eq!(after.last_error.as_deref(), Some("connect: no"));
    assert_eq!(after.last_seen_at, None);
    assert_eq!(after.updated_at, at(5));
}

#[test]
fn a_url_is_kept_in_its_normal_form() {
    let url = McpHttpUrl::try_from("HTTP://Example.com:80/a/../b").expect("valid");
    assert_eq!(url.as_str(), "http://example.com/b");
    let fault = |s: &str| McpHttpUrl::try_from(s).expect_err("refused").message();
    assert_eq!(fault(""), "mcp_transport.url must not be empty");
    assert_eq!(fault("not a url"), "mcp_transport.url is malformed: not a valid URL");
    assert_eq!(fault("data:text/plain,x"), "mcp_transport.url is malformed: scheme must be http or https");
    assert!(fault(&format!("http://h/{}", "a".repeat(2048))).contains("too long"));
}

#[test]
fn a_long_normal_form_is_not_read_back() {
    let url = format!("http://h/{}", "\u{e9}".repeat(1000));
    let t = McpTransport::try_from(McpTransportInput::Http { url }).expect("short enough");
    assert!(McpTransport::try_from(t.written()).is_err());
    let _ = McpDescription::try_from(String::new()).expect("may be empty");
}
