use relay::agents::{AllowedMcpTools, AllowedServer, ToolScope};
use relay::ids::{McpServerId, OrgId, UserId};
use relay::mcp::registry::{McpRegistry, RefreshAction, RefreshReply, RemoteTool};
use relay::mcp::scoped::ScopedMcpSource;
use relay::mcp::types::{
    ConnectionStatus, McpHttpUrl, McpServerAlias, McpServerRecord, McpTransport,
};
use relay::time::Timestamp;
use relay::tools::ToolSpec;

fn server(id: McpServerId, alias: &str) -> McpServerRecord {
    let at = Timestamp::from_secs(0).expect("in the calendar");
    McpServerRecord {
        id,
        org_id: OrgId::new(),
        alias: McpServerAlias::try_from(alias).expect("valid"),
        enabled: true,
        config: McpTransport::Http {
            url: McpHttpUrl::try_from("https://example.com/mcp").expect("valid"),
        },
        description: None,
        last_seen_at: None,
        last_error: None,
        discovered_tools: None,
        created_by_user_id: UserId::new(),
        connection_status: ConnectionStatus::Healthy,
        created_at: at,
        updated_at: at,
    }
}

fn fake(name: &str) -> RemoteTool {
    RemoteTool {
        name: name.to_owned(),
        description: Some("fake".to_owned()),
        input_schema: "{\"type\":\"object\"}".to_owned(),
    }
}

/// A catalogue with the tools of each server under the alias that is given.
fn catalogue(servers: &[(McpServerId, &str, &[&str])]) -> McpRegistry {
    let mut registry = McpRegistry::new();
    let rows = servers.iter().map(|(id, alias, _)| server(*id, alias)).collect();
    let mut run = registry.refresh(rows);
    let mut reply = RefreshReply::Proceed;
    loop {
        reply = match run.advance(reply) {
            RefreshAction::Finish => break,
            RefreshAction::LoadCredentials { .. } => RefreshReply::Credentials(Ok(None)),
            RefreshAction::Connect { .. } => RefreshReply::Connected(Ok(())),
            RefreshAction::ListTools { id } => {
                let (_, _, tools) = servers.iter().find(|(s, _, _)| *s == id).expect("known");
                RefreshReply::Listed(
                    Ok(tools.iter().map(|t| fake(t)).collect()),
                    Timestamp::from_secs(1).expect("in the calendar"),
                )
            }
            RefreshAction::Record { .. } => RefreshReply::Proceed,
        };
    }
    registry.install(run);
    registry
}

fn spec_names(specs: &[ToolSpec]) -> Vec<String> {
    specs.iter().map(|s| s.name.as_str().to_owned()).collect()
}

fn allow(entries: &[(McpServerId, Option<&[&str]>)]) -> AllowedMcpTools {
    let raw: Vec<(McpServerId, Option<Vec<String>>)> = entries
        .iter()
        .map(|(id, names)| {
            (*id, names.map(|list| list.iter().map(|s| (*s).to_owned()).collect()))
        })
        .collect();
    AllowedMcpTools::try_from(raw).expect("valid scope")
}

#[test]
fn empty_allowlist_hides_every_tool() {
    let s1 = McpServerId::new();
    let registry = catalogue(&[(s1, "one", &["alpha", "beta"])]);
    let allowed = AllowedMcpTools::empty();
    let scoped = ScopedMcpSource::new(&registry, &allowed);
    assert!(scoped.specs().is_empty());
    assert!(scoped.get("mcp_one_alpha").is_none());
}

#[test]
fn allowed_server_with_none_scope_exposes_every_tool() {
    let s1 = McpServerId::new();
    let s2 = McpServerId::new();
    let registry = catalogue(&[(s1, "one", &["alpha"]), (s2, "two", &["beta", "gamma"])]);
    let allowed = allow(&[(s2, None)]);
    let scoped = ScopedMcpSource::new(&registry, &allowed);
    let names = spec_names(&scoped.specs());
    assert_eq!(names.len(), 2);
    assert!(names.iter().any(|n| n == "mcp_two_beta"));
    assert!(names.iter().any(|n| n == "mcp_two_gamma"));
    assert!(scoped.get("mcp_one_alpha").is_none());
    assert!(scoped.get("mcp_two_beta").is_some());
}

#[test]
fn partial_scope_keeps_only_named_tools() {
    let s1 = McpServerId::new();
    let registry = catalogue(&[(s1, "one", &["alpha", "beta", "gamma"])]);
    let allowed = allow(&[(s1, Some(&["alpha", "gamma"]))]);
    let scoped = ScopedMcpSource::new(&registry, &allowed);
    let names = spec_names(&scoped.specs());
    assert_eq!(names.len(), 2);
    assert!(names.iter().any(|n| n == "mcp_one_alpha"));
    assert!(names.iter().any(|n| n == "mcp_one_gamma"));
    assert!(scoped.get("mcp_one_beta").is_none());
}

#[test]
fn empty_subset_locks_down_an_allowed_server() {
    let s1 = McpServerId::new();
    let registry = catalogue(&[(s1, "one", &["alpha", "beta"])]);
    let allowed = allow(&[(s1, Some(&[]))]);
    let scoped = ScopedMcpSource::new(&registry, &allowed);
    assert!(scoped.specs().is_empty());
    assert!(scoped.get("mcp_one_alpha").is_none());
}

#[test]
fn unknown_tool_yields_none_even_when_allowlist_nonempty() {
    let s1 = McpServerId::new();
    let registry = catalogue(&[(s1, "one", &["alpha"])]);
    let allowed = allow(&[(s1, None)]);
    let scoped = ScopedMcpSource::new(&registry, &allowed);
    assert!(scoped.get("mcp_one_does_not_exist").is_none());
}

#[test]
fn allowing_multiple_servers_unions_their_tools() {
    let s1 = McpServerId::new();
    let s2 = McpServerId::new();
    let s3 = McpServerId::new();
    let registry = catalogue(&[
        (s1, "one", &["alpha"]),
        (s2, "two", &["beta"]),
        (s3, "three", &["gamma"]),
    ]);
    let allowed = allow(&[(s1, None), (s3, None)]);
    let scoped = ScopedMcpSource::new(&registry, &allowed);
    let names = spec_names(&scoped.specs());
    assert_eq!(names.len(), 2);
    assert!(names.iter().any(|n| n == "mcp_one_alpha"));
    assert!(names.iter().any(|n| n == "mcp_three_gamma"));
    assert!(scoped.get("mcp_two_beta").is_none());
}

#[test]
fn dangling_allowlist_id_is_inert() {
    let s1 = McpServerId::new();
    let s2 = McpServerId::new();
    let registry = catalogue(&[(s1, "one", &["alpha"])]);
    let allowed = allow(&[(s1, None), (s2, None)]);
    let scoped = ScopedMcpSource::new(&registry, &allowed);
    let names = spec_names(&scoped.specs());
    assert_eq!(names, vec!["mcp_one_alpha".to_owned()]);
}

#[test]
fn partial_scope_referencing_unknown_remote_name_keeps_zero() {
    let s1 = McpServerId::new();
    let registry = catalogue(&[(s1, "one", &["alpha", "beta"])]);
    let allowed = allow(&[(s1, Some(&["phantom"]))]);
    let scoped = ScopedMcpSource::new(&registry, &allowed);
    assert!(scoped.specs().is_empty());
    assert!(scoped.get("mcp_one_alpha").is_none());
}

#[test]
fn the_last_entry_of_a_server_counts() {
    let s1 = McpServerId::new();
    let allowed = allow(&[(s1, None), (s1, Some(&["alpha"]))]);
    assert!(matches!(allowed.tools_for(s1), ToolScope::Only(names) if names.len() == 1));
    assert!(matches!(allowed.tools_for(McpServerId::new()), ToolScope::Nothing));
    assert!(matches!(allow(&[(s1, None)]).tools_for(s1), ToolScope::Everything));
    assert!(allowed.allows(s1, "alpha"));
    assert!(!allowed.allows(s1, "beta"));
    let _ = AllowedServer { server: s1, tools: None };
}

#[test]
fn an_allowlist_with_a_bad_name_is_refused() {
    let s1 = McpServerId::new();
    let raw = vec![(s1, Some(vec!["fine".to_owned(), String::new()]))];
    let err = AllowedMcpTools::try_from(raw).expect_err("empty name");
    assert_eq!(err.message(), "mcp_tool_remote_name must not be empty");
}
