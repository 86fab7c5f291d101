//! The live catalogue of the tools that registered servers expose.
//!
//! A refresh goes through the enabled servers, one after the other. Connecting
//! and listing take place outside: [`RefreshRun`] says what is to be done next,
//! and takes what came of it. A server that fails is left out, and why is
//! recorded; it does not hold up the others. When the run is over, its result
//! takes the place of the catalogue as a whole.

use crate::ids::{McpServerId, OrgId};
use crate::mcp::credentials::CredentialPayload;
use crate::mcp::error::McpError;
use crate::mcp::limits::{MAX_MCP_SERVERS, MAX_TOOLS_PER_SERVER};
use crate::mcp::store::McpHealthUpdate;
use crate::mcp::tool::{McpTool, ToolView};
use crate::mcp::types::{DiscoveredTool, McpServerAlias, McpServerRecord, McpTransport};
use crate::seqs::lemma_filter_step;
use crate::text::{
    lemma_text_lt_total, lemma_text_lt_trans, text2, text4, text_before, text_equal, text_lt,
};
use crate::time::Timestamp;
use crate::tools::ToolSpec;
use crate::types::{tool_name_error, ToolName};
use vstd::prelude::*;

verus! {

/// A tool as its server lists it.
#[derive(Debug)]
pub struct RemoteTool {
    pub name: String,
    pub description: Option<String>,
    /// The JSON schema of its input.
    pub input_schema: String,
}

/// A server with which a connection is held, and the transport it was made for.
#[derive(Debug)]
pub struct ConnectedServer {
    pub id: McpServerId,
    pub config: McpTransport,
}

/// Where a tool comes from.
#[derive(Debug)]
pub struct ToolOrigin {
    pub server: McpServerId,
    pub remote_name: String,
}

/// The name by which agents call the tool `remote` of the server with the alias
/// `alias`.
pub open spec fn prefixed(alias: Seq<char>, remote: Seq<char>) -> Seq<char> {
    "mcp_"@ + alias + "_"@ + remote
}

/// The name by which agents call a tool, if it is one.
pub fn prefixed_name(alias: &McpServerAlias, remote: &str) -> (r: Option<ToolName>)
    ensures
        match r {
            Some(n) => tool_name_error(prefixed(alias@, remote@)) is None && n@ == prefixed(
                alias@,
                remote@,
            ),
            None => tool_name_error(prefixed(alias@, remote@)) is Some,
        },
{
    let raw = text4("mcp_", alias.as_str(), "_", remote);
    match ToolName::try_from(raw.as_str()) {
        Ok(n) => Some(n),
        Err(_) => None,
    }
}

/// Whether a tool is called `name`.
pub open spec fn has_tool(tools: Seq<ToolView>, name: Seq<char>) -> bool {
    exists|i: int| 0 <= i < tools.len() && (#[trigger] tools[i]).name == name
}

/// The tool `remote` of `server`, under the name `name`.
pub open spec fn tool_view(remote: RemoteTool, name: Seq<char>, server: McpServerId) -> ToolView {
    ToolView {
        name,
        remote_name: remote.name@,
        description: match remote.description {
            Some(d) => d@,
            None => "(no description provided)"@,
        },
        schema: remote.input_schema@,
        server,
    }
}

/// Whether a listed tool joins the tools `have`: its name makes a tool name, and
/// none of them is called by it.
pub open spec fn joins(alias: Seq<char>, remote: RemoteTool, have: Seq<ToolView>) -> bool {
    &&& tool_name_error(prefixed(alias, remote.name@)) is None
    &&& !has_tool(have, prefixed(alias, remote.name@))
}

/// The tools `have` and those that `listed` adds to them.
pub open spec fn ingested(
    server: McpServerId,
    alias: Seq<char>,
    listed: Seq<RemoteTool>,
    have: Seq<ToolView>,
) -> Seq<ToolView>
    decreases listed.len(),
{
    if listed.len() == 0 {
        have
    } else {
        let before = ingested(server, alias, listed.drop_last(), have);
        let remote = listed.last();
        if joins(alias, remote, before) {
            before.push(tool_view(remote, prefixed(alias, remote.name@), server))
        } else {
            before
        }
    }
}

/// Those of `listed` that join the tools `have`.
pub open spec fn joining(
    server: McpServerId,
    alias: Seq<char>,
    listed: Seq<RemoteTool>,
    have: Seq<ToolView>,
) -> Seq<RemoteTool>
    decreases listed.len(),
{
    if listed.len() == 0 {
        Seq::empty()
    } else {
        let before = joining(server, alias, listed.drop_last(), have);
        if joins(alias, listed.last(), ingested(server, alias, listed.drop_last(), have)) {
            before.push(listed.last())
        } else {
            before
        }
    }
}

/// `d` records that `remote` was found.
pub open spec fn discovers(alias: Seq<char>, remote: RemoteTool, d: DiscoveredTool) -> bool {
    &&& d.remote_name@ == remote.name@
    &&& d.prefixed_name@ == prefixed(alias, remote.name@)
    &&& match (remote.description, d.description) {
        (Some(a), Some(b)) => a@ == b@,
        (None, None) => true,
        _ => false,
    }
}

/// `found` records that the tools `remote` were found.
pub open spec fn all_discovered(
    alias: Seq<char>,
    remote: Seq<RemoteTool>,
    found: Seq<DiscoveredTool>,
) -> bool {
    &&& found.len() == remote.len()
    &&& forall|i: int| 0 <= i < found.len() ==> discovers(alias, remote[i], #[trigger] found[i])
}

/// The tools, as views.
pub open spec fn views(tools: Seq<McpTool>) -> Seq<ToolView> {
    tools.map_values(|t: McpTool| t@)
}

fn is_listed(tools: &Vec<McpTool>, name: &str) -> (r: bool)
    ensures
        r == has_tool(views(tools@), name@),
{
    let mut i: usize = 0;
    while i < tools.len()
        invariant
            i <= tools@.len(),
            forall|j: int| 0 <= j < i ==> (#[trigger] views(tools@)[j]).name != name@,
        decreases tools.len() - i,
    {
        if text_equal(tools[i].name().as_str(), name) {
            proof {
                assert(views(tools@)[i as int].name == name@);
            }
            return true;
        }
        i += 1;
    }
    false
}

/// Adds the tools that a server listed to those of the run, at most
/// [`MAX_TOOLS_PER_SERVER`] of them. A tool whose name makes no tool name is left
/// out, and so is one whose name is taken. Tells which were added.
pub fn ingest_tools(
    server_id: McpServerId,
    alias: &McpServerAlias,
    listed: &Vec<RemoteTool>,
    tools: &mut Vec<McpTool>,
) -> (found: Vec<DiscoveredTool>)
    ensures
        ({
            let kept = if listed@.len() > MAX_TOOLS_PER_SERVER {
                listed@.take(MAX_TOOLS_PER_SERVER as int)
            } else {
                listed@
            };
            &&& views(final(tools)@) == ingested(server_id, alias@, kept, views(old(tools)@))
            &&& all_discovered(alias@, joining(server_id, alias@, kept, views(old(tools)@)), found@)
        }),
        final(tools)@.len() == old(tools)@.len() + found@.len(),
        forall|i: int|
            0 <= i < old(tools)@.len() ==> (#[trigger] final(tools)@[i])@ == old(tools)@[i]@,
        forall|i: int|
            old(tools)@.len() <= i < final(tools)@.len() ==> exists|k: int|
                0 <= k < listed@.len() && k < MAX_TOOLS_PER_SERVER && carries(
                    (#[trigger] final(tools)@[i])@,
                    server_id,
                    alias@,
                    #[trigger] listed@[k],
                ),
{
    let mut found: Vec<DiscoveredTool> = Vec::new();
    let ghost have = views(tools@);
    let n: usize = if listed.len() > MAX_TOOLS_PER_SERVER {
        MAX_TOOLS_PER_SERVER
    } else {
        listed.len()
    };
    let mut i: usize = 0;
    while i < n
        invariant
            i <= n <= listed@.len(),
            views(tools@) == ingested(server_id, alias@, listed@.take(i as int), have),
            all_discovered(alias@, joining(server_id, alias@, listed@.take(i as int), have), found@),
        decreases n - i,
    {
        let ghost before = tools@;
        let ghost found_before = found@;
        proof {
            assert(listed@.take(i + 1).drop_last() =~= listed@.take(i as int));
            assert(listed@.take(i + 1).last() == listed@[i as int]);
        }
        let remote = &listed[i];
        i += 1;
        match prefixed_name(alias, remote.name.as_str()) {
            None => {},
            Some(name) => {
                if !is_listed(tools, name.as_str()) {
                    let description = match &remote.description {
                        Some(d) => d.clone(),
                        None => "(no description provided)".to_owned(),
                    };
                    found.push(
                        DiscoveredTool {
                            remote_name: remote.name.clone(),
                            prefixed_name: name.as_str().to_owned(),
                            description: match &remote.description {
                                Some(d) => Some(d.clone()),
                                None => None,
                            },
                        },
                    );
                    tools.push(
                        McpTool::new(
                            name,
                            remote.name.clone(),
                            description,
                            remote.input_schema.clone(),
                            server_id,
                        ),
                    );
                    proof {
                        let all = joining(server_id, alias@, listed@.take(i as int), have);
                        assert(views(tools@) =~= views(before).push(tools@.last()@));
                        assert forall|k: int| 0 <= k < found@.len() implies discovers(
                            alias@,
                            all[k],
                            #[trigger] found@[k],
                        ) by {
                            if k < found_before.len() {
                                assert(found@[k] == found_before[k]);
                            }
                        }
                    }
                }
            },
        }
    }
    proof {
        let kept = listed@.take(n as int);
        assert(listed@.take(listed@.len() as int) =~= listed@);
        law_record_tells_what_was_added(server_id, alias@, kept, have, found@);
        law_first_tool_keeps_the_name(server_id, alias@, kept, have);
        assert forall|i: int| 0 <= i < have.len() implies (#[trigger] tools@[i])@ == have[i] by {
            assert(views(tools@)[i] == tools@[i]@);
        }
        assert forall|i: int| have.len() <= i < tools@.len() implies exists|k: int|
            0 <= k < listed@.len() && k < MAX_TOOLS_PER_SERVER && carries(
                (#[trigger] tools@[i])@,
                server_id,
                alias@,
                #[trigger] listed@[k],
            ) by {
            lemma_added_tools_carry(server_id, alias@, kept, have, i);
            let k = choose|k: int|
                0 <= k < kept.len() && carries(
                    views(tools@)[i],
                    server_id,
                    alias@,
                    #[trigger] kept[k],
                );
            assert(listed@[k] == kept[k]);
            assert(views(tools@)[i] == tools@[i]@);
        }
    }
    found
}

/// The tools are in the order of their names, and no two share one.
pub open spec fn by_name(tools: Seq<ToolView>) -> bool {
    forall|i: int, j: int|
        0 <= i < j < tools.len() ==> text_lt((#[trigger] tools[i]).name, (#[trigger] tools[j]).name)
}

/// No two tools share a name.
pub open spec fn names_differ(tools: Seq<ToolView>) -> bool {
    forall|i: int, j: int|
        0 <= i < j < tools.len() ==> (#[trigger] tools[i]).name != (#[trigger] tools[j]).name
}

/// `a` and `b` hold the same tools.
pub open spec fn same_tools(a: Seq<ToolView>, b: Seq<ToolView>) -> bool {
    &&& a.len() == b.len()
    &&& forall|t: ToolView| a.contains(t) <==> #[trigger] b.contains(t)
}

/// Adding tools keeps their names different.
proof fn lemma_ingested_names(
    server: McpServerId,
    alias: Seq<char>,
    listed: Seq<RemoteTool>,
    have: Seq<ToolView>,
)
    requires
        names_differ(have),
    ensures
        names_differ(ingested(server, alias, listed, have)),
        have.len() <= ingested(server, alias, listed, have).len() <= have.len() + listed.len(),
    decreases listed.len(),
{
    if listed.len() > 0 {
        lemma_ingested_names(server, alias, listed.drop_last(), have);
        let before = ingested(server, alias, listed.drop_last(), have);
        let after = ingested(server, alias, listed, have);
        assert forall|i: int, j: int| 0 <= i < j < after.len() implies (#[trigger] after[i]).name
            != (#[trigger] after[j]).name by {
            assert(after[i] == before[i]);
            if j < before.len() {
                assert(after[j] == before[j]);
            }
        }
    }
}

/// Puts `tool` into its place among the sorted `tools`.
fn insert_sorted(tools: &mut Vec<McpTool>, tool: McpTool)
    requires
        by_name(views(old(tools)@)),
        !has_tool(views(old(tools)@), tool@.name),
    ensures
        by_name(views(final(tools)@)),
        exists|p: int|
            0 <= p <= old(tools)@.len() && final(tools)@ == #[trigger] old(tools)@.insert(p, tool),
{
    let mut p: usize = 0;
    while p < tools.len() && text_before(tools[p].name().as_str(), tool.name().as_str())
        invariant
            p <= tools@.len(),
            forall|j: int| 0 <= j < p ==> text_lt((#[trigger] views(tools@)[j]).name, tool@.name),
        decreases tools.len() - p,
    {
        proof {
            assert(views(tools@)[p as int] == tools@[p as int]@);
        }
        p += 1;
    }
    let ghost before = views(tools@);
    let ghost t = tool@;
    proof {
        if p < before.len() {
            lemma_text_lt_total(before[p as int].name, t.name);
            assert(before[p as int].name != t.name);
        }
    }
    tools.insert(p, tool);
    proof {
        let after = views(tools@);
        assert(after =~= before.insert(p as int, t));
        assert forall|i: int, j: int| 0 <= i < j < after.len() implies text_lt(
            (#[trigger] after[i]).name,
            (#[trigger] after[j]).name,
        ) by {
            if j < p {
                assert(text_lt(before[i].name, before[j].name));
            } else if j == p {
                assert(text_lt(before[i].name, t.name));
            } else if i == p {
                if j - 1 > p {
                    assert(text_lt(before[p as int].name, before[j - 1].name));
                    lemma_text_lt_trans(t.name, before[p as int].name, before[j - 1].name);
                }
            } else if i < p {
                assert(text_lt(before[i].name, before[j - 1].name));
            } else {
                assert(text_lt(before[i - 1].name, before[j - 1].name));
            }
        }
    }
}

/// The tools in the order of their names.
fn sort_tools(tools: Vec<McpTool>) -> (sorted: Vec<McpTool>)
    requires
        names_differ(views(tools@)),
    ensures
        by_name(views(sorted@)),
        same_tools(views(sorted@), views(tools@)),
{
    let ghost all = tools@;
    let mut rest = tools;
    let mut sorted: Vec<McpTool> = Vec::new();
    let ghost mut k: int = 0;
    while rest.len() > 0
        invariant
            names_differ(views(all)),
            0 <= k <= all.len(),
            rest@ == all.skip(k),
            sorted@.len() == k,
            by_name(views(sorted@)),
            forall|t: ToolView|
                views(sorted@).contains(t) <==> #[trigger] views(all).take(k).contains(t),
        decreases rest@.len(),
    {
        let tool = rest.remove(0);
        let ghost before = sorted@;
        proof {
            assert(tool == all[k]);
            assert(rest@ =~= all.skip(k + 1));
            if has_tool(views(before), tool@.name) {
                let i = choose|i: int|
                    0 <= i < views(before).len() && (#[trigger] views(before)[i]).name
                        == tool@.name;
                assert(views(before).contains(views(before)[i]));
                assert(views(all).take(k).contains(views(before)[i]));
                let j = choose|j: int|
                    0 <= j < views(all).take(k).len() && views(all).take(k)[j] == views(before)[i];
                assert(views(all)[j].name != views(all)[k].name);
                assert(false);
            }
        }
        let ghost t = tool@;
        insert_sorted(&mut sorted, tool);
        proof {
            let p = choose|p: int|
                0 <= p <= before.len() && sorted@ == #[trigger] before.insert(p, tool);
            let now = views(sorted@);
            assert(now =~= views(before).insert(p, t));
            let upto = views(all).take(k + 1);
            assert(upto =~= views(all).take(k).push(t));
            assert forall|x: ToolView| now.contains(x) <==> #[trigger] upto.contains(x) by {
                if now.contains(x) {
                    let i = choose|i: int| 0 <= i < now.len() && now[i] == x;
                    if i == p {
                        assert(upto[k] == x);
                    } else {
                        let i2 = if i < p { i } else { i - 1 };
                        assert(views(before)[i2] == x);
                        assert(views(before).contains(x));
                        assert(views(all).take(k).contains(x));
                        let j = choose|j: int|
                            0 <= j < views(all).take(k).len() && views(all).take(k)[j] == x;
                        assert(upto[j] == x);
                    }
                }
                if upto.contains(x) {
                    let j = choose|j: int| 0 <= j < upto.len() && upto[j] == x;
                    if j == k {
                        assert(now[p] == x);
                    } else {
                        assert(views(all).take(k)[j] == x);
                        assert(views(all).take(k).contains(x));
                        assert(views(before).contains(x));
                        let i = choose|i: int| 0 <= i < views(before).len() && views(before)[i] == x;
                        let i2 = if i < p { i } else { i + 1 };
                        assert(now[i2] == x);
                    }
                }
            }
            k = k + 1;
        }
    }
    proof {
        assert(k == all.len());
        assert(views(all).take(k) =~= views(all));
    }
    sorted
}

/// The servers other than `id`.
pub open spec fn without(servers: Seq<ConnectedServer>, id: McpServerId) -> Seq<ConnectedServer> {
    servers.filter(|s: ConnectedServer| s.id != id)
}

/// Whether the connection that is held with the server of `row` serves: it was
/// made for the same transport, and there are no credentials. With credentials
/// a connection is made anew, so that new tokens take effect.
pub open spec fn reusable(
    prior: Seq<ConnectedServer>,
    row: McpServerRecord,
    credentials: Option<CredentialPayload>,
) -> bool {
    &&& credentials is None
    &&& exists|i: int|
        {
            &&& 0 <= i < prior.len()
            &&& (#[trigger] prior[i]).id == row.id
            &&& prior[i].config.url() == row.config.url()
        }
}

/// No server is listed twice.
pub open spec fn servers_differ(servers: Seq<ConnectedServer>) -> bool {
    forall|i: int, j: int|
        0 <= i < j < servers.len() ==> (#[trigger] servers[i]).id != (#[trigger] servers[j]).id
}

/// Takes the server `id` out of `servers`.
fn take_server(servers: &mut Vec<ConnectedServer>, id: McpServerId) -> (r: Option<ConnectedServer>)
    requires
        servers_differ(old(servers)@),
    ensures
        final(servers)@ == without(old(servers)@, id),
        servers_differ(final(servers)@),
        match r {
            Some(s) => s.id == id && old(servers)@.contains(s),
            None => forall|i: int| 0 <= i < old(servers)@.len() ==> (#[trigger] old(servers)@[i]).id != id,
        },
{
    let ghost all = servers@;
    let ghost p = |s: ConnectedServer| s.id != id;
    let mut out: Vec<ConnectedServer> = Vec::new();
    let mut hit: Option<ConnectedServer> = None;
    let ghost mut k: int = 0;
    proof {
        reveal(Seq::filter);
        assert(all.take(0) =~= Seq::empty());
    }
    while servers.len() > 0
        invariant
            p == (|s: ConnectedServer| s.id != id),
            0 <= k <= all.len(),
            servers@ == all.skip(k),
            out@ == all.take(k).filter(p),
            servers_differ(all),
            servers_differ(out@),
            forall|i: int| 0 <= i < out@.len() ==> all.take(k).contains(#[trigger] out@[i]),
            match hit {
                Some(s) => s.id == id && all.contains(s),
                None => forall|i: int| 0 <= i < k ==> (#[trigger] all[i]).id != id,
            },
        decreases servers@.len(),
    {
        let s = servers.remove(0);
        let ghost before = out@;
        proof {
            assert(s == all[k]);
            assert(servers@ =~= all.skip(k + 1));
            lemma_filter_step(all, k, p);
            assert(all.take(k + 1) =~= all.take(k).push(s));
            assert forall|i: int| 0 <= i < before.len() implies all.take(k + 1).contains(
                #[trigger] before[i],
            ) && before[i].id != s.id by {
                let j = choose|j: int| 0 <= j < all.take(k).len() && all.take(k)[j] == before[i];
                assert(all.take(k + 1)[j] == before[i]);
                assert(all[j].id != all[k].id);
            }
            assert(all.take(k + 1)[k] == s);
        }
        if s.id.0 == id.0 {
            hit = Some(s);
        } else {
            out.push(s);
            proof {
                assert forall|i: int, j: int| 0 <= i < j < out@.len() implies (
                #[trigger] out@[i]).id != (#[trigger] out@[j]).id by {
                    assert(out@[i] == before[i]);
                    if j < before.len() {
                        assert(out@[j] == before[j]);
                    }
                }
            }
        }
        proof {
            k = k + 1;
        }
    }
    proof {
        assert(all.take(k) =~= all);
    }
    std::mem::swap(servers, &mut out);
    hit
}

/// Where a refresh stands.
#[derive(Clone, Copy, Debug, PartialEq, Eq, Structural)]
pub enum RefreshStage {
    /// Between two servers.
    Between,
    /// The credentials of a server are being loaded.
    Loading,
    /// A connection is being made.
    Connecting,
    /// The tools are being listed.
    Listing,
}

/// What a refresh needs done next.
#[allow(inconsistent_fields)]
#[derive(Debug)]
pub enum RefreshAction {
    /// Load and open the credentials of the server.
    LoadCredentials { id: McpServerId, org_id: OrgId },
    /// Connect to the server. The connection takes the place of one that was
    /// held with it.
    Connect { id: McpServerId, config: McpTransport, credentials: Option<CredentialPayload> },
    /// List the tools over the connection that is held with the server.
    ListTools { id: McpServerId },
    /// Record what was found out about the server. Whether that succeeds does
    /// not matter to the refresh.
    Record { id: McpServerId, org_id: OrgId, health: McpHealthUpdate },
    /// Every server was gone through.
    Finish,
}

/// What came of the action before.
#[derive(Debug)]
pub enum RefreshReply {
    /// The refresh starts, or what was to be recorded has been dealt with.
    Proceed,
    /// The credentials of the server, if it has any.
    Credentials(Result<Option<CredentialPayload>, McpError>),
    /// Whether the connection was made.
    Connected(Result<(), McpError>),
    /// The tools that the server listed, and when.
    Listed(Result<Vec<RemoteTool>, McpError>, Timestamp),
}

/// `health` records a failure, worded `text`.
pub open spec fn records_failure(health: McpHealthUpdate, text: Seq<char>) -> bool {
    &&& health.last_seen_at is None
    &&& health.last_error matches Some(s) && s@ == text
    &&& health.discovered_tools is None
}

/// The health update of a server that failed.
fn failure(stage: &str, e: &McpError) -> (h: McpHealthUpdate)
    ensures
        records_failure(h, stage@ + e.text()),
{
    McpHealthUpdate {
        last_seen_at: None,
        last_error: Some(text2(stage, e.message().as_str())),
        discovered_tools: None,
    }
}

/// A refresh that is under way.
#[derive(Debug)]
pub struct RefreshRun {
    credentialed: bool,
    rows: Vec<McpServerRecord>,
    current: Option<McpServerRecord>,
    stage: RefreshStage,
    prior: Vec<ConnectedServer>,
    tools: Vec<McpTool>,
    servers: Vec<ConnectedServer>,
}

impl RefreshRun {
    /// Whether servers may have credentials.
    pub closed spec fn credentialed(self) -> bool {
        self.credentialed
    }

    /// The servers still to go through.
    pub closed spec fn rows(self) -> Seq<McpServerRecord> {
        self.rows@
    }

    /// The server that is being gone through.
    pub closed spec fn current(self) -> Option<McpServerRecord> {
        self.current
    }

    /// Where the refresh stands.
    pub closed spec fn stage(self) -> RefreshStage {
        self.stage
    }

    /// The connections that were held before and are not taken over yet.
    pub closed spec fn prior(self) -> Seq<ConnectedServer> {
        self.prior@
    }

    /// The tools that were collected.
    pub closed spec fn tools(self) -> Seq<ToolView> {
        views(self.tools@)
    }

    /// The servers that were gone through without a failure.
    pub closed spec fn servers(self) -> Seq<ConnectedServer> {
        self.servers@
    }

    /// A server is being gone through exactly between its start and its end, no
    /// two tools share a name, and no server is listed twice.
    pub open spec fn wf(self) -> bool {
        &&& self.current() is None <==> self.stage() == RefreshStage::Between
        &&& names_differ(self.tools())
        &&& servers_differ(self.prior())
        &&& servers_differ(self.servers())
    }

    /// Whether `reply` answers what the refresh last asked for.
    pub open spec fn expects(self, reply: RefreshReply) -> bool {
        match self.stage() {
            RefreshStage::Between => reply is Proceed,
            RefreshStage::Loading => reply is Credentials,
            RefreshStage::Connecting => reply is Connected,
            RefreshStage::Listing => reply is Listed,
        }
    }

    /// The run after the server that is being gone through was left out.
    pub open spec fn left_out(self, after: RefreshRun) -> bool {
        &&& after.stage() == RefreshStage::Between
        &&& after.current() is None
        &&& after.tools() == self.tools()
        &&& after.servers() == self.servers()
        &&& after.rows() == self.rows()
    }

    /// What is done with the server `row` once its credentials are known.
    pub open spec fn settles(
        self,
        row: McpServerRecord,
        credentials: Option<CredentialPayload>,
        after: RefreshRun,
        action: RefreshAction,
    ) -> bool {
        &&& after.prior() == without(self.prior(), row.id)
        &&& after.tools() == self.tools()
        &&& after.servers() == self.servers()
        &&& after.current() == Some(row)
        &&& if reusable(self.prior(), row, credentials) {
            &&& after.stage() == RefreshStage::Listing
            &&& action == (RefreshAction::ListTools { id: row.id })
        } else {
            &&& after.stage() == RefreshStage::Connecting
            &&& action == (RefreshAction::Connect { id: row.id, config: row.config, credentials })
        }
    }

    /// What `reply` leads to: the run after it, and the action that is next.
    pub open spec fn steps(self, reply: RefreshReply, after: RefreshRun, action: RefreshAction) -> bool {
        &&& after.credentialed() == self.credentialed()
        &&& match reply {
            RefreshReply::Proceed => if self.rows().len() == 0 {
                &&& action is Finish
                &&& after.prior() == self.prior()
                &&& self.left_out(after)
            } else {
                let row = self.rows()[0];
                &&& after.rows() == self.rows().drop_first()
                &&& if self.credentialed() {
                    &&& action == (RefreshAction::LoadCredentials { id: row.id, org_id: row.org_id })
                    &&& after.stage() == RefreshStage::Loading
                    &&& after.current() == Some(row)
                    &&& after.prior() == self.prior()
                    &&& after.tools() == self.tools()
                    &&& after.servers() == self.servers()
                } else {
                    self.settles(row, None, after, action)
                }
            },
            RefreshReply::Credentials(Err(e)) => {
                let row = self.current()->0;
                &&& action matches RefreshAction::Record { id, org_id, health }
                &&& id == row.id
                &&& org_id == row.org_id
                &&& records_failure(health, "credentials: "@ + e.text())
                &&& after.prior() == self.prior()
                &&& self.left_out(after)
            },
            RefreshReply::Credentials(Ok(credentials)) => {
                &&& after.rows() == self.rows()
                &&& self.settles(self.current()->0, credentials, after, action)
            },
            RefreshReply::Connected(Err(e)) => {
                let row = self.current()->0;
                &&& action matches RefreshAction::Record { id, org_id, health }
                &&& id == row.id
                &&& org_id == row.org_id
                &&& records_failure(health, "connect: "@ + e.text())
                &&& after.prior() == self.prior()
                &&& self.left_out(after)
            },
            RefreshReply::Connected(Ok(_)) => {
                &&& action == (RefreshAction::ListTools { id: self.current()->0.id })
                &&& after.stage() == RefreshStage::Listing
                &&& after.current() == self.current()
                &&& after.rows() == self.rows()
                &&& after.prior() == self.prior()
                &&& after.tools() == self.tools()
                &&& after.servers() == self.servers()
            },
            RefreshReply::Listed(Err(e), _) => {
                let row = self.current()->0;
                &&& action matches RefreshAction::Record { id, org_id, health }
                &&& id == row.id
                &&& org_id == row.org_id
                &&& records_failure(health, "list_tools: "@ + e.text())
                &&& after.prior() == self.prior()
                &&& self.left_out(after)
            },
            RefreshReply::Listed(Ok(listed), now) => {
                let row = self.current()->0;
                let kept = if listed@.len() > MAX_TOOLS_PER_SERVER {
                    listed@.take(MAX_TOOLS_PER_SERVER as int)
                } else {
                    listed@
                };
                &&& action matches RefreshAction::Record { id, org_id, health }
                &&& id == row.id
                &&& org_id == row.org_id
                &&& health.last_seen_at == Some(now)
                &&& health.last_error is None
                &&& health.discovered_tools matches Some(found) && all_discovered(
                    row.alias@,
                    joining(row.id, row.alias@, kept, self.tools()),
                    found@,
                )
                &&& after.tools() == ingested(row.id, row.alias@, kept, self.tools())
                &&& after.servers() == without(self.servers(), row.id).push(
                    ConnectedServer { id: row.id, config: row.config },
                )
                &&& after.stage() == RefreshStage::Between
                &&& after.current() is None
                &&& after.rows() == self.rows()
                &&& after.prior() == self.prior()
            },
        }
    }

    /// Goes on with `row`, whose credentials are known.
    fn settle(&mut self, row: McpServerRecord, credentials: Option<CredentialPayload>) -> (action:
        RefreshAction)
        requires
            old(self).wf(),
        ensures
            final(self).wf(),
            final(self).rows() == old(self).rows(),
            final(self).credentialed() == old(self).credentialed(),
            old(self).settles(row, credentials, *final(self), action),
    {
        let prev = take_server(&mut self.prior, row.id);
        let serves = match &prev {
            Some(s) => s.config.same(&row.config) && credentials.is_none(),
            None => false,
        };
        proof {
            let all = old(self).prior();
            if prev is Some {
                let s = prev->0;
                let i = choose|i: int| 0 <= i < all.len() && all[i] == s;
                assert(all[i].id == row.id);
                assert(serves == reusable(all, row, credentials)) by {
                    if reusable(all, row, credentials) {
                        let j = choose|j: int|
                            {
                                &&& 0 <= j < all.len()
                                &&& (#[trigger] all[j]).id == row.id
                                &&& all[j].config.url() == row.config.url()
                            };
                        if j < i {
                            assert(all[j].id != all[i].id);
                        } else if i < j {
                            assert(all[i].id != all[j].id);
                        }
                    }
                }
            }
        }
        let id = row.id;
        if serves {
            self.current = Some(row);
            self.stage = RefreshStage::Listing;
            return RefreshAction::ListTools { id };
        }
        let config = row.config.clone();
        self.current = Some(row);
        self.stage = RefreshStage::Connecting;
        RefreshAction::Connect { id, config, credentials }
    }

    /// Leaves the server that is being gone through out.
    fn leave_out(&mut self, health: McpHealthUpdate) -> (action: RefreshAction)
        requires
            old(self).wf(),
            old(self).current() is Some,
        ensures
            final(self).wf(),
            final(self).credentialed() == old(self).credentialed(),
            final(self).prior() == old(self).prior(),
            old(self).left_out(*final(self)),
            action == (RefreshAction::Record {
                id: old(self).current()->0.id,
                org_id: old(self).current()->0.org_id,
                health,
            }),
    {
        let row = self.current.take();
        self.stage = RefreshStage::Between;
        match row {
            Some(row) => RefreshAction::Record { id: row.id, org_id: row.org_id, health },
            None => RefreshAction::Finish,
        }
    }

    /// Adds the tools that the server that is being gone through listed.
    fn take_in(&mut self, listed: Vec<RemoteTool>, now: Timestamp) -> (action: RefreshAction)
        requires
            old(self).wf(),
            old(self).current() is Some,
        ensures
            final(self).wf(),
            old(self).steps(RefreshReply::Listed(Ok(listed), now), *final(self), action),
    {
        let ghost have = self.tools();
        let row = self.current.take();
        self.stage = RefreshStage::Between;
        match row {
            Some(row) => {
                let found = ingest_tools(row.id, &row.alias, &listed, &mut self.tools);
                let _ = take_server(&mut self.servers, row.id);
                let ghost others = self.servers@;
                self.servers.push(ConnectedServer { id: row.id, config: row.config });
                proof {
                    let kept = if listed@.len() > MAX_TOOLS_PER_SERVER {
                        listed@.take(MAX_TOOLS_PER_SERVER as int)
                    } else {
                        listed@
                    };
                    lemma_ingested_names(row.id, row.alias@, kept, have);
                    lemma_without(old(self).servers(), row.id);
                    assert forall|i: int, j: int| 0 <= i < j < self.servers@.len() implies (
                    #[trigger] self.servers@[i]).id != (#[trigger] self.servers@[j]).id by {
                        assert(self.servers@[i] == others[i]);
                        if j < others.len() {
                            assert(self.servers@[j] == others[j]);
                        }
                    }
                }
                RefreshAction::Record {
                    id: row.id,
                    org_id: row.org_id,
                    health: McpHealthUpdate {
                        last_seen_at: Some(now),
                        last_error: None,
                        discovered_tools: Some(found),
                    },
                }
            },
            None => RefreshAction::Finish,
        }
    }

    /// Takes what came of the action before, and says what is to be done next.
    pub fn advance(&mut self, reply: RefreshReply) -> (action: RefreshAction)
        requires
            old(self).wf(),
            old(self).expects(reply),
        ensures
            final(self).wf(),
            old(self).steps(reply, *final(self), action),
    {
        match reply {
            RefreshReply::Proceed => {
                if self.rows.len() == 0 {
                    return RefreshAction::Finish;
                }
                let ghost rows = self.rows@;
                let row = self.rows.remove(0);
                proof {
                    assert(self.rows@ =~= rows.drop_first());
                }
                if !self.credentialed {
                    return self.settle(row, None);
                }
                let id = row.id;
                let org_id = row.org_id;
                self.current = Some(row);
                self.stage = RefreshStage::Loading;
                RefreshAction::LoadCredentials { id, org_id }
            },
            RefreshReply::Credentials(Err(e)) => {
                let health = failure("credentials: ", &e);
                self.leave_out(health)
            },
            RefreshReply::Credentials(Ok(credentials)) => {
                match self.current.take() {
                    Some(row) => {
                        self.stage = RefreshStage::Between;
                        self.settle(row, credentials)
                    },
                    None => RefreshAction::Finish,
                }
            },
            RefreshReply::Connected(Err(e)) => {
                let health = failure("connect: ", &e);
                self.leave_out(health)
            },
            RefreshReply::Connected(Ok(_)) => {
                self.stage = RefreshStage::Listing;
                match &self.current {
                    Some(row) => RefreshAction::ListTools { id: row.id },
                    None => RefreshAction::Finish,
                }
            },
            RefreshReply::Listed(Err(e), _) => {
                let health = failure("list_tools: ", &e);
                self.leave_out(health)
            },
            RefreshReply::Listed(Ok(listed), now) => self.take_in(listed, now),
        }
    }
}

/// None of the servers other than `id` is `id`.
proof fn lemma_without(servers: Seq<ConnectedServer>, id: McpServerId)
    ensures
        forall|i: int|
            0 <= i < without(servers, id).len() ==> (#[trigger] without(servers, id)[i]).id != id,
    decreases servers.len(),
{
    reveal(Seq::filter);
    let p = |s: ConnectedServer| s.id != id;
    if servers.len() > 0 {
        lemma_without(servers.drop_last(), id);
        let before = servers.drop_last().filter(p);
        assert(before == without(servers.drop_last(), id));
        assert forall|i: int| 0 <= i < without(servers, id).len() implies (
        #[trigger] without(servers, id)[i]).id != id by {
            if i < before.len() {
                assert(without(servers, id)[i] == before[i]);
            }
        }
    }
}

/// A server that fails leaves the tools and connections of the others as they
/// are, and the refresh goes on to the next server.
pub proof fn law_failures_are_isolated(
    run: RefreshRun,
    reply: RefreshReply,
    after: RefreshRun,
    action: RefreshAction,
)
    requires
        run.steps(reply, after, action),
        match reply {
            RefreshReply::Credentials(r) => r is Err,
            RefreshReply::Connected(r) => r is Err,
            RefreshReply::Listed(r, _) => r is Err,
            RefreshReply::Proceed => false,
        },
    ensures
        after.tools() == run.tools(),
        after.servers() == run.servers(),
        after.rows() == run.rows(),
        after.expects(RefreshReply::Proceed),
{
}

/// The tools that were collected before stay, and keep their names: whatever a
/// later server lists, it takes none over.
pub proof fn law_first_tool_keeps_the_name(
    server: McpServerId,
    alias: Seq<char>,
    listed: Seq<RemoteTool>,
    have: Seq<ToolView>,
)
    ensures
        have.is_prefix_of(ingested(server, alias, listed, have)),
    decreases listed.len(),
{
    if listed.len() > 0 {
        law_first_tool_keeps_the_name(server, alias, listed.drop_last(), have);
    } else {
        assert(have.is_prefix_of(have));
    }
}

/// Every tool that a server adds is called `mcp_<alias>_<remote>`, and that is a
/// tool name.
pub proof fn law_added_tools_are_prefixed(
    server: McpServerId,
    alias: Seq<char>,
    listed: Seq<RemoteTool>,
    have: Seq<ToolView>,
    i: int,
)
    requires
        have.len() <= i < ingested(server, alias, listed, have).len(),
    ensures
        ({
            let t = ingested(server, alias, listed, have)[i];
            &&& t.server == server
            &&& t.name == prefixed(alias, t.remote_name)
            &&& tool_name_error(t.name) is None
        }),
    decreases listed.len(),
{
    if listed.len() > 0 {
        if i < ingested(server, alias, listed.drop_last(), have).len() {
            law_added_tools_are_prefixed(server, alias, listed.drop_last(), have, i);
        }
    }
}

/// Every tool that a listing adds carries what its server listed: the name, the
/// schema of the input, and the description where there is one.
pub proof fn law_tools_are_offered_as_listed(
    server: McpServerId,
    alias: Seq<char>,
    listed: Seq<RemoteTool>,
    have: Seq<ToolView>,
    i: int,
)
    requires
        have.len() <= i < ingested(server, alias, listed, have).len(),
    ensures
        exists|k: int|
            {
                let t = ingested(server, alias, listed, have)[i];
                let remote = #[trigger] listed[k];
                &&& 0 <= k < listed.len()
                &&& t.server == server
                &&& t.name == "mcp_"@ + alias + "_"@ + remote.name@
                &&& t.remote_name == remote.name@
                &&& t.schema == remote.input_schema@
                &&& remote.description matches Some(d) ==> t.description == d@
                &&& remote.description is None ==> t.description == "(no description provided)"@
            },
{
    lemma_added_tools_carry(server, alias, listed, have, i);
    let k = choose|k: int|
        0 <= k < listed.len() && carries(
            ingested(server, alias, listed, have)[i],
            server,
            alias,
            #[trigger] listed[k],
        );
    assert(carries(ingested(server, alias, listed, have)[i], server, alias, listed[k]));
}

proof fn lemma_added_tools_carry(
    server: McpServerId,
    alias: Seq<char>,
    listed: Seq<RemoteTool>,
    have: Seq<ToolView>,
    i: int,
)
    requires
        have.len() <= i < ingested(server, alias, listed, have).len(),
    ensures
        exists|k: int|
            0 <= k < listed.len() && carries(
                ingested(server, alias, listed, have)[i],
                server,
                alias,
                #[trigger] listed[k],
            ),
    decreases listed.len(),
{
    if listed.len() > 0 {
        let n = listed.len() - 1;
        let rest = listed.drop_last();
        let before = ingested(server, alias, rest, have);
        if i < before.len() {
            lemma_added_tools_carry(server, alias, rest, have, i);
            let k = choose|k: int|
                0 <= k < rest.len() && carries(before[i], server, alias, #[trigger] rest[k]);
            assert(listed[k] == rest[k]);
        } else {
            assert(carries(ingested(server, alias, listed, have)[i], server, alias, listed[n]));
        }
    }
}

/// `t` is the tool that `server` lists as `remote`.
pub open spec fn carries(
    t: ToolView,
    server: McpServerId,
    alias: Seq<char>,
    remote: RemoteTool,
) -> bool {
    &&& t.server == server
    &&& t.name == "mcp_"@ + alias + "_"@ + remote.name@
    &&& t.remote_name == remote.name@
    &&& t.schema == remote.input_schema@
    &&& remote.description matches Some(d) ==> t.description == d@
    &&& remote.description is None ==> t.description == "(no description provided)"@
}

/// Every tool that a server lists under a name that makes a tool name is offered under
/// it: by that server, as it is listed, where no tool has the name yet and the server
/// did not list it before.
pub proof fn law_every_listed_tool_is_offered(
    server: McpServerId,
    alias: Seq<char>,
    listed: Seq<RemoteTool>,
    have: Seq<ToolView>,
    k: int,
)
    requires
        0 <= k < listed.len(),
        tool_name_error("mcp_"@ + alias + "_"@ + listed[k].name@) is None,
    ensures
        exists|i: int|
            0 <= i < ingested(server, alias, listed, have).len() && (#[trigger] ingested(
                server,
                alias,
                listed,
                have,
            )[i]).name == "mcp_"@ + alias + "_"@ + listed[k].name@,
        ({
            &&& forall|i: int|
                0 <= i < have.len() ==> (#[trigger] have[i]).name != "mcp_"@ + alias + "_"@
                    + listed[k].name@
            &&& forall|j: int| 0 <= j < k ==> (#[trigger] listed[j]).name@ != listed[k].name@
        }) ==> exists|i: int|
            have.len() <= i < ingested(server, alias, listed, have).len() && carries(
                #[trigger] ingested(server, alias, listed, have)[i],
                server,
                alias,
                listed[k],
            ),
    decreases listed.len(),
{
    let n = listed.len() - 1;
    let rest = listed.drop_last();
    let before = ingested(server, alias, rest, have);
    let after = ingested(server, alias, listed, have);
    let name = "mcp_"@ + alias + "_"@ + listed[k].name@;
    let new = (forall|i: int| 0 <= i < have.len() ==> (#[trigger] have[i]).name != name) && (forall|
        j: int,
    | 0 <= j < k ==> (#[trigger] listed[j]).name@ != listed[k].name@);
    law_first_tool_keeps_the_name(server, alias, rest, have);
    law_first_tool_keeps_the_name(server, alias, listed, have);
    if k < n {
        assert(rest[k] == listed[k]);
        law_every_listed_tool_is_offered(server, alias, rest, have, k);
        let i = choose|i: int| 0 <= i < before.len() && (#[trigger] before[i]).name == name;
        assert(after[i] == before[i]);
        if new {
            assert forall|j: int| 0 <= j < k implies (#[trigger] rest[j]).name@
                != rest[k].name@ by {
                assert(rest[j] == listed[j]);
            }
            let c = choose|c: int|
                have.len() <= c < before.len() && carries(
                    #[trigger] before[c],
                    server,
                    alias,
                    rest[k],
                );
            assert(after[c] == before[c]);
            assert(carries(after[c], server, alias, listed[k]));
        }
    } else if has_tool(before, name) {
        let i = choose|i: int| 0 <= i < before.len() && (#[trigger] before[i]).name == name;
        assert(after[i] == before[i]);
        if new {
            if i < have.len() {
                assert(have[i] == before[i]);
            } else {
                lemma_added_tools_carry(server, alias, rest, have, i);
                let j = choose|j: int|
                    0 <= j < rest.len() && carries(before[i], server, alias, #[trigger] rest[j]);
                assert(rest[j] == listed[j]);
                lemma_same_prefix("mcp_"@ + alias + "_"@, listed[j].name@, listed[k].name@);
            }
            assert(false);
        }
    } else {
        assert(after.len() == before.len() + 1);
        assert(carries(after[before.len() as int], server, alias, listed[k]));
    }
}

proof fn lemma_same_prefix(head: Seq<char>, a: Seq<char>, b: Seq<char>)
    requires
        head + a == head + b,
    ensures
        a == b,
{
    assert((head + a).skip(head.len() as int) =~= a);
    assert((head + b).skip(head.len() as int) =~= b);
}

/// What is recorded of a listing is what was added, one entry for each tool and in
/// their order.
pub proof fn law_record_tells_what_was_added(
    server: McpServerId,
    alias: Seq<char>,
    listed: Seq<RemoteTool>,
    have: Seq<ToolView>,
    found: Seq<DiscoveredTool>,
)
    requires
        all_discovered(alias, joining(server, alias, listed, have), found),
    ensures
        found.len() == ingested(server, alias, listed, have).len() - have.len(),
        forall|j: int|
            0 <= j < found.len() ==> {
                let t = ingested(server, alias, listed, have)[have.len() + j];
                &&& (#[trigger] found[j]).remote_name@ == t.remote_name
                &&& found[j].prefixed_name@ == t.name
                &&& found[j].description matches Some(d) ==> t.description == d@
                &&& found[j].description is None ==> t.description == "(no description provided)"@
            },
    decreases listed.len(),
{
    if listed.len() > 0 {
        let rest = listed.drop_last();
        let before = ingested(server, alias, rest, have);
        let joined = joining(server, alias, rest, have);
        let remote = listed.last();
        if joins(alias, remote, before) {
            let less = found.drop_last();
            assert forall|i: int| 0 <= i < less.len() implies discovers(
                alias,
                joined[i],
                #[trigger] less[i],
            ) by {
                assert(found[i] == less[i]);
                assert(joining(server, alias, listed, have)[i] == joined[i]);
            }
            law_record_tells_what_was_added(server, alias, rest, have, less);
            assert(discovers(alias, remote, found[found.len() - 1]));
            assert forall|j: int| 0 <= j < found.len() implies {
                let t = ingested(server, alias, listed, have)[have.len() + j];
                &&& (#[trigger] found[j]).remote_name@ == t.remote_name
                &&& found[j].prefixed_name@ == t.name
                &&& found[j].description matches Some(d) ==> t.description == d@
                &&& found[j].description is None ==> t.description == "(no description provided)"@
            } by {
                if j < less.len() {
                    assert(found[j] == less[j]);
                }
            }
        } else {
            law_record_tells_what_was_added(server, alias, rest, have, found);
        }
    }
}

/// What a server lists reaches the model: once the run is installed, the model is
/// offered the tool with the schema and the description that the server listed, and
/// a call of it goes back to that server under the name that the server gave it.
pub proof fn law_listing_reaches_the_model(
    run: RefreshRun,
    listed: Vec<RemoteTool>,
    now: Timestamp,
    after: RefreshRun,
    action: RefreshAction,
    catalogue: Seq<ToolView>,
    shown: RegistrySnapshot,
    k: int,
)
    requires
        run.steps(RefreshReply::Listed(Ok(listed), now), after, action),
        same_tools(catalogue, after.tools()),
        shown.shows(catalogue),
        0 <= k < listed@.len(),
        k < MAX_TOOLS_PER_SERVER,
        tool_name_error("mcp_"@ + run.current()->0.alias@ + "_"@ + listed@[k].name@) is None,
        forall|i: int|
            0 <= i < run.tools().len() ==> (#[trigger] run.tools()[i]).name != "mcp_"@
                + run.current()->0.alias@ + "_"@ + listed@[k].name@,
        forall|j: int| 0 <= j < k ==> (#[trigger] listed@[j]).name@ != listed@[k].name@,
    ensures
        exists|c: int|
            {
                let spec = #[trigger] shown.specs@[c];
                let origin = shown.tool_origins@[c];
                &&& 0 <= c < shown.specs@.len()
                &&& spec.name@ == "mcp_"@ + run.current()->0.alias@ + "_"@ + listed@[k].name@
                &&& spec.input_schema@ == listed@[k].input_schema@
                &&& listed@[k].description matches Some(d) ==> spec.description@ == d@
                &&& origin.server == run.current()->0.id
                &&& origin.remote_name@ == listed@[k].name@
            },
{
    let row = run.current()->0;
    let kept = if listed@.len() > MAX_TOOLS_PER_SERVER {
        listed@.take(MAX_TOOLS_PER_SERVER as int)
    } else {
        listed@
    };
    assert(kept[k] == listed@[k]);
    assert forall|j: int| 0 <= j < k implies (#[trigger] kept[j]).name@ != kept[k].name@ by {
        assert(kept[j] == listed@[j]);
    }
    law_every_listed_tool_is_offered(row.id, row.alias@, kept, run.tools(), k);
    let all = ingested(row.id, row.alias@, kept, run.tools());
    let i = choose|i: int|
        run.tools().len() <= i < all.len() && carries(
            #[trigger] all[i],
            row.id,
            row.alias@,
            kept[k],
        );
    assert(after.tools().contains(all[i]));
    assert(catalogue.contains(all[i]));
    let c = choose|c: int| 0 <= c < catalogue.len() && catalogue[c] == all[i];
    assert(offers(shown.specs@[c], catalogue[c]));
    assert(originates(shown.tool_origins@[c], catalogue[c]));
}

/// A spec that offers the tool `t`.
pub open spec fn offers(spec: ToolSpec, t: ToolView) -> bool {
    &&& spec.name@ == t.name
    &&& spec.description@ == t.description
    &&& spec.input_schema@ == t.schema
}

/// Specs that offer the tools, one for each and in their order.
pub open spec fn all_offered(specs: Seq<ToolSpec>, tools: Seq<ToolView>) -> bool {
    &&& specs.len() == tools.len()
    &&& forall|i: int| 0 <= i < specs.len() ==> offers(#[trigger] specs[i], tools[i])
}

/// `o` says where `t` comes from.
pub open spec fn originates(o: ToolOrigin, t: ToolView) -> bool {
    &&& o.server == t.server
    &&& o.remote_name@ == t.remote_name
}

/// The catalogue at one moment.
#[derive(Debug)]
pub struct RegistrySnapshot {
    pub specs: Vec<ToolSpec>,
    /// Where the tool of each spec comes from.
    pub tool_origins: Vec<ToolOrigin>,
}

impl RegistrySnapshot {
    /// The snapshot shows `tools`.
    pub open spec fn shows(self, tools: Seq<ToolView>) -> bool {
        &&& all_offered(self.specs@, tools)
        &&& self.tool_origins@.len() == tools.len()
        &&& forall|i: int|
            0 <= i < tools.len() ==> originates(#[trigger] self.tool_origins@[i], tools[i])
    }
}

/// The live catalogue: the tools in the order of their names, and the servers
/// with which connections are held.
#[derive(Debug)]
pub struct McpRegistry {
    credentialed: bool,
    tools: Vec<McpTool>,
    servers: Vec<ConnectedServer>,
}

impl View for McpRegistry {
    type V = Seq<ToolView>;

    closed spec fn view(&self) -> Seq<ToolView> {
        views(self.tools@)
    }
}

impl McpRegistry {
    /// Whether servers may have credentials.
    pub closed spec fn credentialed(self) -> bool {
        self.credentialed
    }

    /// The servers with which connections are held.
    pub closed spec fn servers(self) -> Seq<ConnectedServer> {
        self.servers@
    }

    #[verifier::type_invariant]
    spec fn sorted(self) -> bool {
        &&& by_name(views(self.tools@))
        &&& servers_differ(self.servers@)
    }

    /// An empty catalogue, of servers without credentials.
    pub fn new() -> (r: McpRegistry)
        ensures
            r@ == Seq::<ToolView>::empty(),
            r.servers() == Seq::<ConnectedServer>::empty(),
            !r.credentialed(),
    {
        McpRegistry::with_credentials(false)
    }

    /// An empty catalogue. `credentialed` says whether servers may have
    /// credentials.
    pub fn with_credentials(credentialed: bool) -> (r: McpRegistry)
        ensures
            r@ == Seq::<ToolView>::empty(),
            r.servers() == Seq::<ConnectedServer>::empty(),
            r.credentialed() == credentialed,
    {
        let r = McpRegistry { credentialed, tools: Vec::new(), servers: Vec::new() };
        proof {
            assert(views(r.tools@) =~= Seq::empty());
        }
        r
    }

    /// The tools, as they are offered to a model.
    pub fn specs(&self) -> (specs: Vec<ToolSpec>)
        ensures
            all_offered(specs@, self@),
            by_name(self@),
    {
        proof {
            use_type_invariant(self);
        }
        let mut out: Vec<ToolSpec> = Vec::new();
        let mut i: usize = 0;
        while i < self.tools.len()
            invariant
                i <= self.tools@.len(),
                out@.len() == i,
                forall|j: int| 0 <= j < i ==> offers(#[trigger] out@[j], self.tools@[j]@),
            decreases self.tools.len() - i,
        {
            let t = &self.tools[i];
            out.push(
                ToolSpec {
                    name: t.name().clone(),
                    description: t.description().to_owned(),
                    input_schema: t.input_schema().to_owned(),
                },
            );
            i += 1;
        }
        out
    }

    /// The tool that is called `name`.
    pub fn get(&self, name: &str) -> (r: Option<&McpTool>)
        ensures
            match r {
                Some(t) => t@.name == name@ && self@.contains(t@),
                None => !has_tool(self@, name@),
            },
            by_name(self@),
    {
        proof {
            use_type_invariant(self);
        }
        let mut i: usize = 0;
        while i < self.tools.len()
            invariant
                i <= self.tools@.len(),
                by_name(self@),
                forall|j: int| 0 <= j < i ==> (#[trigger] self@[j]).name != name@,
            decreases self.tools.len() - i,
        {
            if text_equal(self.tools[i].name().as_str(), name) {
                proof {
                    assert(self@[i as int] == self.tools@[i as int]@);
                }
                return Some(&self.tools[i]);
            }
            i += 1;
        }
        None
    }

    /// The catalogue as it now stands.
    pub fn snapshot(&self) -> (s: RegistrySnapshot)
        ensures
            s.shows(self@),
    {
        let specs = self.specs();
        let mut tool_origins: Vec<ToolOrigin> = Vec::new();
        let mut i: usize = 0;
        while i < self.tools.len()
            invariant
                i <= self.tools@.len(),
                tool_origins@.len() == i,
                forall|j: int| 0 <= j < i ==> originates(#[trigger] tool_origins@[j], self.tools@[j]@),
            decreases self.tools.len() - i,
        {
            let t = &self.tools[i];
            tool_origins.push(
                ToolOrigin { server: t.server(), remote_name: t.remote_name().to_owned() },
            );
            i += 1;
        }
        RegistrySnapshot { specs, tool_origins }
    }

    /// The tool that is called `name`, and where it comes from.
    pub fn lookup(&self, name: &str) -> (r: Option<(&McpTool, ToolOrigin)>)
        ensures
            match r {
                Some((t, o)) => {
                    &&& t@.name == name@
                    &&& self@.contains(t@)
                    &&& originates(o, t@)
                },
                None => !has_tool(self@, name@),
            },
            by_name(self@),
    {
        match self.get(name) {
            Some(t) => Some(
                (t, ToolOrigin { server: t.server(), remote_name: t.remote_name().to_owned() }),
            ),
            None => None,
        }
    }

    /// How many tools there are.
    pub fn len(&self) -> (n: usize)
        ensures
            n == self@.len(),
    {
        self.tools.len()
    }

    /// Whether there is no tool.
    pub fn is_empty(&self) -> (r: bool)
        ensures
            r == (self@.len() == 0),
    {
        self.len() == 0
    }

    /// Whether a connection is held with the server `id`.
    pub fn holds(&self, id: McpServerId) -> (r: bool)
        ensures
            r == exists|i: int| 0 <= i < self.servers().len() && (#[trigger] self.servers()[i]).id == id,
    {
        let mut i: usize = 0;
        while i < self.servers.len()
            invariant
                i <= self.servers@.len(),
                forall|j: int| 0 <= j < i ==> (#[trigger] self.servers()[j]).id != id,
            decreases self.servers.len() - i,
        {
            if self.servers[i].id.0 == id.0 {
                proof {
                    assert(self.servers()[i as int].id == id);
                }
                return true;
            }
            i += 1;
        }
        false
    }

    /// Starts a refresh over the enabled servers `rows`, at most
    /// [`MAX_MCP_SERVERS`] of them. The tools stay as they are until the refresh
    /// is installed; the connections are handed to it.
    pub fn refresh(&mut self, rows: Vec<McpServerRecord>) -> (run: RefreshRun)
        ensures
            run.wf(),
            run.stage() == RefreshStage::Between,
            run.rows() == if rows@.len() > MAX_MCP_SERVERS {
                rows@.take(MAX_MCP_SERVERS as int)
            } else {
                rows@
            },
            run.prior() == old(self).servers(),
            run.tools() == Seq::<ToolView>::empty(),
            run.servers() == Seq::<ConnectedServer>::empty(),
            run.credentialed() == old(self).credentialed(),
            final(self)@ == old(self)@,
            final(self).servers() == Seq::<ConnectedServer>::empty(),
            final(self).credentialed() == old(self).credentialed(),
    {
        proof {
            use_type_invariant(&*self);
        }
        let mut rows = rows;
        if rows.len() > MAX_MCP_SERVERS {
            rows.truncate(MAX_MCP_SERVERS);
        }
        let mut prior: Vec<ConnectedServer> = Vec::new();
        std::mem::swap(&mut prior, &mut self.servers);
        let tools: Vec<McpTool> = Vec::new();
        proof {
            assert(views(tools@) =~= Seq::empty());
        }
        RefreshRun {
            credentialed: self.credentialed,
            rows,
            current: None,
            stage: RefreshStage::Between,
            prior,
            tools,
            servers: Vec::new(),
        }
    }

    /// Puts what a finished refresh collected in the place of the catalogue.
    pub fn install(&mut self, run: RefreshRun)
        requires
            run.wf(),
            run.stage() == RefreshStage::Between,
            run.rows().len() == 0,
        ensures
            by_name(final(self)@),
            same_tools(final(self)@, run.tools()),
            final(self).servers() == run.servers(),
            final(self).credentialed() == run.credentialed(),
    {
        let tools = sort_tools(run.tools);
        *self = McpRegistry { credentialed: run.credentialed, tools, servers: run.servers };
    }
}

/// Credentials that were loaded are what the server is connected with, at its own transport: a
/// connection that was held is used again only where there are none, and only for the same
/// server and URL.
pub proof fn law_credentials_reach_the_connection(
    run: RefreshRun,
    credentials: Option<CredentialPayload>,
    after: RefreshRun,
    action: RefreshAction,
)
    requires
        run.steps(RefreshReply::Credentials(Ok(credentials)), after, action),
    ensures
        credentials is Some ==> action == (RefreshAction::Connect {
            id: run.current()->0.id,
            config: run.current()->0.config,
            credentials,
        }),
        action is Connect || action == (RefreshAction::ListTools { id: run.current()->0.id }),
        action is ListTools ==> credentials is None && exists|i: int|
            0 <= i < run.prior().len() && (#[trigger] run.prior()[i]).id == run.current()->0.id
                && run.prior()[i].config.url() == run.current()->0.config.url(),
        run.current() is Some ==> after.current() == run.current(),
{
}

/// Every server is gone through, in the order of the rows: the next one is taken up until none
/// is left, and only then the refresh ends.
pub proof fn law_every_server_is_gone_through(
    run: RefreshRun,
    after: RefreshRun,
    action: RefreshAction,
)
    requires
        run.steps(RefreshReply::Proceed, after, action),
    ensures
        action is Finish <==> run.rows().len() == 0,
        run.rows().len() > 0 ==> {
            &&& after.current() == Some(run.rows()[0])
            &&& after.rows().len() == run.rows().len() - 1
            &&& forall|i: int|
                0 <= i < after.rows().len() ==> #[trigger] after.rows()[i] == run.rows()[i + 1]
        },
        run.rows().len() > 0 && run.credentialed() ==> action == (RefreshAction::LoadCredentials {
            id: run.rows()[0].id,
            org_id: run.rows()[0].org_id,
        }),
        after.tools() == run.tools(),
{
}

/// What is recorded of a server is what came of it, under its own id: a listing that it was
/// seen, when, and without error; a failure which step failed and why, and that it was not
/// seen.
pub proof fn law_outcome_is_recorded(
    run: RefreshRun,
    reply: RefreshReply,
    after: RefreshRun,
    action: RefreshAction,
)
    requires
        run.steps(reply, after, action),
    ensures
        reply matches RefreshReply::Listed(Ok(_), now) ==> (action matches RefreshAction::Record {
            id,
            org_id,
            health,
        } && id == run.current()->0.id && org_id == run.current()->0.org_id
            && health.last_seen_at == Some(now) && health.last_error is None
            && health.discovered_tools is Some),
        reply matches RefreshReply::Listed(Err(e), _) ==> (action matches RefreshAction::Record {
            id,
            org_id,
            health,
        } && id == run.current()->0.id && org_id == run.current()->0.org_id
            && health.last_seen_at is None && health.discovered_tools is None
            && health.last_error is Some && health.last_error->0@ == "list_tools: "@ + e.text()),
        reply matches RefreshReply::Connected(Err(e)) ==> (action matches RefreshAction::Record {
            id,
            org_id,
            health,
        } && id == run.current()->0.id && org_id == run.current()->0.org_id
            && health.last_seen_at is None && health.discovered_tools is None
            && health.last_error is Some && health.last_error->0@ == "connect: "@ + e.text()),
        reply matches RefreshReply::Credentials(Err(e)) ==> (action matches RefreshAction::Record {
            id,
            org_id,
            health,
        } && id == run.current()->0.id && org_id == run.current()->0.org_id
            && health.last_seen_at is None && health.discovered_tools is None
            && health.last_error is Some && health.last_error->0@ == "credentials: "@ + e.text()),
{
}

/// A server that listed its tools is held from then on, once, with the transport that it was
/// reached by; and the others that were gone through stay held.
pub proof fn law_listed_server_is_held(
    run: RefreshRun,
    listed: Vec<RemoteTool>,
    now: Timestamp,
    after: RefreshRun,
    action: RefreshAction,
    other: ConnectedServer,
)
    requires
        run.steps(RefreshReply::Listed(Ok(listed), now), after, action),
        run.servers().contains(other),
        other.id != run.current()->0.id,
    ensures
        after.servers().contains(
            ConnectedServer { id: run.current()->0.id, config: run.current()->0.config },
        ),
        after.servers().contains(other),
        after.tools().len() <= run.tools().len() + 64,
{
    let row = run.current()->0;
    let p = |s: ConnectedServer| s.id != row.id;
    let rest = without(run.servers(), row.id);
    let k = choose|k: int| 0 <= k < run.servers().len() && run.servers()[k] == other;
    run.servers().lemma_filter_contains(p, k);
    let n = choose|n: int| 0 <= n < rest.len() && rest[n] == other;
    assert(after.servers()[n] == other);
    assert(after.servers()[rest.len() as int] == (ConnectedServer {
        id: row.id,
        config: row.config,
    }));
    let kept = if listed@.len() > MAX_TOOLS_PER_SERVER {
        listed@.take(MAX_TOOLS_PER_SERVER as int)
    } else {
        listed@
    };
    lemma_ingested_len(row.id, row.alias@, kept, run.tools());
}

proof fn lemma_ingested_len(
    server: McpServerId,
    alias: Seq<char>,
    listed: Seq<RemoteTool>,
    have: Seq<ToolView>,
)
    ensures
        ingested(server, alias, listed, have).len() <= have.len() + listed.len(),
    decreases listed.len(),
{
    if listed.len() > 0 {
        lemma_ingested_len(server, alias, listed.drop_last(), have);
    }
}

/// A model is offered each tool of the catalogue with its own name, description and schema,
/// and each offered tool is traced to the server that runs it and the name it has there.
pub proof fn law_catalogue_is_offered_as_it_is(
    shown: RegistrySnapshot,
    catalogue: Seq<ToolView>,
    i: int,
)
    requires
        shown.shows(catalogue),
        0 <= i < catalogue.len(),
    ensures
        shown.specs@.len() == catalogue.len(),
        shown.tool_origins@.len() == catalogue.len(),
        shown.specs@[i].name@ == catalogue[i].name,
        shown.specs@[i].description@ == catalogue[i].description,
        shown.specs@[i].input_schema@ == catalogue[i].schema,
        shown.tool_origins@[i].server == catalogue[i].server,
        shown.tool_origins@[i].remote_name@ == catalogue[i].remote_name,
{
    assert(offers(shown.specs@[i], catalogue[i]));
    assert(originates(shown.tool_origins@[i], catalogue[i]));
}

/// A connection that was held is handed over once: with the server it belongs to it leaves what
/// is held over, and no other does.
pub proof fn law_held_connections_are_handed_over_once(
    run: RefreshRun,
    row: McpServerRecord,
    credentials: Option<CredentialPayload>,
    after: RefreshRun,
    action: RefreshAction,
    s: ConnectedServer,
)
    requires
        run.settles(row, credentials, after, action),
    ensures
        s.id == row.id ==> !after.prior().contains(s),
        s.id != row.id ==> (after.prior().contains(s) <==> run.prior().contains(s)),
        after.tools() == run.tools(),
        after.servers() == run.servers(),
        after.current() == Some(row),
{
    let p = |x: ConnectedServer| x.id != row.id;
    let all = run.prior();
    if all.filter(p).contains(s) {
        all.lemma_filter_contains_rev(p, s);
        let k = choose|k: int| 0 <= k < all.filter(p).len() && all.filter(p)[k] == s;
        all.lemma_filter_pred(p, k);
    }
    if s.id != row.id && all.contains(s) {
        let k = choose|k: int| 0 <= k < all.len() && all[k] == s;
        all.lemma_filter_contains(p, k);
    }
}

/// What is held over stays held until its own server comes: an answer of another server, a
/// failure or the end of the list takes nothing of it.
pub proof fn law_held_connections_wait_for_their_server(
    run: RefreshRun,
    reply: RefreshReply,
    after: RefreshRun,
    action: RefreshAction,
)
    requires
        run.steps(reply, after, action),
    ensures
        reply is Connected || reply is Listed ==> after.prior() == run.prior(),
        reply matches RefreshReply::Credentials(read) && read is Err ==> after.prior()
            == run.prior(),
        reply is Proceed && (run.rows().len() == 0 || run.credentialed()) ==> after.prior()
            == run.prior(),
        after.credentialed() == run.credentialed(),
{
}

/// A name is taken exactly where some tool has it.
pub proof fn law_names_are_taken_by_tools(tools: Seq<ToolView>, t: ToolView, name: Seq<char>)
    ensures
        !has_tool(Seq::empty(), name),
        has_tool(tools.push(t), name) <==> has_tool(tools, name) || t.name == name,
{
    let more = tools.push(t);
    assert(more[tools.len() as int] == t);
    if has_tool(tools, name) {
        let i = choose|i: int| 0 <= i < tools.len() && (#[trigger] tools[i]).name == name;
        assert(more[i] == tools[i]);
    }
    if has_tool(more, name) {
        let i = choose|i: int| 0 <= i < more.len() && (#[trigger] more[i]).name == name;
        if i < tools.len() {
            assert(tools[i] == more[i]);
        }
    }
}

} // verus!
