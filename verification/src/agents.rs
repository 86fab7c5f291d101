//! Agents, and what they may use.

use crate::ids::{uuid_text, AgentId, McpServerId};
use crate::mcp::types::McpToolRemoteName;
use crate::text::{blank, text2, text3, text_equal, utf8_len};
use crate::time::Timestamp;
use crate::types::{check_text, text_error, ParseError};
use vstd::prelude::*;
use vstd::std_specs::convert::TryFromSpecImpl;

verus! {

/// Maximum bytes of the name of an agent.
pub const AGENT_NAME_MAX_BYTES: usize = 64;

/// Maximum bytes of the system prompt of an agent.
pub const AGENT_SYSTEM_PROMPT_MAX_BYTES: usize = 32768;

/// Maximum bytes of the description of an agent.
pub const AGENT_DESCRIPTION_MAX_BYTES: usize = 512;

/// How many servers the allowlist of an agent may hold.
pub const MAX_ALLOWED_MCP_SERVERS: usize = 32;

/// The name of an agent.
#[derive(Debug)]
pub struct AgentName {
    text: String,
}

impl View for AgentName {
    type V = Seq<char>;

    closed spec fn view(&self) -> Seq<char> {
        self.text@
    }
}

impl AgentName {
    /// What is wrong with `s` as a value of this type.
    pub open spec fn refusal(s: Seq<char>) -> Option<ParseError> {
        text_error(s, "agent_name", AGENT_NAME_MAX_BYTES)
    }

    #[verifier::type_invariant]
    spec fn checked(self) -> bool {
        AgentName::refusal(self.text@) is None
    }

    /// The text.
    pub fn as_str(&self) -> (s: &str)
        ensures
            s@ == self@,
            AgentName::refusal(self@) is None,
    {
        proof {
            use_type_invariant(self);
        }
        self.text.as_str()
    }
}

impl Clone for AgentName {
    fn clone(&self) -> (r: AgentName)
        ensures
            r == *self,
    {
        proof {
            use_type_invariant(self);
        }
        AgentName { text: self.text.clone() }
    }
}

impl TryFrom<&str> for AgentName {
    type Error = ParseError;

    fn try_from(raw: &str) -> (r: Result<AgentName, ParseError>)
        ensures
            match r {
                Ok(v) => AgentName::refusal(raw@) is None && v@ == raw@,
                Err(e) => AgentName::refusal(raw@) == Some(e),
            },
    {
        match check_text(raw, "agent_name", AGENT_NAME_MAX_BYTES) {
            Some(e) => Err(e),
            None => Ok(AgentName { text: raw.to_owned() }),
        }
    }
}

impl TryFromSpecImpl<&str> for AgentName {
    open spec fn obeys_try_from_spec() -> bool {
        false
    }

    open spec fn try_from_spec(v: &str) -> Result<AgentName, ParseError> {
        arbitrary()
    }
}

impl TryFrom<String> for AgentName {
    type Error = ParseError;

    fn try_from(raw: String) -> (r: Result<AgentName, ParseError>)
        ensures
            match r {
                Ok(v) => AgentName::refusal(raw@) is None && v@ == raw@,
                Err(e) => AgentName::refusal(raw@) == Some(e),
            },
    {
        AgentName::try_from(raw.as_str())
    }
}

impl TryFromSpecImpl<String> for AgentName {
    open spec fn obeys_try_from_spec() -> bool {
        false
    }

    open spec fn try_from_spec(v: String) -> Result<AgentName, ParseError> {
        arbitrary()
    }
}

/// What an agent is told to be.
#[derive(Debug)]
pub struct AgentSystemPrompt {
    text: String,
}

impl View for AgentSystemPrompt {
    type V = Seq<char>;

    closed spec fn view(&self) -> Seq<char> {
        self.text@
    }
}

impl AgentSystemPrompt {
    /// What is wrong with `s` as a value of this type.
    pub open spec fn refusal(s: Seq<char>) -> Option<ParseError> {
        text_error(s, "agent_system_prompt", AGENT_SYSTEM_PROMPT_MAX_BYTES)
    }

    #[verifier::type_invariant]
    spec fn checked(self) -> bool {
        AgentSystemPrompt::refusal(self.text@) is None
    }

    /// The text.
    pub fn as_str(&self) -> (s: &str)
        ensures
            s@ == self@,
            AgentSystemPrompt::refusal(self@) is None,
    {
        proof {
            use_type_invariant(self);
        }
        self.text.as_str()
    }
}

impl Clone for AgentSystemPrompt {
    fn clone(&self) -> (r: AgentSystemPrompt)
        ensures
            r == *self,
    {
        proof {
            use_type_invariant(self);
        }
        AgentSystemPrompt { text: self.text.clone() }
    }
}

impl TryFrom<&str> for AgentSystemPrompt {
    type Error = ParseError;

    fn try_from(raw: &str) -> (r: Result<AgentSystemPrompt, ParseError>)
        ensures
            match r {
                Ok(v) => AgentSystemPrompt::refusal(raw@) is None && v@ == raw@,
                Err(e) => AgentSystemPrompt::refusal(raw@) == Some(e),
            },
    {
        match check_text(raw, "agent_system_prompt", AGENT_SYSTEM_PROMPT_MAX_BYTES) {
            Some(e) => Err(e),
            None => Ok(AgentSystemPrompt { text: raw.to_owned() }),
        }
    }
}

impl TryFromSpecImpl<&str> for AgentSystemPrompt {
    open spec fn obeys_try_from_spec() -> bool {
        false
    }

    open spec fn try_from_spec(v: &str) -> Result<AgentSystemPrompt, ParseError> {
        arbitrary()
    }
}

impl TryFrom<String> for AgentSystemPrompt {
    type Error = ParseError;

    fn try_from(raw: String) -> (r: Result<AgentSystemPrompt, ParseError>)
        ensures
            match r {
                Ok(v) => AgentSystemPrompt::refusal(raw@) is None && v@ == raw@,
                Err(e) => AgentSystemPrompt::refusal(raw@) == Some(e),
            },
    {
        AgentSystemPrompt::try_from(raw.as_str())
    }
}

impl TryFromSpecImpl<String> for AgentSystemPrompt {
    open spec fn obeys_try_from_spec() -> bool {
        false
    }

    open spec fn try_from_spec(v: String) -> Result<AgentSystemPrompt, ParseError> {
        arbitrary()
    }
}

/// What an agent is good for, in a sentence. Other agents find it by that.
#[derive(Debug)]
pub struct AgentDescription {
    text: String,
}

impl View for AgentDescription {
    type V = Seq<char>;

    closed spec fn view(&self) -> Seq<char> {
        self.text@
    }
}

impl AgentDescription {
    /// What is wrong with `s` as a value of this type.
    pub open spec fn refusal(s: Seq<char>) -> Option<ParseError> {
        text_error(s, "agent_description", AGENT_DESCRIPTION_MAX_BYTES)
    }

    #[verifier::type_invariant]
    spec fn checked(self) -> bool {
        AgentDescription::refusal(self.text@) is None
    }

    /// The text.
    pub fn as_str(&self) -> (s: &str)
        ensures
            s@ == self@,
            AgentDescription::refusal(self@) is None,
    {
        proof {
            use_type_invariant(self);
        }
        self.text.as_str()
    }
}

impl Clone for AgentDescription {
    fn clone(&self) -> (r: AgentDescription)
        ensures
            r == *self,
    {
        proof {
            use_type_invariant(self);
        }
        AgentDescription { text: self.text.clone() }
    }
}

impl TryFrom<&str> for AgentDescription {
    type Error = ParseError;

    fn try_from(raw: &str) -> (r: Result<AgentDescription, ParseError>)
        ensures
            match r {
                Ok(v) => AgentDescription::refusal(raw@) is None && v@ == raw@,
                Err(e) => AgentDescription::refusal(raw@) == Some(e),
            },
    {
        match check_text(raw, "agent_description", AGENT_DESCRIPTION_MAX_BYTES) {
            Some(e) => Err(e),
            None => Ok(AgentDescription { text: raw.to_owned() }),
        }
    }
}

impl TryFromSpecImpl<&str> for AgentDescription {
    open spec fn obeys_try_from_spec() -> bool {
        false
    }

    open spec fn try_from_spec(v: &str) -> Result<AgentDescription, ParseError> {
        arbitrary()
    }
}

impl TryFrom<String> for AgentDescription {
    type Error = ParseError;

    fn try_from(raw: String) -> (r: Result<AgentDescription, ParseError>)
        ensures
            match r {
                Ok(v) => AgentDescription::refusal(raw@) is None && v@ == raw@,
                Err(e) => AgentDescription::refusal(raw@) == Some(e),
            },
    {
        AgentDescription::try_from(raw.as_str())
    }
}

impl TryFromSpecImpl<String> for AgentDescription {
    open spec fn obeys_try_from_spec() -> bool {
        false
    }

    open spec fn try_from_spec(v: String) -> Result<AgentDescription, ParseError> {
        arbitrary()
    }
}

/// The servers whose tools an agent may use. Empty means none.
#[derive(Debug)]
pub struct AllowedMcpServers {
    servers: Vec<McpServerId>,
}

impl View for AllowedMcpServers {
    type V = Seq<McpServerId>;

    closed spec fn view(&self) -> Seq<McpServerId> {
        self.servers@
    }
}

impl AllowedMcpServers {
    /// What is wrong with a list of servers.
    pub open spec fn refusal(servers: Seq<McpServerId>) -> Option<ParseError> {
        if servers.len() > MAX_ALLOWED_MCP_SERVERS {
            Some(
                ParseError::TooLong {
                    field: "allowed_mcp_servers",
                    max: MAX_ALLOWED_MCP_SERVERS,
                    got: servers.len() as usize,
                },
            )
        } else {
            None
        }
    }

    #[verifier::type_invariant]
    spec fn checked(self) -> bool {
        AllowedMcpServers::refusal(self.servers@) is None
    }

    /// The list.
    pub fn into_inner(self) -> (v: Vec<McpServerId>)
        ensures
            v@ == self@,
    {
        self.servers
    }
}

impl TryFrom<Vec<McpServerId>> for AllowedMcpServers {
    type Error = ParseError;

    fn try_from(raw: Vec<McpServerId>) -> (r: Result<AllowedMcpServers, ParseError>)
        ensures
            match r {
                Ok(v) => AllowedMcpServers::refusal(raw@) is None && v@ == raw@,
                Err(e) => AllowedMcpServers::refusal(raw@) == Some(e),
            },
    {
        let got = raw.len();
        if got > MAX_ALLOWED_MCP_SERVERS {
            return Err(
                ParseError::TooLong {
                    field: "allowed_mcp_servers",
                    max: MAX_ALLOWED_MCP_SERVERS,
                    got,
                },
            );
        }
        Ok(AllowedMcpServers { servers: raw })
    }
}

impl TryFromSpecImpl<Vec<McpServerId>> for AllowedMcpServers {
    open spec fn obeys_try_from_spec() -> bool {
        false
    }

    open spec fn try_from_spec(v: Vec<McpServerId>) -> Result<AllowedMcpServers, ParseError> {
        arbitrary()
    }
}

/// An agent to create.
#[derive(Debug)]
pub struct NewAgent {
    pub name: AgentName,
    pub system_prompt: AgentSystemPrompt,
    pub description: AgentDescription,
    pub is_default: bool,
    pub allowed_mcp_servers: AllowedMcpServers,
}

/// A change to an agent. What is `None` stays as it is.
#[derive(Debug)]
pub struct AgentUpdate {
    pub name: Option<AgentName>,
    pub system_prompt: Option<AgentSystemPrompt>,
    pub description: Option<AgentDescription>,
    pub is_default: Option<bool>,
    pub allowed_mcp_servers: Option<AllowedMcpServers>,
}

/// A registered agent.
#[derive(Debug)]
pub struct AgentRecord {
    pub id: AgentId,
    pub name: AgentName,
    pub system_prompt: AgentSystemPrompt,
    pub description: AgentDescription,
    pub is_default: bool,
    pub allowed_mcp_servers: AllowedMcpServers,
    pub created_at: Timestamp,
    pub updated_at: Timestamp,
}

/// How the store of agents fails.
#[derive(Debug)]
pub enum AgentStoreError {
    /// There is no such agent.
    NotFound(AgentId),
    /// No agent has that name.
    NameNotFound(String),
    /// The default agent cannot be deleted.
    DefaultDeletionForbidden,
    /// Conversations refer to the agent.
    InUse(AgentId),
    /// Another agent has that name.
    NameTaken(String),
    /// There is no default agent.
    NoDefault,
    /// A value does not have the form it must have.
    Parse(ParseError),
    /// The store failed.
    Backend(String),
}

impl AgentStoreError {
    /// The text of the error.
    pub open spec fn text(self) -> Seq<char> {
        match self {
            AgentStoreError::NotFound(id) => "agent "@ + uuid_text(id.0) + " not found"@,
            AgentStoreError::NameNotFound(name) => "agent `"@ + name@ + "` not found"@,
            AgentStoreError::DefaultDeletionForbidden => "the default agent cannot be deleted"@,
            AgentStoreError::InUse(id) => "agent "@ + uuid_text(id.0) + " is in use"@,
            AgentStoreError::NameTaken(name) => "agent name `"@ + name@ + "` already in use"@,
            AgentStoreError::NoDefault => "no default agent"@,
            AgentStoreError::Parse(e) => "parse: "@ + e.text(),
            AgentStoreError::Backend(detail) => "agent store: "@ + detail@,
        }
    }

    /// The error as one line of text.
    pub fn message(&self) -> (s: String)
        ensures
            s@ == self.text(),
    {
        match self {
            AgentStoreError::NotFound(id) => text3("agent ", id.text().as_str(), " not found"),
            AgentStoreError::NameNotFound(name) => text3("agent `", name.as_str(), "` not found"),
            AgentStoreError::DefaultDeletionForbidden => {
                "the default agent cannot be deleted".to_owned()
            },
            AgentStoreError::InUse(id) => text3("agent ", id.text().as_str(), " is in use"),
            AgentStoreError::NameTaken(name) => text3(
                "agent name `",
                name.as_str(),
                "` already in use",
            ),
            AgentStoreError::NoDefault => "no default agent".to_owned(),
            AgentStoreError::Parse(e) => text2("parse: ", e.message().as_str()),
            AgentStoreError::Backend(detail) => text2("agent store: ", detail.as_str()),
        }
    }
}

/// What of one server an agent may use.
#[derive(Debug)]
pub enum ToolScope<'a> {
    /// Nothing: the server is not allowed.
    Nothing,
    /// Every tool.
    Everything,
    /// The tools with these names.
    Only(&'a Vec<McpToolRemoteName>),
}

/// One server of an allowlist: with `None` every tool of it is allowed, with
/// `Some` only those that are named.
#[derive(Debug)]
pub struct AllowedServer {
    pub server: McpServerId,
    pub tools: Option<Vec<McpToolRemoteName>>,
}

/// What `entries` say of `server`: the last one that names it counts.
pub open spec fn allowed_entry(entries: Seq<AllowedServer>, server: McpServerId) -> Option<
    AllowedServer,
>
    decreases entries.len(),
{
    if entries.len() == 0 {
        None
    } else if entries.last().server == server {
        Some(entries.last())
    } else {
        allowed_entry(entries.drop_last(), server)
    }
}

/// `remote` is one of `names`.
pub open spec fn names_tool(names: Seq<McpToolRemoteName>, remote: Seq<char>) -> bool {
    exists|i: int| 0 <= i < names.len() && (#[trigger] names[i])@ == remote
}

/// The servers that an agent may use, and which of their tools. A server that is
/// not listed may not be used at all.
#[derive(Debug)]
pub struct AllowedMcpTools {
    entries: Vec<AllowedServer>,
}

/// An allowlist as it is written down.
pub type AllowedMcpToolsInput = Vec<(McpServerId, Option<Vec<String>>)>;

/// What is wrong with a list of tool names: what is wrong with the first bad
/// one.
pub open spec fn names_refusal(names: Seq<String>) -> Option<ParseError>
    decreases names.len(),
{
    if names.len() == 0 {
        None
    } else {
        match McpToolRemoteName::refusal(names[0]@) {
            Some(e) => Some(e),
            None => names_refusal(names.drop_first()),
        }
    }
}

/// What is wrong with an allowlist: what is wrong with the first bad name.
pub open spec fn allowlist_refusal(raw: Seq<(McpServerId, Option<Vec<String>>)>) -> Option<
    ParseError,
>
    decreases raw.len(),
{
    if raw.len() == 0 {
        None
    } else {
        let first = match raw[0].1 {
            Some(names) => names_refusal(names@),
            None => None,
        };
        match first {
            Some(e) => Some(e),
            None => allowlist_refusal(raw.drop_first()),
        }
    }
}

/// `e` is the entry that `raw` writes down.
pub open spec fn entry_reads(raw: (McpServerId, Option<Vec<String>>), e: AllowedServer) -> bool {
    &&& e.server == raw.0
    &&& match (raw.1, e.tools) {
        (None, None) => true,
        (Some(names), Some(tools)) => {
            &&& tools@.len() == names@.len()
            &&& forall|i: int| 0 <= i < tools@.len() ==> (#[trigger] tools@[i])@ == names@[i]@
        },
        _ => false,
    }
}

fn parse_names(names: Vec<String>) -> (r: Result<Vec<McpToolRemoteName>, ParseError>)
    ensures
        match r {
            Ok(tools) => {
                &&& names_refusal(names@) is None
                &&& tools@.len() == names@.len()
                &&& forall|i: int| 0 <= i < tools@.len() ==> (#[trigger] tools@[i])@ == names@[i]@
            },
            Err(e) => names_refusal(names@) == Some(e),
        },
{
    let mut tools: Vec<McpToolRemoteName> = Vec::new();
    let mut i: usize = 0;
    proof {
        assert(names@.skip(0) =~= names@);
    }
    while i < names.len()
        invariant
            i <= names@.len(),
            tools@.len() == i,
            forall|j: int| 0 <= j < i ==> (#[trigger] tools@[j])@ == names@[j]@,
            names_refusal(names@) == names_refusal(names@.skip(i as int)),
        decreases names.len() - i,
    {
        proof {
            assert(names@.skip(i as int)[0] == names@[i as int]);
            assert(names@.skip(i as int).drop_first() =~= names@.skip(i + 1));
        }
        match McpToolRemoteName::try_from(names[i].as_str()) {
            Ok(t) => {
                tools.push(t);
            },
            Err(e) => {
                return Err(e);
            },
        }
        i += 1;
    }
    Ok(tools)
}

fn lists_name(names: &Vec<McpToolRemoteName>, remote: &str) -> (r: bool)
    ensures
        r == names_tool(names@, remote@),
{
    let mut i: usize = 0;
    while i < names.len()
        invariant
            i <= names@.len(),
            forall|j: int| 0 <= j < i ==> (#[trigger] names@[j])@ != remote@,
        decreases names.len() - i,
    {
        if text_equal(names[i].as_str(), remote) {
            return true;
        }
        i += 1;
    }
    false
}

impl AllowedMcpTools {
    /// The entries, in the order in which they were given.
    pub closed spec fn entries(self) -> Seq<AllowedServer> {
        self.entries@
    }

    /// Whether the tool `remote` of `server` may be used.
    pub open spec fn permits(self, server: McpServerId, remote: Seq<char>) -> bool {
        match allowed_entry(self.entries(), server) {
            None => false,
            Some(e) => match e.tools {
                None => true,
                Some(names) => names_tool(names@, remote),
            },
        }
    }

    /// An allowlist that allows nothing.
    pub fn empty() -> (a: AllowedMcpTools)
        ensures
            a.entries() == Seq::<AllowedServer>::empty(),
    {
        AllowedMcpTools { entries: Vec::new() }
    }

    /// Whether no server is listed.
    pub fn is_empty(&self) -> (r: bool)
        ensures
            r == (self.entries().len() == 0),
    {
        self.entries.len() == 0
    }

    /// What of `server` may be used.
    pub fn tools_for(&self, server: McpServerId) -> (scope: ToolScope<'_>)
        ensures
            match allowed_entry(self.entries(), server) {
                None => scope is Nothing,
                Some(e) => match e.tools {
                    None => scope is Everything,
                    Some(names) => scope == ToolScope::Only(&names),
                },
            },
    {
        let mut i: usize = self.entries.len();
        proof {
            assert(self.entries@.take(i as int) =~= self.entries@);
        }
        while i > 0
            invariant
                i <= self.entries@.len(),
                allowed_entry(self.entries@, server) == allowed_entry(
                    self.entries@.take(i as int),
                    server,
                ),
            decreases i,
        {
            i -= 1;
            proof {
                assert(self.entries@.take(i + 1).last() == self.entries@[i as int]);
                assert(self.entries@.take(i + 1).drop_last() =~= self.entries@.take(i as int));
            }
            if self.entries[i].server.0 == server.0 {
                return match &self.entries[i].tools {
                    None => ToolScope::Everything,
                    Some(names) => ToolScope::Only(names),
                };
            }
        }
        ToolScope::Nothing
    }

    /// Whether the tool `remote` of `server` may be used.
    pub fn allows(&self, server: McpServerId, remote: &str) -> (r: bool)
        ensures
            r == self.permits(server, remote@),
    {
        match self.tools_for(server) {
            ToolScope::Nothing => false,
            ToolScope::Everything => true,
            ToolScope::Only(names) => lists_name(names, remote),
        }
    }
}

impl TryFrom<AllowedMcpToolsInput> for AllowedMcpTools {
    type Error = ParseError;

    fn try_from(raw: AllowedMcpToolsInput) -> (r: Result<AllowedMcpTools, ParseError>)
        ensures
            match r {
                Ok(a) => {
                    &&& allowlist_refusal(raw@) is None
                    &&& a.entries().len() == raw@.len()
                    &&& forall|i: int|
                        0 <= i < raw@.len() ==> entry_reads(raw@[i], #[trigger] a.entries()[i])
                },
                Err(e) => allowlist_refusal(raw@) == Some(e),
            },
    {
        let ghost all = raw@;
        let mut rest = raw;
        let mut entries: Vec<AllowedServer> = Vec::new();
        proof {
            assert(all.skip(0) =~= all);
        }
        while rest.len() > 0
            invariant
                all == raw@,
                entries@.len() + rest@.len() == all.len(),
                rest@ == all.skip(entries@.len() as int),
                allowlist_refusal(all) == allowlist_refusal(rest@),
                forall|i: int| 0 <= i < entries@.len() ==> entry_reads(all[i], #[trigger] entries@[i]),
            decreases rest@.len(),
        {
            let ghost before = rest@;
            let ghost at = entries@.len() as int;
            let (server, names) = rest.remove(0);
            proof {
                assert(before[0] == all[at]);
                assert(rest@ =~= before.drop_first());
                assert(rest@ =~= all.skip(at + 1));
            }
            let tools = match names {
                None => None,
                Some(names) => match parse_names(names) {
                    Ok(tools) => Some(tools),
                    Err(e) => {
                        return Err(e);
                    },
                },
            };
            entries.push(AllowedServer { server, tools });
        }
        Ok(AllowedMcpTools { entries })
    }
}

impl TryFromSpecImpl<AllowedMcpToolsInput> for AllowedMcpTools {
    open spec fn obeys_try_from_spec() -> bool {
        false
    }

    open spec fn try_from_spec(v: AllowedMcpToolsInput) -> Result<AllowedMcpTools, ParseError> {
        arbitrary()
    }
}

/// Of the entries that name a server the last one counts, and a server that none names is not
/// allowed.
pub proof fn law_last_entry_counts(entries: Seq<AllowedServer>, server: McpServerId)
    ensures
        match allowed_entry(entries, server) {
            Some(e) => exists|i: int|
                {
                    &&& 0 <= i < entries.len()
                    &&& #[trigger] entries[i] == e
                    &&& e.server == server
                    &&& forall|j: int| i < j < entries.len() ==> (#[trigger] entries[j]).server
                        != server
                },
            None => forall|j: int| 0 <= j < entries.len() ==> (#[trigger] entries[j]).server != server,
        },
    decreases entries.len(),
{
    if entries.len() > 0 {
        let n = entries.len() - 1;
        let rest = entries.drop_last();
        assert(entries[n] == entries.last());
        if entries.last().server != server {
            law_last_entry_counts(rest, server);
            assert forall|j: int| 0 <= j < rest.len() implies #[trigger] entries[j] == rest[j] by {}
            match allowed_entry(rest, server) {
                Some(e) => {
                    let i = choose|i: int|
                        {
                            &&& 0 <= i < rest.len()
                            &&& #[trigger] rest[i] == e
                            &&& e.server == server
                            &&& forall|j: int|
                                i < j < rest.len() ==> (#[trigger] rest[j]).server != server
                        };
                    assert(entries[i] == e);
                },
                None => {},
            }
        }
    }
}

/// An agent may use a tool exactly if its server is listed and either all tools of it are
/// allowed or this one is named.
pub proof fn law_tools_must_be_allowed(a: AllowedMcpTools, server: McpServerId, remote: Seq<char>)
    ensures
        a.permits(server, remote) <==> exists|i: int|
            {
                let e = #[trigger] a.entries()[i];
                &&& 0 <= i < a.entries().len()
                &&& e.server == server
                &&& forall|j: int|
                    i < j < a.entries().len() ==> (#[trigger] a.entries()[j]).server != server
                &&& e.tools is None || exists|k: int|
                    0 <= k < e.tools->0@.len() && (#[trigger] e.tools->0@[k])@ == remote
            },
{
    law_last_entry_counts(a.entries(), server);
    if exists|i: int|
        {
            let e = #[trigger] a.entries()[i];
            &&& 0 <= i < a.entries().len()
            &&& e.server == server
            &&& forall|j: int|
                i < j < a.entries().len() ==> (#[trigger] a.entries()[j]).server != server
            &&& e.tools is None || exists|k: int|
                0 <= k < e.tools->0@.len() && (#[trigger] e.tools->0@[k])@ == remote
        } {
        let i = choose|i: int|
            {
                let e = #[trigger] a.entries()[i];
                &&& 0 <= i < a.entries().len()
                &&& e.server == server
                &&& forall|j: int|
                    i < j < a.entries().len() ==> (#[trigger] a.entries()[j]).server != server
                &&& e.tools is None || exists|k: int|
                    0 <= k < e.tools->0@.len() && (#[trigger] e.tools->0@[k])@ == remote
            };
        let found = allowed_entry(a.entries(), server)->0;
        let k = choose|k: int|
            {
                &&& 0 <= k < a.entries().len()
                &&& #[trigger] a.entries()[k] == found
                &&& found.server == server
                &&& forall|j: int|
                    k < j < a.entries().len() ==> (#[trigger] a.entries()[j]).server != server
            };
        assert(a.entries()[i].server == server && a.entries()[k].server == server);
        assert(i == k);
    }
}

proof fn lemma_names_refusal(names: Seq<String>)
    ensures
        names_refusal(names) is None <==> forall|i: int|
            0 <= i < names.len() ==> McpToolRemoteName::refusal((#[trigger] names[i])@) is None,
    decreases names.len(),
{
    if names.len() > 0 {
        let rest = names.drop_first();
        lemma_names_refusal(rest);
        assert forall|i: int| 1 <= i < names.len() implies #[trigger] names[i] == rest[i - 1] by {}
        if forall|i: int|
            0 <= i < names.len() ==> McpToolRemoteName::refusal((#[trigger] names[i])@) is None {
            assert forall|i: int| 0 <= i < rest.len() implies McpToolRemoteName::refusal(
                (#[trigger] rest[i])@,
            ) is None by {
                assert(names[i + 1] == rest[i]);
            }
            assert(McpToolRemoteName::refusal(names[0]@) is None);
        }
    }
}

/// An allowlist is taken exactly if every tool that it names has a name that a tool can have.
pub proof fn law_allowlist_is_checked_whole(raw: Seq<(McpServerId, Option<Vec<String>>)>)
    ensures
        allowlist_refusal(raw) is None <==> forall|i: int, k: int|
            0 <= i < raw.len() && (#[trigger] raw[i]).1 is Some && 0 <= k < raw[i].1->0@.len()
                ==> McpToolRemoteName::refusal((#[trigger] raw[i].1->0@[k])@) is None,
    decreases raw.len(),
{
    if raw.len() > 0 {
        let rest = raw.drop_first();
        law_allowlist_is_checked_whole(rest);
        assert forall|i: int| 1 <= i < raw.len() implies #[trigger] raw[i] == rest[i - 1] by {}
        if raw[0].1 is Some {
            lemma_names_refusal(raw[0].1->0@);
        }
        if forall|i: int, k: int|
            0 <= i < raw.len() && (#[trigger] raw[i]).1 is Some && 0 <= k < raw[i].1->0@.len()
                ==> McpToolRemoteName::refusal((#[trigger] raw[i].1->0@[k])@) is None {
            assert forall|i: int, k: int|
                0 <= i < rest.len() && (#[trigger] rest[i]).1 is Some && 0 <= k
                    < rest[i].1->0@.len() implies McpToolRemoteName::refusal(
                (#[trigger] rest[i].1->0@[k])@,
            ) is None by {
                assert(raw[i + 1] == rest[i]);
                assert(raw[i + 1].1->0@[k] == rest[i].1->0@[k]);
            }
            if raw[0].1 is Some {
                assert forall|k: int| 0 <= k < raw[0].1->0@.len() implies McpToolRemoteName::refusal(
                    (#[trigger] raw[0].1->0@[k])@,
                ) is None by {}
            }
        }
    }
}

/// How long each text of an agent may be, and how many servers it may be allowed.
pub proof fn law_agents_have_their_limits(s: Seq<char>, servers: Seq<McpServerId>)
    ensures
        AgentName::refusal(s) is None <==> !blank(s) && utf8_len(s) <= 64,
        AgentSystemPrompt::refusal(s) is None <==> !blank(s) && utf8_len(s) <= 32_768,
        AgentDescription::refusal(s) is None <==> !blank(s) && utf8_len(s) <= 512,
        AllowedMcpServers::refusal(servers) is None <==> servers.len() <= 32,
{
    if s.len() == 0 {
        assert(blank(s));
    }
}

/// The message says which fault it was, and carries its detail.
pub proof fn law_agent_store_error_says_what_is_wrong(error: AgentStoreError)
    ensures
        error matches AgentStoreError::NotFound(id) ==> error.text() == "agent "@ + uuid_text(id.0)
            + " not found"@,
        error matches AgentStoreError::NameNotFound(name) ==> error.text() == "agent `"@ + name@
            + "` not found"@,
        error is DefaultDeletionForbidden ==> error.text()
            == "the default agent cannot be deleted"@,
        error matches AgentStoreError::InUse(id) ==> error.text() == "agent "@ + uuid_text(id.0)
            + " is in use"@,
        error matches AgentStoreError::NameTaken(name) ==> error.text() == "agent name `"@ + name@
            + "` already in use"@,
        error is NoDefault ==> error.text() == "no default agent"@,
        error matches AgentStoreError::Parse(e) ==> error.text() == "parse: "@ + e.text(),
        error matches AgentStoreError::Backend(detail) ==> error.text() == "agent store: "@
            + detail@,
{
}

} // verus!
