//! Registering agents.

use crate::agents::{
    AgentDescription, AgentName, AgentRecord, AgentSystemPrompt, AgentUpdate, AllowedMcpServers,
    NewAgent,
};
use crate::http::error::HttpError;
use crate::ids::{AgentId, McpServerId};
use crate::time::Timestamp;
use crate::types::ParseError;
use vstd::prelude::*;

verus! {

/// An agent, as the web app sees it.
#[derive(Debug)]
pub struct AgentResponse {
    pub id: AgentId,
    pub name: String,
    pub system_prompt: String,
    pub description: String,
    pub is_default: bool,
    pub allowed_mcp_servers: Vec<McpServerId>,
    pub created_at: Timestamp,
    pub updated_at: Timestamp,
}

/// `v` shows the agent `r`.
pub open spec fn shows_agent(v: AgentResponse, r: AgentRecord) -> bool {
    &&& v.id == r.id
    &&& v.name@ == r.name@
    &&& v.system_prompt@ == r.system_prompt@
    &&& v.description@ == r.description@
    &&& v.is_default == r.is_default
    &&& v.allowed_mcp_servers@ == r.allowed_mcp_servers@
    &&& v.created_at == r.created_at
    &&& v.updated_at == r.updated_at
}

/// An agent, as the web app sees it.
pub fn agent_response(r: AgentRecord) -> (v: AgentResponse)
    ensures
        shows_agent(v, r),
{
    AgentResponse {
        id: r.id,
        name: r.name.as_str().to_owned(),
        system_prompt: r.system_prompt.as_str().to_owned(),
        description: r.description.as_str().to_owned(),
        is_default: r.is_default,
        allowed_mcp_servers: r.allowed_mcp_servers.into_inner(),
        created_at: r.created_at,
        updated_at: r.updated_at,
    }
}

/// A request to create an agent.
#[derive(Debug)]
pub struct CreateAgentRequest {
    pub name: String,
    pub system_prompt: String,
    pub description: String,
    /// Whether it becomes the default agent.
    pub is_default: bool,
    /// The servers that it may use: none, unless they are listed.
    pub allowed_mcp_servers: Vec<McpServerId>,
}

/// The first of some refusals.
pub open spec fn first_refusal(
    a: Option<ParseError>,
    b: Option<ParseError>,
    c: Option<ParseError>,
    d: Option<ParseError>,
) -> Option<ParseError> {
    if a is Some {
        a
    } else if b is Some {
        b
    } else if c is Some {
        c
    } else {
        d
    }
}

/// What is wrong with a request to create an agent.
pub open spec fn create_refusal(p: CreateAgentRequest) -> Option<ParseError> {
    first_refusal(
        AgentName::refusal(p.name@),
        AgentSystemPrompt::refusal(p.system_prompt@),
        AgentDescription::refusal(p.description@),
        AllowedMcpServers::refusal(p.allowed_mcp_servers@),
    )
}

/// Reads a request to create an agent.
pub fn create_agent(payload: CreateAgentRequest) -> (r: Result<NewAgent, HttpError>)
    ensures
        match create_refusal(payload) {
            Some(e) => r == Err::<NewAgent, HttpError>(HttpError::Parse(e)),
            None => r matches Ok(new) && {
                &&& new.name@ == payload.name@
                &&& new.system_prompt@ == payload.system_prompt@
                &&& new.description@ == payload.description@
                &&& new.is_default == payload.is_default
                &&& new.allowed_mcp_servers@ == payload.allowed_mcp_servers@
            },
        },
{
    let name = match AgentName::try_from(payload.name) {
        Ok(v) => v,
        Err(e) => {
            return Err(HttpError::Parse(e));
        },
    };
    let system_prompt = match AgentSystemPrompt::try_from(payload.system_prompt) {
        Ok(v) => v,
        Err(e) => {
            return Err(HttpError::Parse(e));
        },
    };
    let description = match AgentDescription::try_from(payload.description) {
        Ok(v) => v,
        Err(e) => {
            return Err(HttpError::Parse(e));
        },
    };
    let allowed_mcp_servers = match AllowedMcpServers::try_from(payload.allowed_mcp_servers) {
        Ok(v) => v,
        Err(e) => {
            return Err(HttpError::Parse(e));
        },
    };
    Ok(
        NewAgent {
            name,
            system_prompt,
            description,
            is_default: payload.is_default,
            allowed_mcp_servers,
        },
    )
}

/// A request to change an agent. What is `None` stays as it is.
#[derive(Debug)]
pub struct UpdateAgentRequest {
    pub name: Option<String>,
    pub system_prompt: Option<String>,
    pub description: Option<String>,
    pub is_default: Option<bool>,
    /// An empty list takes every server away.
    pub allowed_mcp_servers: Option<Vec<McpServerId>>,
}

/// What is wrong with a request to change an agent.
pub open spec fn update_refusal(p: UpdateAgentRequest) -> Option<ParseError> {
    first_refusal(
        match p.name {
            Some(s) => AgentName::refusal(s@),
            None => None,
        },
        match p.system_prompt {
            Some(s) => AgentSystemPrompt::refusal(s@),
            None => None,
        },
        match p.description {
            Some(s) => AgentDescription::refusal(s@),
            None => None,
        },
        match p.allowed_mcp_servers {
            Some(v) => AllowedMcpServers::refusal(v@),
            None => None,
        },
    )
}

/// The change that a request asks for.
pub open spec fn update_reads(p: UpdateAgentRequest, change: AgentUpdate) -> bool {
    &&& match (p.name, change.name) {
        (Some(s), Some(v)) => v@ == s@,
        (None, None) => true,
        _ => false,
    }
    &&& match (p.system_prompt, change.system_prompt) {
        (Some(s), Some(v)) => v@ == s@,
        (None, None) => true,
        _ => false,
    }
    &&& match (p.description, change.description) {
        (Some(s), Some(v)) => v@ == s@,
        (None, None) => true,
        _ => false,
    }
    &&& change.is_default == p.is_default
    &&& match (p.allowed_mcp_servers, change.allowed_mcp_servers) {
        (Some(s), Some(v)) => v@ == s@,
        (None, None) => true,
        _ => false,
    }
}

/// Reads a request to change an agent.
pub fn update_agent(payload: UpdateAgentRequest) -> (r: Result<AgentUpdate, HttpError>)
    ensures
        match update_refusal(payload) {
            Some(e) => r == Err::<AgentUpdate, HttpError>(HttpError::Parse(e)),
            None => r matches Ok(change) && update_reads(payload, change),
        },
{
    let name = match payload.name {
        None => None,
        Some(raw) => match AgentName::try_from(raw) {
            Ok(v) => Some(v),
            Err(e) => {
                return Err(HttpError::Parse(e));
            },
        },
    };
    let system_prompt = match payload.system_prompt {
        None => None,
        Some(raw) => match AgentSystemPrompt::try_from(raw) {
            Ok(v) => Some(v),
            Err(e) => {
                return Err(HttpError::Parse(e));
            },
        },
    };
    let description = match payload.description {
        None => None,
        Some(raw) => match AgentDescription::try_from(raw) {
            Ok(v) => Some(v),
            Err(e) => {
                return Err(HttpError::Parse(e));
            },
        },
    };
    let allowed_mcp_servers = match payload.allowed_mcp_servers {
        None => None,
        Some(raw) => match AllowedMcpServers::try_from(raw) {
            Ok(v) => Some(v),
            Err(e) => {
                return Err(HttpError::Parse(e));
            },
        },
    };
    Ok(
        AgentUpdate {
            name,
            system_prompt,
            description,
            is_default: payload.is_default,
            allowed_mcp_servers,
        },
    )
}

/// A request to create an agent is taken exactly if its name, its prompt, its description and
/// its servers all are; the first that is not is named.
pub proof fn law_every_part_of_an_agent_is_checked(p: CreateAgentRequest)
    ensures
        create_refusal(p) is None <==> AgentName::refusal(p.name@) is None
            && AgentSystemPrompt::refusal(p.system_prompt@) is None && AgentDescription::refusal(
            p.description@,
        ) is None && AllowedMcpServers::refusal(p.allowed_mcp_servers@) is None,
        AgentName::refusal(p.name@) matches Some(e) ==> create_refusal(p) == Some(e),
{
}

/// A request to change an agent is taken exactly if what it gives is; what it does not give is
/// not looked at, and stays.
pub proof fn law_agent_update_reads_what_is_given(p: UpdateAgentRequest, change: AgentUpdate)
    requires
        update_reads(p, change),
    ensures
        update_refusal(p) is None <==> (p.name matches Some(s) ==> AgentName::refusal(s@) is None)
            && (p.system_prompt matches Some(s) ==> AgentSystemPrompt::refusal(s@) is None) && (
        p.description matches Some(s) ==> AgentDescription::refusal(s@) is None) && (
        p.allowed_mcp_servers matches Some(v) ==> AllowedMcpServers::refusal(v@) is None),
        change.name is Some <==> p.name is Some,
        p.name matches Some(s) ==> change.name->0@ == s@,
        change.system_prompt is Some <==> p.system_prompt is Some,
        p.system_prompt matches Some(s) ==> change.system_prompt->0@ == s@,
        change.description is Some <==> p.description is Some,
        p.description matches Some(s) ==> change.description->0@ == s@,
        change.allowed_mcp_servers is Some <==> p.allowed_mcp_servers is Some,
        p.allowed_mcp_servers matches Some(v) ==> change.allowed_mcp_servers->0@ == v@,
        change.is_default == p.is_default,
{
}

/// The web app sees an agent as it is registered.
pub proof fn law_agent_is_shown_as_registered(v: AgentResponse, r: AgentRecord)
    requires
        shows_agent(v, r),
    ensures
        v.id == r.id && v.name@ == r.name@ && v.system_prompt@ == r.system_prompt@,
        v.description@ == r.description@ && v.is_default == r.is_default,
        v.allowed_mcp_servers@ == r.allowed_mcp_servers@,
        v.created_at == r.created_at && v.updated_at == r.updated_at,
{
}

} // verus!
