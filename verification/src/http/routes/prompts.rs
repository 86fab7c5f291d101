//! Submitting prompts.

use crate::http::error::HttpError;
use crate::ids::{AgentId, PromptRequestId, SessionId};
use crate::runtime::{EnqueueOutcome, NewPromptRequest, RequestStatus};
use crate::types::{
    IdempotencyKey, ParseError, Participant, Prompt, RequestKindPayload,
};
use vstd::prelude::*;

verus! {

/// A prompt, as it is submitted.
#[derive(Debug)]
pub struct SubmitPromptRequest {
    /// The conversation that it continues; none starts a new one.
    pub session_id: Option<SessionId>,
    /// The agent that it is for. Without one the default agent is asked. A
    /// conversation keeps its agent, whatever is said here.
    pub agent_id: Option<AgentId>,
    pub content: String,
    pub idempotency_key: String,
}

/// A prompt whose text was read, and where its agent is to be found.
#[derive(Debug)]
pub struct PendingPrompt {
    pub session: Option<SessionId>,
    pub content: Prompt,
    pub idempotency_key: IdempotencyKey,
    pub receiver: ReceiverSource,
}

/// Where the agent of a prompt is to be found.
#[derive(Clone, Copy, Debug, PartialEq, Eq)]
pub enum ReceiverSource {
    /// It is the one of the conversation.
    Session(SessionId),
    /// It was named.
    Named(AgentId),
    /// It is the default agent.
    Default,
}

/// Where the agent of a prompt is to be found.
pub open spec fn receiver_source(session: Option<SessionId>, agent: Option<AgentId>) -> ReceiverSource {
    match session {
        Some(id) => ReceiverSource::Session(id),
        None => match agent {
            Some(id) => ReceiverSource::Named(id),
            None => ReceiverSource::Default,
        },
    }
}

/// What is wrong with a prompt.
pub open spec fn prompt_refusal(payload: SubmitPromptRequest) -> Option<ParseError> {
    match Prompt::refusal(payload.content@) {
        Some(e) => Some(e),
        None => IdempotencyKey::refusal(payload.idempotency_key@),
    }
}

/// Reads a prompt.
pub fn submit_prompt(payload: SubmitPromptRequest) -> (r: Result<PendingPrompt, HttpError>)
    ensures
        match prompt_refusal(payload) {
            Some(e) => r matches Err(HttpError::BadRequest(s)) && s@ == e.text(),
            None => r matches Ok(p) && {
                &&& p.session == payload.session_id
                &&& p.content@ == payload.content@
                &&& p.idempotency_key@ == payload.idempotency_key@
                &&& p.receiver == receiver_source(payload.session_id, payload.agent_id)
            },
        },
{
    let content = match Prompt::try_from(payload.content) {
        Ok(c) => c,
        Err(e) => {
            return Err(HttpError::BadRequest(e.message()));
        },
    };
    let idempotency_key = match IdempotencyKey::try_from(payload.idempotency_key) {
        Ok(k) => k,
        Err(e) => {
            return Err(HttpError::BadRequest(e.message()));
        },
    };
    let receiver = match payload.session_id {
        Some(id) => ReceiverSource::Session(id),
        None => match payload.agent_id {
            Some(id) => ReceiverSource::Named(id),
            None => ReceiverSource::Default,
        },
    };
    Ok(PendingPrompt { session: payload.session_id, content, idempotency_key, receiver })
}

/// The agent of a conversation between `a` and `b`: the first of them that is
/// one. A conversation without an agent is a fault of the server.
pub fn session_agent_participant(a: Participant, b: Participant) -> (r: Result<AgentId, HttpError>)
    ensures
        match (a, b) {
            (Participant::Agent { agent_id }, _) => r == Ok::<AgentId, HttpError>(agent_id),
            (_, Participant::Agent { agent_id }) => r == Ok::<AgentId, HttpError>(agent_id),
            _ => r == Err::<AgentId, HttpError>(HttpError::Internal),
        },
{
    match (a, b) {
        (Participant::Agent { agent_id }, _) => Ok(agent_id),
        (_, Participant::Agent { agent_id }) => Ok(agent_id),
        _ => Err(HttpError::Internal),
    }
}

/// The request to queue for a prompt whose agent was found.
pub fn prompt_request(p: PendingPrompt, receiver_agent_id: AgentId) -> (r: NewPromptRequest)
    ensures
        r == (NewPromptRequest {
            session: p.session,
            sender: Participant::Human,
            receiver_agent_id,
            parent_session: None,
            content: p.content,
            idempotency_key: p.idempotency_key,
            kind_payload: RequestKindPayload::Normal,
        }),
{
    NewPromptRequest {
        session: p.session,
        sender: Participant::Human,
        receiver_agent_id,
        parent_session: None,
        content: p.content,
        idempotency_key: p.idempotency_key,
        kind_payload: RequestKindPayload::Normal,
    }
}

/// What a submitted prompt is answered with.
#[derive(Clone, Copy, Debug, PartialEq, Eq)]
pub struct SubmitPromptResponse {
    pub request_id: PromptRequestId,
    pub session_id: SessionId,
    pub status: RequestStatus,
}

/// Answers a prompt, given what came of queueing it: 202 where it is new, and 200
/// where it was there already.
pub fn submit_response(outcome: &EnqueueOutcome) -> (r: (u16, SubmitPromptResponse))
    ensures
        match *outcome {
            EnqueueOutcome::Inserted { request_id, session, status } => r == (
                202u16,
                SubmitPromptResponse { request_id, session_id: session, status },
            ),
            EnqueueOutcome::Existing { request_id, session, status } => r == (
                200u16,
                SubmitPromptResponse { request_id, session_id: session, status },
            ),
        },
{
    let code: u16 = match outcome {
        EnqueueOutcome::Inserted { .. } => 202,
        EnqueueOutcome::Existing { .. } => 200,
    };
    (
        code,
        SubmitPromptResponse {
            request_id: outcome.request_id(),
            session_id: outcome.session(),
            status: outcome.status(),
        },
    )
}

/// A conversation keeps its agent: whatever agent a prompt that continues it
/// names, the agent of the conversation is asked.
pub proof fn law_conversation_keeps_its_agent(session: SessionId, a: Option<AgentId>, b: Option<AgentId>)
    ensures
        receiver_source(Some(session), a) == receiver_source(Some(session), b),
{
}

/// A new conversation is with the agent that was named, and with the default agent where none
/// was; a prompt is taken exactly if both its text and its key are.
pub proof fn law_new_conversation_is_with_the_named_agent(payload: SubmitPromptRequest)
    ensures
        payload.session_id matches Some(s) ==> receiver_source(
            payload.session_id,
            payload.agent_id,
        ) == ReceiverSource::Session(s),
        payload.session_id is None ==> (payload.agent_id matches Some(a) ==> receiver_source(
            payload.session_id,
            payload.agent_id,
        ) == ReceiverSource::Named(a)),
        payload.session_id is None && payload.agent_id is None ==> receiver_source(
            payload.session_id,
            payload.agent_id,
        ) == ReceiverSource::Default,
        prompt_refusal(payload) is None <==> Prompt::refusal(payload.content@) is None
            && IdempotencyKey::refusal(payload.idempotency_key@) is None,
{
}

} // verus!
