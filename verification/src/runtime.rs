//! Requests that the runtime queues, and what it streams back.

use crate::ids::{uuid_text, AgentId, PromptRequestId, SessionId};
use crate::text::{decimal, text2, text3, text_equal, text_number};
use crate::types::{IdempotencyKey, Participant, Prompt, RequestKindPayload};
use vstd::prelude::*;

verus! {

/// A prompt to be queued.
#[derive(Debug)]
pub struct NewPromptRequest {
    /// The conversation that the prompt continues; none opens a new one.
    pub session: Option<SessionId>,
    pub sender: Participant,
    pub receiver_agent_id: AgentId,
    /// The conversation that this one hangs under; none keeps it apart.
    pub parent_session: Option<SessionId>,
    pub content: Prompt,
    pub idempotency_key: IdempotencyKey,
    pub kind_payload: RequestKindPayload,
}

/// How far a request has come.
#[derive(Clone, Copy, Debug, PartialEq, Eq, Hash, Structural)]
pub enum RequestStatus {
    /// It waits.
    Pending,
    /// An agent works on it.
    Processing,
    /// It was answered.
    Completed,
    /// It could not be answered.
    Failed,
    /// It was called off.
    Cancelled,
}

impl RequestStatus {
    /// The wire label.
    pub open spec fn label(self) -> Seq<char> {
        match self {
            RequestStatus::Pending => "pending"@,
            RequestStatus::Processing => "processing"@,
            RequestStatus::Completed => "completed"@,
            RequestStatus::Failed => "failed"@,
            RequestStatus::Cancelled => "cancelled"@,
        }
    }

    /// The wire label.
    pub fn as_str(self) -> (s: &'static str)
        ensures
            s@ == self.label(),
    {
        match self {
            RequestStatus::Pending => "pending",
            RequestStatus::Processing => "processing",
            RequestStatus::Completed => "completed",
            RequestStatus::Failed => "failed",
            RequestStatus::Cancelled => "cancelled",
        }
    }

    /// Every variant, in declaration order.
    pub fn all() -> (v: Vec<RequestStatus>)
        ensures
            v@ == seq![RequestStatus::Pending, RequestStatus::Processing, RequestStatus::Completed, RequestStatus::Failed, RequestStatus::Cancelled],
            forall|k: RequestStatus| v@.contains(k),
    {
        let v = vec![RequestStatus::Pending, RequestStatus::Processing, RequestStatus::Completed, RequestStatus::Failed, RequestStatus::Cancelled];
        proof {
            assert(v@ =~= seq![RequestStatus::Pending, RequestStatus::Processing, RequestStatus::Completed, RequestStatus::Failed, RequestStatus::Cancelled]);
            assert forall|k: RequestStatus| v@.contains(k) by {
                match k {
                    RequestStatus::Pending => assert(v@[0] == k),
                    RequestStatus::Processing => assert(v@[1] == k),
                    RequestStatus::Completed => assert(v@[2] == k),
                    RequestStatus::Failed => assert(v@[3] == k),
                    RequestStatus::Cancelled => assert(v@[4] == k),
                }
            }
        }
        v
    }

    /// The variant with the label `s`.
    pub fn parse(s: &str) -> (r: Option<RequestStatus>)
        ensures
            match r {
                Some(k) => s@ == k.label(),
                None => forall|k: RequestStatus| s@ != #[trigger] k.label(),
            },
    {
        if text_equal(s, "pending") {
            Some(RequestStatus::Pending)
        } else if text_equal(s, "processing") {
            Some(RequestStatus::Processing)
        } else if text_equal(s, "completed") {
            Some(RequestStatus::Completed)
        } else if text_equal(s, "failed") {
            Some(RequestStatus::Failed)
        } else if text_equal(s, "cancelled") {
            Some(RequestStatus::Cancelled)
        } else {
            None
        }
    }

    /// No two variants share a label: what a label parses to is the variant
    /// that it labels.
    pub proof fn lemma_labels_distinct(a: RequestStatus, b: RequestStatus)
        ensures
            a.label() == b.label() ==> a == b,
    {
        reveal_strlit("pending");
        reveal_strlit("processing");
        reveal_strlit("completed");
        reveal_strlit("failed");
        reveal_strlit("cancelled");
        assert("pending"@.len() != "processing"@.len());
        assert("pending"@.len() != "completed"@.len());
        assert("pending"@.len() != "failed"@.len());
        assert("pending"@.len() != "cancelled"@.len());
        assert("processing"@.len() != "completed"@.len());
        assert("processing"@.len() != "failed"@.len());
        assert("processing"@.len() != "cancelled"@.len());
        assert("completed"@.len() != "failed"@.len());
        assert("completed"@[1] != "cancelled"@[1]);
        assert("failed"@.len() != "cancelled"@.len());
    }
}

/// What came of queueing a prompt.
#[derive(Clone, Copy, Debug, PartialEq, Eq)]
pub enum EnqueueOutcome {
    /// The prompt is new.
    Inserted { request_id: PromptRequestId, session: SessionId, status: RequestStatus },
    /// A prompt with the same idempotency key was there.
    Existing { request_id: PromptRequestId, session: SessionId, status: RequestStatus },
}

impl EnqueueOutcome {
    /// The request.
    pub fn request_id(&self) -> (id: PromptRequestId)
        ensures
            id == (match *self {
                EnqueueOutcome::Inserted { request_id, .. } => request_id,
                EnqueueOutcome::Existing { request_id, .. } => request_id,
            }),
    {
        match self {
            EnqueueOutcome::Inserted { request_id, .. } => *request_id,
            EnqueueOutcome::Existing { request_id, .. } => *request_id,
        }
    }

    /// The conversation.
    pub fn session(&self) -> (id: SessionId)
        ensures
            id == (match *self {
                EnqueueOutcome::Inserted { session, .. } => session,
                EnqueueOutcome::Existing { session, .. } => session,
            }),
    {
        match self {
            EnqueueOutcome::Inserted { session, .. } => *session,
            EnqueueOutcome::Existing { session, .. } => *session,
        }
    }

    /// How far the request has come.
    pub fn status(&self) -> (s: RequestStatus)
        ensures
            s == (match *self {
                EnqueueOutcome::Inserted { status, .. } => status,
                EnqueueOutcome::Existing { status, .. } => status,
            }),
    {
        match self {
            EnqueueOutcome::Inserted { status, .. } => *status,
            EnqueueOutcome::Existing { status, .. } => *status,
        }
    }
}

/// How queueing a prompt fails.
#[derive(Debug)]
pub enum PromptError {
    /// There is no such request.
    RequestNotFound(PromptRequestId),
    /// There is no such conversation.
    SessionNotFound(SessionId),
    /// As many prompts wait as may.
    PendingCapExceeded { max: usize },
    /// The queue failed.
    Backend(String),
}

impl PromptError {
    /// The text of the error.
    pub open spec fn text(self) -> Seq<char> {
        match self {
            PromptError::RequestNotFound(id) => "request "@ + uuid_text(id.0) + " not found"@,
            PromptError::SessionNotFound(id) => "session "@ + uuid_text(id.0) + " not found"@,
            PromptError::PendingCapExceeded { max } => "pending cap reached (max "@ + decimal(
                max as nat,
            ) + ")"@,
            PromptError::Backend(detail) => "prompt queue: "@ + detail@,
        }
    }

    /// The error as one line of text.
    pub fn message(&self) -> (s: String)
        ensures
            s@ == self.text(),
    {
        match self {
            PromptError::RequestNotFound(id) => text3("request ", id.text().as_str(), " not found"),
            PromptError::SessionNotFound(id) => text3("session ", id.text().as_str(), " not found"),
            PromptError::PendingCapExceeded { max } => text_number(
                "pending cap reached (max ",
                *max,
                ")",
            ),
            PromptError::Backend(detail) => text2("prompt queue: ", detail.as_str()),
        }
    }
}

/// How streaming a response fails.
#[derive(Debug)]
pub enum ResponseError {
    /// There is no such stream.
    NotFound(PromptRequestId),
    /// The stream or the tables underneath failed.
    Backend(String),
}

impl ResponseError {
    /// The text of the error.
    pub open spec fn text(self) -> Seq<char> {
        match self {
            ResponseError::NotFound(id) => "stream "@ + uuid_text(id.0) + " not found"@,
            ResponseError::Backend(detail) => "response backend: "@ + detail@,
        }
    }

    /// The error as one line of text.
    pub fn message(&self) -> (s: String)
        ensures
            s@ == self.text(),
    {
        match self {
            ResponseError::NotFound(id) => text3("stream ", id.text().as_str(), " not found"),
            ResponseError::Backend(detail) => text2("response backend: ", detail.as_str()),
        }
    }
}

/// On the wire each status of a request goes by a name of its own.
pub proof fn law_request_status_goes_by_its_name(x: RequestStatus)
    ensures
        x.label() == "pending"@ <==> x is Pending,
        x.label() == "processing"@ <==> x is Processing,
        x.label() == "completed"@ <==> x is Completed,
        x.label() == "failed"@ <==> x is Failed,
        x.label() == "cancelled"@ <==> x is Cancelled,
{
    RequestStatus::lemma_labels_distinct(x, RequestStatus::Pending);
    RequestStatus::lemma_labels_distinct(x, RequestStatus::Processing);
    RequestStatus::lemma_labels_distinct(x, RequestStatus::Completed);
    RequestStatus::lemma_labels_distinct(x, RequestStatus::Failed);
    RequestStatus::lemma_labels_distinct(x, RequestStatus::Cancelled);
}

/// The message says which fault it was, and carries its detail.
pub proof fn law_prompt_error_says_what_is_wrong(error: PromptError)
    ensures
        error matches PromptError::RequestNotFound(id) ==> error.text() == "request "@
            + uuid_text(id.0) + " not found"@,
        error matches PromptError::SessionNotFound(id) ==> error.text() == "session "@
            + uuid_text(id.0) + " not found"@,
        error matches PromptError::PendingCapExceeded { max } ==> error.text()
            == "pending cap reached (max "@ + decimal(max as nat) + ")"@,
        error matches PromptError::Backend(detail) ==> error.text() == "prompt queue: "@ + detail@,
{
}

/// The message says which fault it was, and carries its detail.
pub proof fn law_response_error_says_what_is_wrong(error: ResponseError)
    ensures
        error matches ResponseError::NotFound(id) ==> error.text() == "stream "@ + uuid_text(id.0)
            + " not found"@,
        error matches ResponseError::Backend(detail) ==> error.text() == "response backend: "@
            + detail@,
{
}

} // verus!
