//! How a request fails, and what is answered then.

use crate::agents::AgentStoreError;
use crate::auth::AuthError;
use crate::mcp::error::McpError;
use crate::runtime::{PromptError, ResponseError};
use crate::session::SessionError;
use crate::text::text2;
use crate::types::ParseError;
use vstd::prelude::*;

verus! {

/// Every way in which a request fails.
#[derive(Debug)]
pub enum HttpError {
    /// The request makes no sense.
    BadRequest(String),
    /// There is no such thing.
    NotFound,
    /// The role of the user does not allow it.
    Forbidden(&'static str),
    /// It collides with something that is there.
    Conflict(String),
    /// The request is too large.
    PayloadTooLarge,
    /// There were too many requests.
    TooManyRequests,
    /// A value does not have the form it must have.
    Parse(ParseError),
    /// The store of conversations failed.
    Session(SessionError),
    /// The store of agents failed.
    Agent(AgentStoreError),
    /// The queue of prompts failed.
    Prompt(PromptError),
    /// A stream failed.
    Response(ResponseError),
    /// The MCP subsystem failed.
    Mcp(McpError),
    /// Authentication failed.
    Auth(AuthError),
    /// Anything else.
    Internal,
}

/// What is answered to a request that failed: a status, and a message for the
/// `error` field of the body.
#[derive(Debug)]
pub struct ErrorResponse {
    pub status: u16,
    pub error: String,
}

impl HttpError {
    /// The text of the error.
    pub open spec fn text(self) -> Seq<char> {
        match self {
            HttpError::BadRequest(detail) => "invalid request: "@ + detail@,
            HttpError::NotFound => "not found"@,
            HttpError::Forbidden(reason) => "forbidden: "@ + reason@,
            HttpError::Conflict(detail) => "conflict: "@ + detail@,
            HttpError::PayloadTooLarge => "payload too large"@,
            HttpError::TooManyRequests => "too many requests"@,
            HttpError::Parse(e) => "parse: "@ + e.text(),
            HttpError::Session(e) => "session: "@ + e.text(),
            HttpError::Agent(e) => "agent: "@ + e.text(),
            HttpError::Prompt(e) => "prompt pipeline: "@ + e.text(),
            HttpError::Response(e) => "response stream: "@ + e.text(),
            HttpError::Mcp(e) => "mcp: "@ + e.text(),
            HttpError::Auth(e) => "auth: "@ + e.text(),
            HttpError::Internal => "internal error"@,
        }
    }

    /// The error as one line of text.
    pub fn message(&self) -> (s: String)
        ensures
            s@ == self.text(),
    {
        match self {
            HttpError::BadRequest(detail) => text2("invalid request: ", detail.as_str()),
            HttpError::NotFound => "not found".to_owned(),
            HttpError::Forbidden(reason) => text2("forbidden: ", reason),
            HttpError::Conflict(detail) => text2("conflict: ", detail.as_str()),
            HttpError::PayloadTooLarge => "payload too large".to_owned(),
            HttpError::TooManyRequests => "too many requests".to_owned(),
            HttpError::Parse(e) => text2("parse: ", e.message().as_str()),
            HttpError::Session(e) => text2("session: ", e.message().as_str()),
            HttpError::Agent(e) => text2("agent: ", e.message().as_str()),
            HttpError::Prompt(e) => text2("prompt pipeline: ", e.message().as_str()),
            HttpError::Response(e) => text2("response stream: ", e.message().as_str()),
            HttpError::Mcp(e) => text2("mcp: ", e.message().as_str()),
            HttpError::Auth(e) => text2("auth: ", e.message().as_str()),
            HttpError::Internal => "internal error".to_owned(),
        }
    }

    /// The status of the answer.
    pub open spec fn status(self) -> u16 {
        match self {
            HttpError::BadRequest(_) => 400,
            HttpError::NotFound => 404,
            HttpError::Forbidden(_) => 403,
            HttpError::Conflict(_) => 409,
            HttpError::PayloadTooLarge => 413,
            HttpError::TooManyRequests => 429,
            HttpError::Parse(_) => 400,
            HttpError::Session(SessionError::NotFound(_)) => 404,
            HttpError::Session(SessionError::MessageCapExceeded { .. }) => 429,
            HttpError::Session(_) => 400,
            HttpError::Agent(e) => match e {
                AgentStoreError::NotFound(_) => 400,
                AgentStoreError::NameNotFound(_) => 404,
                AgentStoreError::DefaultDeletionForbidden => 409,
                AgentStoreError::InUse(_) => 409,
                AgentStoreError::NameTaken(_) => 409,
                AgentStoreError::Parse(_) => 400,
                AgentStoreError::NoDefault => 500,
                AgentStoreError::Backend(_) => 500,
            },
            HttpError::Prompt(PromptError::PendingCapExceeded { .. }) => 429,
            HttpError::Prompt(PromptError::RequestNotFound(_)) => 404,
            HttpError::Prompt(PromptError::SessionNotFound(_)) => 404,
            HttpError::Prompt(_) => 400,
            HttpError::Response(ResponseError::NotFound(_)) => 404,
            HttpError::Response(_) => 502,
            HttpError::Mcp(e) => match e {
                McpError::ServerCapExceeded { .. } => 429,
                McpError::AliasTaken(_) => 409,
                McpError::NotFound(_) => 404,
                McpError::Parse(_) => 400,
                McpError::InvalidConfig(_) => 400,
                _ => 500,
            },
            HttpError::Auth(e) => match e {
                AuthError::Parse(_) => 400,
                AuthError::Unauthenticated => 401,
                AuthError::Jwt(_) => 401,
                AuthError::OAuthStateInvalid => 401,
                AuthError::EmailUnverified => 403,
                AuthError::NotMember(_) => 403,
                AuthError::OAuthProvider(_) => 502,
                _ => 500,
            },
            HttpError::Internal => 500,
        }
    }

    /// The message of the answer. Of what fails inside, no more is said than
    /// that it did.
    pub open spec fn answer(self) -> Seq<char> {
        match self {
            HttpError::BadRequest(detail) => detail@,
            HttpError::NotFound => "not found"@,
            HttpError::Forbidden(reason) => reason@,
            HttpError::Conflict(detail) => detail@,
            HttpError::PayloadTooLarge => "too large"@,
            HttpError::TooManyRequests => "too many requests"@,
            HttpError::Parse(e) => e.text(),
            HttpError::Session(SessionError::NotFound(_)) => "session not found"@,
            HttpError::Session(SessionError::AgentNotFound(_)) => "unknown agent_id"@,
            HttpError::Session(SessionError::MessageCapExceeded { .. }) => self.text(),
            HttpError::Session(e) => e.text(),
            HttpError::Agent(e) => match e {
                AgentStoreError::NotFound(_) => "unknown agent_id"@,
                AgentStoreError::NoDefault => "default agent not seeded"@,
                AgentStoreError::Backend(_) => "agent store error"@,
                _ => self.text(),
            },
            HttpError::Prompt(PromptError::PendingCapExceeded { .. }) => self.text(),
            HttpError::Prompt(PromptError::RequestNotFound(_)) => "not found"@,
            HttpError::Prompt(PromptError::SessionNotFound(_)) => "not found"@,
            HttpError::Prompt(e) => e.text(),
            HttpError::Response(ResponseError::NotFound(_)) => "stream not found"@,
            HttpError::Response(e) => e.text(),
            HttpError::Mcp(e) => match e {
                McpError::ServerCapExceeded { .. } => self.text(),
                McpError::AliasTaken(_) => self.text(),
                McpError::NotFound(_) => "mcp server not found"@,
                McpError::Parse(_) => self.text(),
                McpError::InvalidConfig(_) => self.text(),
                _ => "mcp store error"@,
            },
            HttpError::Auth(e) => match e {
                AuthError::Parse(p) => p.text(),
                AuthError::Unauthenticated => "unauthorized"@,
                AuthError::Jwt(_) => "unauthorized"@,
                AuthError::OAuthStateInvalid => "unauthorized"@,
                AuthError::EmailUnverified => "email not verified by provider"@,
                AuthError::NotMember(_) => self.text(),
                AuthError::OAuthProvider(_) => "oauth provider unavailable"@,
                _ => "auth error"@,
            },
            HttpError::Internal => "internal error"@,
        }
    }

    /// What is answered.
    pub fn into_response(self) -> (r: ErrorResponse)
        ensures
            r.status == self.status(),
            r.error@ == self.answer(),
    {
        let whole = self.message();
        match self {
            HttpError::BadRequest(detail) => ErrorResponse { status: 400, error: detail },
            HttpError::NotFound => reply(404, "not found"),
            HttpError::Forbidden(reason) => reply(403, reason),
            HttpError::Conflict(detail) => ErrorResponse { status: 409, error: detail },
            HttpError::PayloadTooLarge => reply(413, "too large"),
            HttpError::TooManyRequests => reply(429, "too many requests"),
            HttpError::Parse(e) => ErrorResponse { status: 400, error: e.message() },
            HttpError::Auth(AuthError::Parse(e)) => ErrorResponse { status: 400, error: e.message() },
            HttpError::Session(SessionError::NotFound(_)) => reply(404, "session not found"),
            HttpError::Session(SessionError::AgentNotFound(_)) => reply(400, "unknown agent_id"),
            HttpError::Agent(AgentStoreError::NotFound(_)) => reply(400, "unknown agent_id"),
            HttpError::Agent(AgentStoreError::NameNotFound(_)) => ErrorResponse {
                status: 404,
                error: whole,
            },
            HttpError::Session(SessionError::MessageCapExceeded { .. }) => ErrorResponse {
                status: 429,
                error: whole,
            },
            HttpError::Prompt(PromptError::PendingCapExceeded { .. }) => ErrorResponse {
                status: 429,
                error: whole,
            },
            HttpError::Mcp(McpError::ServerCapExceeded { .. }) => ErrorResponse {
                status: 429,
                error: whole,
            },
            HttpError::Session(e) => ErrorResponse { status: 400, error: e.message() },
            HttpError::Agent(AgentStoreError::DefaultDeletionForbidden) => ErrorResponse {
                status: 409,
                error: whole,
            },
            HttpError::Agent(AgentStoreError::InUse(_)) => ErrorResponse {
                status: 409,
                error: whole,
            },
            HttpError::Agent(AgentStoreError::NameTaken(_)) => ErrorResponse {
                status: 409,
                error: whole,
            },
            HttpError::Mcp(McpError::AliasTaken(_)) => ErrorResponse { status: 409, error: whole },
            HttpError::Agent(AgentStoreError::Parse(_)) => ErrorResponse {
                status: 400,
                error: whole,
            },
            HttpError::Agent(AgentStoreError::NoDefault) => reply(500, "default agent not seeded"),
            HttpError::Agent(_) => reply(500, "agent store error"),
            HttpError::Prompt(PromptError::RequestNotFound(_)) => reply(404, "not found"),
            HttpError::Prompt(PromptError::SessionNotFound(_)) => reply(404, "not found"),
            HttpError::Prompt(e) => ErrorResponse { status: 400, error: e.message() },
            HttpError::Response(ResponseError::NotFound(_)) => reply(404, "stream not found"),
            HttpError::Response(e) => ErrorResponse { status: 502, error: e.message() },
            HttpError::Mcp(McpError::NotFound(_)) => reply(404, "mcp server not found"),
            HttpError::Mcp(McpError::Parse(_)) => ErrorResponse { status: 400, error: whole },
            HttpError::Mcp(McpError::InvalidConfig(_)) => ErrorResponse {
                status: 400,
                error: whole,
            },
            HttpError::Mcp(_) => reply(500, "mcp store error"),
            HttpError::Auth(AuthError::Unauthenticated) => reply(401, "unauthorized"),
            HttpError::Auth(AuthError::Jwt(_)) => reply(401, "unauthorized"),
            HttpError::Auth(AuthError::OAuthStateInvalid) => reply(401, "unauthorized"),
            HttpError::Auth(AuthError::EmailUnverified) => reply(
                403,
                "email not verified by provider",
            ),
            HttpError::Auth(AuthError::NotMember(_)) => ErrorResponse { status: 403, error: whole },
            HttpError::Auth(AuthError::OAuthProvider(_)) => reply(
                502,
                "oauth provider unavailable",
            ),
            HttpError::Auth(_) => reply(500, "auth error"),
            HttpError::Internal => reply(500, "internal error"),
        }
    }
}

fn reply(status: u16, error: &str) -> (r: ErrorResponse)
    ensures
        r.status == status,
        r.error@ == error@,
{
    ErrorResponse { status, error: error.to_owned() }
}

/// A request that failed is answered with a client or a server error, never with
/// success.
pub proof fn law_errors_are_not_success(e: HttpError)
    ensures
        400 <= e.status() < 600,
{
}

/// What failed inside the server is not told: of any server error of a store the
/// answer is the same, whatever its cause.
pub proof fn law_internal_causes_are_not_told(a: HttpError, b: HttpError)
    requires
        a.status() == 500,
        b.status() == 500,
        a is Mcp && b is Mcp || a is Auth && b is Auth,
    ensures
        a.answer() == b.answer(),
{
}

/// The status says what went wrong: a thing that is not there is not found, what collides is a
/// conflict, a limit that is reached asks to wait, who is not known is turned away and who may
/// not is forbidden, what has the wrong form is a bad request, and what fails inside is an
/// error of the server.
pub proof fn law_status_says_what_went_wrong(e: HttpError)
    ensures
        e is NotFound ==> e.status() == 404,
        e is BadRequest || e is Parse ==> e.status() == 400,
        e is Forbidden ==> e.status() == 403,
        e is Conflict ==> e.status() == 409,
        e is PayloadTooLarge ==> e.status() == 413,
        e is TooManyRequests ==> e.status() == 429,
        e is Internal ==> e.status() == 500,
        e matches HttpError::Session(s) ==> e.status() == (if s is NotFound {
            404
        } else if s is MessageCapExceeded {
            429
        } else {
            400int
        }),
        e matches HttpError::Prompt(p) ==> e.status() == (if p is PendingCapExceeded {
            429
        } else if p is RequestNotFound || p is SessionNotFound {
            404
        } else {
            400int
        }),
        e matches HttpError::Response(r) ==> e.status() == (if r is NotFound {
            404
        } else {
            502int
        }),
        e matches HttpError::Agent(a) ==> e.status() == (if a is NotFound || a is Parse {
            400
        } else if a is NameNotFound {
            404
        } else if a is DefaultDeletionForbidden || a is InUse || a is NameTaken {
            409
        } else {
            500int
        }),
        e matches HttpError::Mcp(m) ==> e.status() == (if m is ServerCapExceeded {
            429
        } else if m is AliasTaken {
            409
        } else if m is NotFound {
            404
        } else if m is Parse || m is InvalidConfig {
            400
        } else {
            500int
        }),
        e matches HttpError::Auth(a) ==> e.status() == (if a is Unauthenticated || a is Jwt || a
            is OAuthStateInvalid {
            401
        } else if a is EmailUnverified || a is NotMember {
            403
        } else if a is Parse {
            400
        } else if a is OAuthProvider {
            502
        } else {
            500int
        }),
{
}

/// The message says which fault it was, and carries its detail.
pub proof fn law_http_error_says_what_is_wrong(error: HttpError)
    ensures
        error matches HttpError::BadRequest(detail) ==> error.text() == "invalid request: "@
            + detail@,
        error is NotFound ==> error.text() == "not found"@,
        error matches HttpError::Forbidden(reason) ==> error.text() == "forbidden: "@ + reason@,
        error matches HttpError::Conflict(detail) ==> error.text() == "conflict: "@ + detail@,
        error is PayloadTooLarge ==> error.text() == "payload too large"@,
        error is TooManyRequests ==> error.text() == "too many requests"@,
        error matches HttpError::Parse(e) ==> error.text() == "parse: "@ + e.text(),
        error matches HttpError::Session(e) ==> error.text() == "session: "@ + e.text(),
        error matches HttpError::Agent(e) ==> error.text() == "agent: "@ + e.text(),
        error matches HttpError::Prompt(e) ==> error.text() == "prompt pipeline: "@ + e.text(),
        error matches HttpError::Response(e) ==> error.text() == "response stream: "@ + e.text(),
        error matches HttpError::Mcp(e) ==> error.text() == "mcp: "@ + e.text(),
        error matches HttpError::Auth(e) ==> error.text() == "auth: "@ + e.text(),
        error is Internal ==> error.text() == "internal error"@,
{
}

/// The answer tells who asked what they can mend: the fault of a request is told with its
/// detail, of a thing that is not there what kind of thing it is, and of what failed inside no
/// more than where.
pub proof fn law_answer_tells_what_to_mend(e: HttpError)
    ensures
        e matches HttpError::BadRequest(detail) ==> e.answer() == detail@,
        e matches HttpError::Forbidden(reason) ==> e.answer() == reason@,
        e matches HttpError::Conflict(detail) ==> e.answer() == detail@,
        e is NotFound ==> e.answer() == "not found"@,
        e is PayloadTooLarge ==> e.answer() == "too large"@,
        e is TooManyRequests ==> e.answer() == "too many requests"@,
        e matches HttpError::Parse(p) ==> e.answer() == p.text(),
        e matches HttpError::Session(s) ==> e.answer() == (match s {
            SessionError::NotFound(_) => "session not found"@,
            SessionError::AgentNotFound(_) => "unknown agent_id"@,
            SessionError::MessageCapExceeded { .. } => "session: "@ + s.text(),
            _ => s.text(),
        }),
        e matches HttpError::Agent(a) ==> e.answer() == (match a {
            AgentStoreError::NotFound(_) => "unknown agent_id"@,
            AgentStoreError::NoDefault => "default agent not seeded"@,
            AgentStoreError::Backend(_) => "agent store error"@,
            _ => "agent: "@ + a.text(),
        }),
        e matches HttpError::Prompt(p) ==> e.answer() == (match p {
            PromptError::PendingCapExceeded { .. } => "prompt pipeline: "@ + p.text(),
            PromptError::RequestNotFound(_) => "not found"@,
            PromptError::SessionNotFound(_) => "not found"@,
            _ => p.text(),
        }),
        e matches HttpError::Response(r) ==> e.answer() == (match r {
            ResponseError::NotFound(_) => "stream not found"@,
            _ => r.text(),
        }),
        e matches HttpError::Mcp(m) ==> e.answer() == (if m is NotFound {
            "mcp server not found"@
        } else if m is ServerCapExceeded || m is AliasTaken || m is Parse || m is InvalidConfig {
            "mcp: "@ + m.text()
        } else {
            "mcp store error"@
        }),
        e matches HttpError::Auth(a) ==> {
            &&& a is Unauthenticated || a is Jwt || a is OAuthStateInvalid ==> e.answer()
                == "unauthorized"@
            &&& a matches AuthError::Parse(p) ==> e.answer() == p.text()
            &&& a is EmailUnverified ==> e.answer() == "email not verified by provider"@
            &&& a is NotMember ==> e.answer() == "auth: "@ + a.text()
            &&& a is OAuthProvider ==> e.answer() == "oauth provider unavailable"@
        },
{
}

} // verus!
