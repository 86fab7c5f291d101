//! Conversations.

use crate::ids::{uuid_text, AgentId, SessionId};
use crate::text::{decimal, text2, text3, text_number};
use vstd::prelude::*;

verus! {

/// How the store of conversations fails.
#[derive(Debug)]
pub enum SessionError {
    /// There is no such conversation.
    NotFound(SessionId),
    /// There is no such agent.
    AgentNotFound(AgentId),
    /// The conversation has as many messages as it may.
    MessageCapExceeded { max: usize },
    /// The store failed.
    Backend(String),
}

impl SessionError {
    /// The text of the error.
    pub open spec fn text(self) -> Seq<char> {
        match self {
            SessionError::NotFound(id) => "session "@ + uuid_text(id.0) + " not found"@,
            SessionError::AgentNotFound(id) => "agent "@ + uuid_text(id.0) + " not found"@,
            SessionError::MessageCapExceeded { max } => "message cap reached (max "@ + decimal(
                max as nat,
            ) + ")"@,
            SessionError::Backend(detail) => "session store: "@ + detail@,
        }
    }

    /// The error as one line of text.
    pub fn message(&self) -> (s: String)
        ensures
            s@ == self.text(),
    {
        match self {
            SessionError::NotFound(id) => text3("session ", id.text().as_str(), " not found"),
            SessionError::AgentNotFound(id) => text3("agent ", id.text().as_str(), " not found"),
            SessionError::MessageCapExceeded { max } => text_number(
                "message cap reached (max ",
                *max,
                ")",
            ),
            SessionError::Backend(detail) => text2("session store: ", detail.as_str()),
        }
    }
}

/// The message says which fault it was, and carries its detail.
pub proof fn law_session_error_says_what_is_wrong(error: SessionError)
    ensures
        error matches SessionError::NotFound(id) ==> error.text() == "session "@ + uuid_text(id.0)
            + " not found"@,
        error matches SessionError::AgentNotFound(id) ==> error.text() == "agent "@
            + uuid_text(id.0) + " not found"@,
        error matches SessionError::MessageCapExceeded { max } ==> error.text()
            == "message cap reached (max "@ + decimal(max as nat) + ")"@,
        error matches SessionError::Backend(detail) ==> error.text() == "session store: "@
            + detail@,
{
}

} // verus!
