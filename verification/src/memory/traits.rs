//! What an agent loop asks for its system prompt.

use crate::ids::SessionId;
use crate::types::{Participant, RequestKindPayload};
use vstd::prelude::*;

verus! {

/// Why a system prompt could not be had.
#[derive(Debug)]
pub enum MemoryError {
    /// The memory store failed.
    Backend(String),
    /// The session could not be looked up.
    Session(String),
    /// The agent could not be looked up.
    Agent(String),
}

impl MemoryError {
    /// The text of the error.
    pub open spec fn text(self) -> Seq<char> {
        match self {
            MemoryError::Backend(detail) => "memory backend error: "@ + detail@,
            MemoryError::Session(detail) => "session lookup: "@ + detail@,
            MemoryError::Agent(detail) => "agent lookup: "@ + detail@,
        }
    }

    /// The error as one line of text.
    pub fn message(&self) -> (s: String)
        ensures
            s@ == self.text(),
    {
        let mut out = String::new();
        match self {
            MemoryError::Backend(detail) => {
                out.append("memory backend error: ");
                out.append(detail.as_str());
            },
            MemoryError::Session(detail) => {
                out.append("session lookup: ");
                out.append(detail.as_str());
            },
            MemoryError::Agent(detail) => {
                out.append("agent lookup: ");
                out.append(detail.as_str());
            },
        }
        proof {
            assert(out@ =~= self.text());
        }
        out
    }
}

/// Gives the system prompt of a turn. `viewer` is the participant that the worker
/// drives, `kind_payload` what the turn is for.
pub trait Memory {
    /// The system prompt of the turn.
    fn system_prompt(
        &self,
        session: SessionId,
        viewer: Participant,
        kind_payload: &RequestKindPayload,
    ) -> Result<String, MemoryError>;
}

/// A constant system prompt, the same for every session.
#[derive(Debug)]
pub struct StaticMemory {
    prompt: String,
}

impl StaticMemory {
    /// The prompt.
    pub closed spec fn prompt(self) -> String {
        self.prompt
    }

    /// A memory that always gives `prompt`.
    pub fn new(prompt: String) -> (m: StaticMemory)
        ensures
            m.prompt() == prompt,
    {
        StaticMemory { prompt }
    }
}

impl Memory for StaticMemory {
    fn system_prompt(
        &self,
        session: SessionId,
        viewer: Participant,
        kind_payload: &RequestKindPayload,
    ) -> (r: Result<String, MemoryError>)
        ensures
            r == Ok::<String, MemoryError>(self.prompt()),
    {
        Ok(self.prompt.clone())
    }
}

/// The message says which fault it was, and carries its detail.
pub proof fn law_memory_error_says_what_is_wrong(error: MemoryError)
    ensures
        error matches MemoryError::Backend(detail) ==> error.text() == "memory backend error: "@
            + detail@,
        error matches MemoryError::Session(detail) ==> error.text() == "session lookup: "@
            + detail@,
        error matches MemoryError::Agent(detail) ==> error.text() == "agent lookup: "@ + detail@,
{
}

} // verus!
