//! Tools, as an agent's provider sees them.

use crate::types::ToolName;
use vstd::prelude::*;

verus! {

/// A tool that is offered to a model.
#[derive(Debug)]
pub struct ToolSpec {
    pub name: ToolName,
    pub description: String,
    /// The JSON schema of the input.
    pub input_schema: String,
}

impl Clone for ToolSpec {
    fn clone(&self) -> (r: ToolSpec)
        ensures
            r == *self,
    {
        ToolSpec {
            name: self.name.clone(),
            description: self.description.clone(),
            input_schema: self.input_schema.clone(),
        }
    }
}

/// Why a tool call failed.
#[derive(Debug)]
pub enum ToolError {
    /// What is behind the tool failed.
    Upstream { status: u16, body: String },
}

} // verus!
