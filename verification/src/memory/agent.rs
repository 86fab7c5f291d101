//! The system prompt of an agent: the core of the turn's mode, the index of
//! other agents, the agent's role and its memory section.

use crate::ids::AgentId;
use crate::memory::composer::MemorySection;
use crate::memory::traits::MemoryError;
use crate::text::{has_substring, occurs_at};
use crate::types::{Participant, RequestKind, RequestKindPayload};
use vstd::prelude::*;

verus! {

/// Opens the core.
pub const CORE_TAG_OPEN: &'static str = "<core>\n";

/// Closes the core.
pub const CORE_TAG_CLOSE: &'static str = "\n</core>\n";

/// Opens the role.
pub const ROLE_TAG_OPEN: &'static str = "<role>\n";

/// Closes the role.
pub const ROLE_TAG_CLOSE: &'static str = "\n</role>";

/// The core of each mode of turn.
#[derive(Debug)]
pub struct ModeCores {
    pub normal: String,
    pub reflection: String,
    pub resolution: String,
}

impl ModeCores {
    /// The core of the mode `kind`.
    pub open spec fn chosen(self, kind: RequestKind) -> String {
        match kind {
            RequestKind::Normal => self.normal,
            RequestKind::Reflection => self.reflection,
            RequestKind::Resolution => self.resolution,
        }
    }

    /// The core of the mode `kind`.
    pub fn for_kind(&self, kind: RequestKind) -> (s: String)
        ensures
            s == self.chosen(kind),
    {
        match kind {
            RequestKind::Normal => self.normal.clone(),
            RequestKind::Reflection => self.reflection.clone(),
            RequestKind::Resolution => self.resolution.clone(),
        }
    }
}

/// A part of the prompt that is set off by a line break, and left out with it
/// where there is nothing in it.
pub open spec fn line_before(s: Seq<char>) -> Seq<char> {
    if s.len() == 0 {
        Seq::empty()
    } else {
        "\n"@ + s
    }
}

/// A part of the prompt that is followed by a line break, and left out with it
/// where there is nothing in it.
pub open spec fn line_after(s: Seq<char>) -> Seq<char> {
    if s.len() == 0 {
        Seq::empty()
    } else {
        s + "\n"@
    }
}

/// The system prompt made of its parts.
pub open spec fn prompt_text(
    core: Seq<char>,
    agents: Seq<char>,
    role: Seq<char>,
    memory: Seq<char>,
) -> Seq<char> {
    CORE_TAG_OPEN@ + core + CORE_TAG_CLOSE@ + line_after(agents) + ROLE_TAG_OPEN@ + role
        + ROLE_TAG_CLOSE@ + line_before(memory)
}

/// Assembles the system prompt from its parts.
pub fn assemble_prompt(core: &str, agents: &str, role: &str, memory: &str) -> (s: String)
    ensures
        s@ == prompt_text(core@, agents@, role@, memory@),
{
    let mut out = String::new();
    out.append(CORE_TAG_OPEN);
    out.append(core);
    out.append(CORE_TAG_CLOSE);
    out.append(agents);
    if !agents.is_empty() {
        out.append("\n");
    }
    out.append(ROLE_TAG_OPEN);
    out.append(role);
    out.append(ROLE_TAG_CLOSE);
    if !memory.is_empty() {
        out.append("\n");
    }
    out.append(memory);
    proof {
        assert(out@ =~= prompt_text(core@, agents@, role@, memory@));
    }
    out
}

/// Assembles the system prompts of agents.
#[derive(Debug)]
pub struct AgentMemory {
    cores: ModeCores,
}

impl AgentMemory {
    /// The core of each mode.
    pub closed spec fn cores(self) -> ModeCores {
        self.cores
    }

    /// An assembler with the given cores.
    pub fn new(cores: ModeCores) -> (m: AgentMemory)
        ensures
            m.cores() == cores,
    {
        AgentMemory { cores }
    }

    /// The agent whose prompt is asked for: only an agent has one.
    pub fn viewing_agent(viewer: Participant) -> (r: Result<AgentId, MemoryError>)
        ensures
            match viewer {
                Participant::Agent { agent_id } => r == Ok::<AgentId, MemoryError>(agent_id),
                Participant::Human => r matches Err(MemoryError::Backend(detail)) && detail@
                    == "system_prompt called with Human viewer; agent worker only"@,
            },
    {
        match viewer {
            Participant::Agent { agent_id } => Ok(agent_id),
            Participant::Human => Err(
                MemoryError::Backend(
                    "system_prompt called with Human viewer; agent worker only".to_owned(),
                ),
            ),
        }
    }

    /// The system prompt of a turn of `viewer`. `role` is the agent's role prompt,
    /// `agents` the index of other agents, empty where there are none, `section`
    /// the agent's memory section.
    pub fn system_prompt(
        &self,
        viewer: Participant,
        kind_payload: &RequestKindPayload,
        role: &str,
        agents: &str,
        section: &MemorySection,
    ) -> (r: Result<String, MemoryError>)
        ensures
            match viewer {
                Participant::Human => r matches Err(MemoryError::Backend(detail)) && detail@
                    == "system_prompt called with Human viewer; agent worker only"@,
                Participant::Agent { .. } => r matches Ok(s) && s@ == prompt_text(
                    self.cores().chosen(
                        match *kind_payload {
                            RequestKindPayload::Normal => RequestKind::Normal,
                            RequestKindPayload::Reflection { .. } => RequestKind::Reflection,
                            RequestKindPayload::Resolution { .. } => RequestKind::Resolution,
                        },
                    )@,
                    agents@,
                    role@,
                    section.rendered(),
                ),
            },
    {
        match AgentMemory::viewing_agent(viewer) {
            Err(e) => Err(e),
            Ok(_) => {
                let core = self.cores.for_kind(kind_payload.kind());
                Ok(assemble_prompt(core.as_str(), agents, role, section.text()))
            },
        }
    }
}

proof fn lemma_part_of(a: Seq<char>, b: Seq<char>, c: Seq<char>)
    ensures
        has_substring(a + b + c, b),
{
    let p = a.len() as int;
    assert((a + b + c).subrange(p, p + b.len()) =~= b);
    assert(occurs_at(a + b + c, b, p));
}

/// A system prompt has all its parts, whole and in their order: the core between its tags,
/// the index of other agents, the role between its tags, and the memory section at the end.
/// A part that is empty leaves no line behind.
pub proof fn law_prompt_has_all_its_parts(
    core: Seq<char>,
    agents: Seq<char>,
    role: Seq<char>,
    memory: Seq<char>,
)
    ensures
        ({
            let all = prompt_text(core, agents, role, memory);
            &&& has_substring(all, "<core>\n"@ + core + "\n</core>\n"@)
            &&& has_substring(all, "<role>\n"@ + role + "\n</role>"@)
            &&& has_substring(all, agents)
            &&& memory.len() > 0 ==> all.skip(all.len() - memory.len()) == memory
            &&& agents.len() == 0 && memory.len() == 0 ==> all == "<core>\n"@ + core
                + "\n</core>\n"@ + "<role>\n"@ + role + "\n</role>"@
            &&& all.len() == "<core>\n"@.len() + core.len() + "\n</core>\n"@.len() + agents.len()
                + (if agents.len() > 0 {
                "\n"@.len()
            } else {
                0
            }) + "<role>\n"@.len() + role.len() + "\n</role>"@.len() + memory.len() + (
            if memory.len() > 0 {
                "\n"@.len()
            } else {
                0
            })
        }),
{
    let all = prompt_text(core, agents, role, memory);
    let first = "<core>\n"@ + core + "\n</core>\n"@;
    let third = "<role>\n"@ + role + "\n</role>"@;
    let none = Seq::<char>::empty();
    lemma_part_of(none, first, line_after(agents) + third + line_before(memory));
    assert(all =~= none + first + (line_after(agents) + third + line_before(memory)));
    lemma_part_of(first + line_after(agents), third, line_before(memory));
    assert(all =~= (first + line_after(agents)) + third + line_before(memory));
    if agents.len() == 0 {
        assert(agents =~= none);
        lemma_part_of(none, none, all);
        assert(all =~= none + none + all);
        assert(all =~= first + third + line_before(memory));
    } else {
        lemma_part_of(first, agents, "\n"@ + third + line_before(memory));
        assert(all =~= first + agents + ("\n"@ + third + line_before(memory)));
    }
    if memory.len() > 0 {
        assert(all.skip(all.len() - memory.len()) =~= memory);
    } else if agents.len() == 0 {
        assert(all =~= "<core>\n"@ + core + "\n</core>\n"@ + "<role>\n"@ + role + "\n</role>"@);
    }
}

/// Each mode of turn has its own core.
pub proof fn law_each_mode_has_its_core(cores: ModeCores, kind: RequestKind)
    ensures
        kind is Normal ==> cores.chosen(kind) == cores.normal,
        kind is Reflection ==> cores.chosen(kind) == cores.reflection,
        kind is Resolution ==> cores.chosen(kind) == cores.resolution,
{
}

} // verus!
