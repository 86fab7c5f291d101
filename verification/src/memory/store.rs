//! What the memory store keeps and takes: mutations, rows, journal events,
//! validations and contradictions.

use crate::db::DbFault;
use crate::ids::{
    uuid_text, AgentId, ContradictionEventId, MemoryEventId, MemoryId, OrgId, PromptRequestId,
    ValidationEventId,
};
use crate::memory::limits::{CONTRADICTION_REASON_MAX_BYTES, VALIDATION_EVIDENCE_MAX_BYTES};
use crate::memory::types::{
    MemoryContent, MemoryKind, MemoryState, MutationKind, MutationSourceKind,
};
use crate::text::utf8_len;
use crate::time::Timestamp;
use crate::types::{check_length, length_error, ParseError};
use vstd::prelude::*;
use vstd::std_specs::convert::TryFromSpecImpl;

verus! {

/// Every way in which the memory store fails.
#[allow(inconsistent_fields)]
#[derive(Debug)]
pub enum MemoryStoreError {
    /// The memory was forgotten or never existed.
    NotFound { id: MemoryId },
    /// The journal has no such event for the agent.
    EventNotFound { id: MemoryEventId },
    /// There is no such contradiction.
    ContradictionNotFound(ContradictionEventId),
    /// The memory belongs to another agent: memory is private to its agent.
    WrongAgent { id: MemoryId, agent: AgentId },
    /// Only an operator touches a pinned memory.
    PinnedImmutable { id: MemoryId },
    /// A stored value is not one the store writes.
    Parse(ParseError),
    /// The tables underneath failed.
    Db(DbFault),
    /// The embedding provider failed.
    Provider(String),
}

/// The text of an identifier in a message: its type and its value.
pub open spec fn tagged_id(tag: Seq<char>, id: u128) -> Seq<char> {
    tag + "("@ + uuid_text(id) + ")"@
}

fn push_tagged(out: &mut String, tag: &str, id: String)
    ensures
        final(out)@ == old(out)@ + (tag@ + "("@ + id@ + ")"@),
{
    out.append(tag);
    out.append("(");
    out.append(id.as_str());
    out.append(")");
    proof {
        assert(out@ =~= old(out)@ + (tag@ + "("@ + id@ + ")"@));
    }
}

impl MemoryStoreError {
    /// The text of the error.
    pub open spec fn text(self) -> Seq<char> {
        match self {
            MemoryStoreError::NotFound { id } => "memory "@ + tagged_id("MemoryId"@, id.0)
                + " not found"@,
            MemoryStoreError::EventNotFound { id } => "memory event "@ + tagged_id(
                "MemoryEventId"@,
                id.0,
            ) + " not found"@,
            MemoryStoreError::ContradictionNotFound(id) => "contradiction "@ + tagged_id(
                "ContradictionEventId"@,
                id.0,
            ) + " not found or already resolved"@,
            MemoryStoreError::WrongAgent { id, agent } => "memory "@ + tagged_id("MemoryId"@, id.0)
                + " does not belong to agent "@ + tagged_id("AgentId"@, agent.0),
            MemoryStoreError::PinnedImmutable { id } => "memory "@ + tagged_id("MemoryId"@, id.0)
                + " is pinned and cannot be mutated by an agent"@,
            MemoryStoreError::Parse(e) => "parse: "@ + e.text(),
            MemoryStoreError::Db(DbFault::DuplicateKey) =>
                "memory store db error: duplicate key"@,
            MemoryStoreError::Db(DbFault::Driver(detail)) => "memory store db error: "@ + detail@,
            MemoryStoreError::Provider(detail) => "memory store embedding provider: "@ + detail@,
        }
    }

    /// The error as one line of text.
    pub fn message(&self) -> (s: String)
        ensures
            s@ == self.text(),
    {
        let mut out = String::new();
        match self {
            MemoryStoreError::NotFound { id } => {
                out.append("memory ");
                push_tagged(&mut out, "MemoryId", id.text());
                out.append(" not found");
            },
            MemoryStoreError::EventNotFound { id } => {
                out.append("memory event ");
                push_tagged(&mut out, "MemoryEventId", id.text());
                out.append(" not found");
            },
            MemoryStoreError::ContradictionNotFound(id) => {
                out.append("contradiction ");
                push_tagged(&mut out, "ContradictionEventId", id.text());
                out.append(" not found or already resolved");
            },
            MemoryStoreError::WrongAgent { id, agent } => {
                out.append("memory ");
                push_tagged(&mut out, "MemoryId", id.text());
                out.append(" does not belong to agent ");
                push_tagged(&mut out, "AgentId", agent.text());
            },
            MemoryStoreError::PinnedImmutable { id } => {
                out.append("memory ");
                push_tagged(&mut out, "MemoryId", id.text());
                out.append(" is pinned and cannot be mutated by an agent");
            },
            MemoryStoreError::Parse(e) => {
                out.append("parse: ");
                out.append(e.message().as_str());
            },
            MemoryStoreError::Db(DbFault::DuplicateKey) => {
                out.append("memory store db error: duplicate key");
            },
            MemoryStoreError::Db(DbFault::Driver(detail)) => {
                out.append("memory store db error: ");
                out.append(detail.as_str());
            },
            MemoryStoreError::Provider(detail) => {
                out.append("memory store embedding provider: ");
                out.append(detail.as_str());
            },
        }
        proof {
            assert(out@ =~= self.text());
        }
        out
    }
}

/// Where a mutation came from. A turn carries the request that produced it.
#[derive(Clone, Copy, Debug, PartialEq, Eq, Structural)]
pub enum MutationSource {
    /// An agent's own turn.
    Turn(PromptRequestId),
    /// An operator.
    Operator,
    /// The librarian's sweep.
    Librarian,
}

impl MutationSource {
    /// The kind kept on the journal row.
    pub open spec fn source_kind(self) -> MutationSourceKind {
        match self {
            MutationSource::Turn(_) => MutationSourceKind::Turn,
            MutationSource::Operator => MutationSourceKind::Operator,
            MutationSource::Librarian => MutationSourceKind::Librarian,
        }
    }

    /// The request kept on the journal row.
    pub open spec fn request(self) -> Option<PromptRequestId> {
        match self {
            MutationSource::Turn(id) => Some(id),
            _ => None,
        }
    }

    /// The kind kept on the journal row.
    pub fn kind(&self) -> (k: MutationSourceKind)
        ensures
            k == self.source_kind(),
    {
        match self {
            MutationSource::Turn(_) => MutationSourceKind::Turn,
            MutationSource::Operator => MutationSourceKind::Operator,
            MutationSource::Librarian => MutationSourceKind::Librarian,
        }
    }

    /// The request kept on the journal row: only a turn has one.
    pub fn turn_id(&self) -> (id: Option<PromptRequestId>)
        ensures
            id == self.request(),
    {
        match self {
            MutationSource::Turn(id) => Some(*id),
            MutationSource::Operator => None,
            MutationSource::Librarian => None,
        }
    }

    /// Whether pinned rows are open to the source: to the operator alone.
    pub fn bypasses_pin(&self) -> (r: bool)
        ensures
            r == (*self == MutationSource::Operator),
    {
        match self {
            MutationSource::Operator => true,
            _ => false,
        }
    }
}

/// One change asked of the store.
#[derive(Debug)]
pub enum MemoryMutation {
    /// Mint a memory.
    Write {
        agent: AgentId,
        kind: MemoryKind,
        content: MemoryContent,
        state: MemoryState,
        pinned: bool,
        source: MutationSource,
    },
    /// Replace the content of a memory; `state` is the state after the update,
    /// kind and pin stay.
    Update {
        agent: AgentId,
        target: MemoryId,
        content: MemoryContent,
        state: MemoryState,
        source: MutationSource,
    },
    /// Drop a memory. The journal keeps what it was.
    Forget { agent: AgentId, target: MemoryId, source: MutationSource },
}

impl MemoryMutation {
    /// The kind of the journal event that the mutation appends.
    pub fn mutation_kind(&self) -> (k: MutationKind)
        ensures
            k == (match *self {
                MemoryMutation::Write { .. } => MutationKind::Write,
                MemoryMutation::Update { .. } => MutationKind::Update,
                MemoryMutation::Forget { .. } => MutationKind::Forget,
            }),
    {
        match self {
            MemoryMutation::Write { .. } => MutationKind::Write,
            MemoryMutation::Update { .. } => MutationKind::Update,
            MemoryMutation::Forget { .. } => MutationKind::Forget,
        }
    }

    /// The agent that the mutation is about.
    pub open spec fn owner(self) -> AgentId {
        match self {
            MemoryMutation::Write { agent, .. } => agent,
            MemoryMutation::Update { agent, .. } => agent,
            MemoryMutation::Forget { agent, .. } => agent,
        }
    }

    /// Where the mutation came from.
    pub open spec fn origin(self) -> MutationSource {
        match self {
            MemoryMutation::Write { source, .. } => source,
            MemoryMutation::Update { source, .. } => source,
            MemoryMutation::Forget { source, .. } => source,
        }
    }

    /// The agent that the mutation is about.
    pub fn agent(&self) -> (a: AgentId)
        ensures
            a == self.owner(),
    {
        match self {
            MemoryMutation::Write { agent, .. } => *agent,
            MemoryMutation::Update { agent, .. } => *agent,
            MemoryMutation::Forget { agent, .. } => *agent,
        }
    }

    /// Where the mutation came from.
    pub fn source(&self) -> (s: MutationSource)
        ensures
            s == self.origin(),
    {
        match self {
            MemoryMutation::Write { source, .. } => *source,
            MemoryMutation::Update { source, .. } => *source,
            MemoryMutation::Forget { source, .. } => *source,
        }
    }
}

/// One memory.
#[derive(Debug)]
pub struct MemoryRow {
    pub id: MemoryId,
    pub agent_id: AgentId,
    /// The organisation of the agent.
    pub org_id: OrgId,
    pub kind: MemoryKind,
    pub content: MemoryContent,
    pub state: MemoryState,
    pub pinned: bool,
    /// The turn that wrote the memory; none for operator notes and librarian
    /// merges.
    pub source_turn_id: Option<PromptRequestId>,
    pub created_at: Timestamp,
    pub last_validated_at: Timestamp,
    pub last_accessed_at: Timestamp,
    pub access_count: u64,
}

impl Clone for MemoryRow {
    fn clone(&self) -> (r: MemoryRow)
        ensures
            r == *self,
    {
        MemoryRow {
            id: self.id,
            agent_id: self.agent_id,
            org_id: self.org_id,
            kind: self.kind,
            content: self.content.clone(),
            state: self.state,
            pinned: self.pinned,
            source_turn_id: self.source_turn_id,
            created_at: self.created_at,
            last_validated_at: self.last_validated_at,
            last_accessed_at: self.last_accessed_at,
            access_count: self.access_count,
        }
    }
}

/// What a successful mutation did.
#[derive(Debug)]
pub struct MutationOutcome {
    pub event_id: MemoryEventId,
    pub memory_id: MemoryId,
    /// The memory after the mutation; none once it is forgotten.
    pub row: Option<MemoryRow>,
}

/// What a journal event records.
#[derive(Debug)]
pub enum MemoryEventPayload {
    /// A memory was minted, with all that is needed to mint it again.
    Write { content: MemoryContent, kind: MemoryKind, state: MemoryState, pinned: bool },
    /// A memory changed; `kind`, `state` and `pinned` are what it has since.
    Update {
        before: MemoryContent,
        after: MemoryContent,
        kind: MemoryKind,
        state: MemoryState,
        pinned: bool,
    },
    /// A memory was removed; `before` is what it said.
    Forget { before: MemoryContent },
}

impl MemoryEventPayload {
    /// The kind of the event.
    pub open spec fn mutation(self) -> MutationKind {
        match self {
            MemoryEventPayload::Write { .. } => MutationKind::Write,
            MemoryEventPayload::Update { .. } => MutationKind::Update,
            MemoryEventPayload::Forget { .. } => MutationKind::Forget,
        }
    }

    /// The kind of the event.
    pub fn kind(&self) -> (k: MutationKind)
        ensures
            k == self.mutation(),
    {
        match self {
            MemoryEventPayload::Write { .. } => MutationKind::Write,
            MemoryEventPayload::Update { .. } => MutationKind::Update,
            MemoryEventPayload::Forget { .. } => MutationKind::Forget,
        }
    }
}

impl Clone for MemoryEventPayload {
    fn clone(&self) -> (r: MemoryEventPayload)
        ensures
            r == *self,
    {
        match self {
            MemoryEventPayload::Write { content, kind, state, pinned } => MemoryEventPayload::Write {
                content: content.clone(),
                kind: *kind,
                state: *state,
                pinned: *pinned,
            },
            MemoryEventPayload::Update { before, after, kind, state, pinned } =>
                MemoryEventPayload::Update {
                before: before.clone(),
                after: after.clone(),
                kind: *kind,
                state: *state,
                pinned: *pinned,
            },
            MemoryEventPayload::Forget { before } => MemoryEventPayload::Forget {
                before: before.clone(),
            },
        }
    }
}

/// One event of the journal.
#[derive(Debug)]
pub struct MemoryEvent {
    pub id: MemoryEventId,
    pub agent_id: AgentId,
    /// The organisation of the agent.
    pub org_id: OrgId,
    pub target_memory_id: MemoryId,
    pub source: MutationSource,
    pub created_at: Timestamp,
    pub payload: MemoryEventPayload,
}

impl MemoryEvent {
    /// The kind of the event.
    pub fn mutation_kind(&self) -> (k: MutationKind)
        ensures
            k == self.payload.mutation(),
    {
        self.payload.kind()
    }
}

impl Clone for MemoryEvent {
    fn clone(&self) -> (r: MemoryEvent)
        ensures
            r == *self,
    {
        MemoryEvent {
            id: self.id,
            agent_id: self.agent_id,
            org_id: self.org_id,
            target_memory_id: self.target_memory_id,
            source: self.source,
            created_at: self.created_at,
            payload: self.payload.clone(),
        }
    }
}

/// What a similarity search is narrowed to.
#[derive(Debug)]
pub struct SearchFilter {
    /// The kinds searched; all of them where there is none.
    pub kinds: Option<Vec<MemoryKind>>,
    /// The least trusted state searched.
    pub min_state: Option<MemoryState>,
}

/// How alike two memories are, as far as decisions go: the score as text, and
/// whether it reaches the threshold of a duplicate.
#[derive(Debug)]
pub struct Similarity {
    pub text: String,
    pub duplicate: bool,
}

/// Two memories of one agent that say alike things.
#[derive(Debug)]
pub struct PairCandidate {
    pub a: MemoryRow,
    pub b: MemoryRow,
    pub similarity: Similarity,
}

/// A flagged contradiction. It is pending while no resolution field is set; a
/// mutation closes it with `resolution_event_id`, a turn that changed nothing
/// with `resolution_reason`.
#[derive(Debug)]
pub struct ContradictionEventRow {
    pub id: ContradictionEventId,
    pub agent_id: AgentId,
    /// The organisation of the agent.
    pub org_id: OrgId,
    pub memory_a: MemoryId,
    pub memory_b: MemoryId,
    pub reason: String,
    pub created_at: Timestamp,
    pub resolved_at: Option<Timestamp>,
    pub resolution_event_id: Option<MemoryEventId>,
    pub resolution_reason: Option<String>,
}

impl Clone for ContradictionEventRow {
    fn clone(&self) -> (r: ContradictionEventRow)
        ensures
            r == *self,
    {
        ContradictionEventRow {
            id: self.id,
            agent_id: self.agent_id,
            org_id: self.org_id,
            memory_a: self.memory_a,
            memory_b: self.memory_b,
            reason: self.reason.clone(),
            created_at: self.created_at,
            resolved_at: self.resolved_at,
            resolution_event_id: self.resolution_event_id,
            resolution_reason: match &self.resolution_reason {
                Some(s) => Some(s.clone()),
                None => None,
            },
        }
    }
}

/// A recorded validation.
#[derive(Debug)]
pub struct ValidationEventRow {
    pub id: ValidationEventId,
    pub agent_id: AgentId,
    /// The organisation of the agent.
    pub org_id: OrgId,
    pub memory_id: MemoryId,
    /// The wire label of the signal.
    pub source: &'static str,
    pub detail: Option<String>,
    pub created_at: Timestamp,
}

/// Why a contradiction was closed without a mutation.
#[derive(Debug)]
pub struct ResolutionReason {
    text: String,
}

impl View for ResolutionReason {
    type V = Seq<char>;

    closed spec fn view(&self) -> Seq<char> {
        self.text@
    }
}

impl ResolutionReason {
    /// What is wrong with `s` as a value of this type.
    pub open spec fn refusal(s: Seq<char>) -> Option<ParseError> {
        length_error(s, "resolution_reason", CONTRADICTION_REASON_MAX_BYTES)
    }

    #[verifier::type_invariant]
    spec fn checked(self) -> bool {
        ResolutionReason::refusal(self.text@) is None
    }

    /// The text.
    pub fn as_str(&self) -> (s: &str)
        ensures
            s@ == self@,
            ResolutionReason::refusal(self@) is None,
    {
        proof {
            use_type_invariant(self);
        }
        self.text.as_str()
    }

    /// The string that holds the text.
    pub closed spec fn raw(self) -> String {
        self.text
    }

    /// The string that holds the text.
    pub fn into_inner(self) -> (s: String)
        ensures
            s == self.raw(),
            s@ == self@,
            ResolutionReason::refusal(s@) is None,
    {
        proof {
            use_type_invariant(&self);
        }
        self.text
    }
}

impl Clone for ResolutionReason {
    fn clone(&self) -> (r: ResolutionReason)
        ensures
            r == *self,
    {
        proof {
            use_type_invariant(self);
        }
        ResolutionReason { text: self.text.clone() }
    }
}

impl TryFrom<String> for ResolutionReason {
    type Error = ParseError;

    fn try_from(raw: String) -> (r: Result<ResolutionReason, ParseError>)
        ensures
            match r {
                Ok(v) => ResolutionReason::refusal(raw@) is None && v@ == raw@ && v.raw() == raw,
                Err(e) => ResolutionReason::refusal(raw@) == Some(e),
            },
    {
        match check_length(raw.as_str(), "resolution_reason", CONTRADICTION_REASON_MAX_BYTES) {
            Some(e) => Err(e),
            None => Ok(ResolutionReason { text: raw }),
        }
    }
}

impl TryFromSpecImpl<String> for ResolutionReason {
    open spec fn obeys_try_from_spec() -> bool {
        false
    }

    open spec fn try_from_spec(v: String) -> Result<ResolutionReason, ParseError> {
        arbitrary()
    }
}

/// How a resolution turn ended.
#[derive(Debug)]
pub enum ResolutionOutcome {
    /// A mutation settled the pair; the journal event that did it.
    Mutation(MemoryEventId),
    /// Neither memory changed.
    NoAction { reason: ResolutionReason },
}

/// The evidence kept with a validation.
#[derive(Debug)]
pub struct MemoryEvidence {
    text: String,
}

impl View for MemoryEvidence {
    type V = Seq<char>;

    closed spec fn view(&self) -> Seq<char> {
        self.text@
    }
}

impl MemoryEvidence {
    /// What is wrong with `s` as a value of this type.
    pub open spec fn refusal(s: Seq<char>) -> Option<ParseError> {
        length_error(s, "memory_evidence", VALIDATION_EVIDENCE_MAX_BYTES)
    }

    #[verifier::type_invariant]
    spec fn checked(self) -> bool {
        MemoryEvidence::refusal(self.text@) is None
    }

    /// The text.
    pub fn as_str(&self) -> (s: &str)
        ensures
            s@ == self@,
            MemoryEvidence::refusal(self@) is None,
    {
        proof {
            use_type_invariant(self);
        }
        self.text.as_str()
    }

    /// The string that holds the text.
    pub closed spec fn raw(self) -> String {
        self.text
    }

    /// The string that holds the text.
    pub fn into_inner(self) -> (s: String)
        ensures
            s == self.raw(),
            s@ == self@,
            MemoryEvidence::refusal(s@) is None,
    {
        proof {
            use_type_invariant(&self);
        }
        self.text
    }
}

impl Clone for MemoryEvidence {
    fn clone(&self) -> (r: MemoryEvidence)
        ensures
            r == *self,
    {
        proof {
            use_type_invariant(self);
        }
        MemoryEvidence { text: self.text.clone() }
    }
}

impl TryFrom<String> for MemoryEvidence {
    type Error = ParseError;

    fn try_from(raw: String) -> (r: Result<MemoryEvidence, ParseError>)
        ensures
            match r {
                Ok(v) => MemoryEvidence::refusal(raw@) is None && v@ == raw@ && v.raw() == raw,
                Err(e) => MemoryEvidence::refusal(raw@) == Some(e),
            },
    {
        match check_length(raw.as_str(), "memory_evidence", VALIDATION_EVIDENCE_MAX_BYTES) {
            Some(e) => Err(e),
            None => Ok(MemoryEvidence { text: raw }),
        }
    }
}

impl TryFromSpecImpl<String> for MemoryEvidence {
    open spec fn obeys_try_from_spec() -> bool {
        false
    }

    open spec fn try_from_spec(v: String) -> Result<MemoryEvidence, ParseError> {
        arbitrary()
    }
}

/// The signal that confirmed a memory. Only a genuinely independent one counts.
#[derive(Clone, Copy, Debug, PartialEq, Eq, Structural)]
pub enum ValidationSource {
    /// A follow-up turn of the agent confirmed it from outside.
    ExternalConfirmation,
    /// An operator endorsed it.
    OperatorEndorsement,
}

impl ValidationSource {
    /// The wire label.
    pub open spec fn label(self) -> &'static str {
        match self {
            ValidationSource::ExternalConfirmation => "external_confirmation",
            ValidationSource::OperatorEndorsement => "operator_endorsement",
        }
    }

    /// The wire label.
    pub fn as_str(self) -> (s: &'static str)
        ensures
            s == self.label(),
    {
        match self {
            ValidationSource::ExternalConfirmation => "external_confirmation",
            ValidationSource::OperatorEndorsement => "operator_endorsement",
        }
    }
}

/// Who validates a memory. It fixes both the signal that is recorded and the
/// source of the journal event, so that the two always agree.
#[derive(Clone, Copy, Debug, PartialEq, Eq, Structural)]
pub enum ValidationOrigin {
    /// The agent, during a turn.
    Agent(PromptRequestId),
    /// An operator. Pinned rows are open to it.
    Operator,
}

impl ValidationOrigin {
    /// The signal that is recorded.
    pub open spec fn signal(self) -> ValidationSource {
        match self {
            ValidationOrigin::Agent(_) => ValidationSource::ExternalConfirmation,
            ValidationOrigin::Operator => ValidationSource::OperatorEndorsement,
        }
    }

    /// The source of the journal event.
    pub open spec fn journal_source(self) -> MutationSource {
        match self {
            ValidationOrigin::Agent(id) => MutationSource::Turn(id),
            ValidationOrigin::Operator => MutationSource::Operator,
        }
    }

    /// The signal that is recorded.
    pub fn source(self) -> (s: ValidationSource)
        ensures
            s == self.signal(),
    {
        match self {
            ValidationOrigin::Agent(_) => ValidationSource::ExternalConfirmation,
            ValidationOrigin::Operator => ValidationSource::OperatorEndorsement,
        }
    }

    /// The source of the journal event.
    pub fn mutation_source(self) -> (s: MutationSource)
        ensures
            s == self.journal_source(),
    {
        match self {
            ValidationOrigin::Agent(id) => MutationSource::Turn(id),
            ValidationOrigin::Operator => MutationSource::Operator,
        }
    }
}

/// Reasons and evidence take one byte to one KiB.
pub proof fn law_reasons_have_their_limit(s: Seq<char>)
    ensures
        ResolutionReason::refusal(s) is None <==> 0 < s.len() && utf8_len(s) <= 1_024,
        MemoryEvidence::refusal(s) is None <==> 0 < s.len() && utf8_len(s) <= 1_024,
{
}

/// Who validates a memory is recorded as who it was: an agent's turn as a confirmation under
/// that turn, an operator as an endorsement.
pub proof fn law_validations_are_recorded_under_their_origin(origin: ValidationOrigin)
    ensures
        origin matches ValidationOrigin::Agent(turn) ==> origin.journal_source()
            == MutationSource::Turn(turn) && origin.signal() == ValidationSource::ExternalConfirmation
            && origin.signal().label()@ == "external_confirmation"@,
        origin is Operator ==> origin.journal_source() == MutationSource::Operator
            && origin.signal() == ValidationSource::OperatorEndorsement && origin.signal().label()@
            == "operator_endorsement"@,
{
}

/// The message says which fault it was, and carries its detail.
pub proof fn law_memory_store_error_says_what_is_wrong(error: MemoryStoreError)
    ensures
        error matches MemoryStoreError::NotFound { id } ==> error.text() == "memory "@
            + tagged_id("MemoryId"@, id.0) + " not found"@,
        error matches MemoryStoreError::EventNotFound { id } ==> error.text() == "memory event "@
            + tagged_id("MemoryEventId"@, id.0) + " not found"@,
        error matches MemoryStoreError::ContradictionNotFound(id) ==> error.text()
            == "contradiction "@ + tagged_id("ContradictionEventId"@, id.0)
            + " not found or already resolved"@,
        error matches MemoryStoreError::WrongAgent { id, agent } ==> error.text() == "memory "@
            + tagged_id("MemoryId"@, id.0) + " does not belong to agent "@
            + tagged_id("AgentId"@, agent.0),
        error matches MemoryStoreError::PinnedImmutable { id } ==> error.text() == "memory "@
            + tagged_id("MemoryId"@, id.0) + " is pinned and cannot be mutated by an agent"@,
        error matches MemoryStoreError::Parse(e) ==> error.text() == "parse: "@ + e.text(),
        error matches MemoryStoreError::Db(DbFault::DuplicateKey) ==> error.text()
            == "memory store db error: duplicate key"@,
        error matches MemoryStoreError::Db(DbFault::Driver(detail)) ==> error.text()
            == "memory store db error: "@ + detail@,
        error matches MemoryStoreError::Provider(detail) ==> error.text()
            == "memory store embedding provider: "@ + detail@,
{
}

} // verus!
