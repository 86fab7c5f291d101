//! What operators see and change of an agent's memory.

use crate::http::error::HttpError;
use crate::ids::{AgentId, MemoryEventId, MemoryId, PromptRequestId};
use crate::memory::store::{
    MemoryEvent, MemoryEventPayload, MemoryMutation, MemoryRow, MemoryStoreError, MutationSource,
};
use crate::memory::types::{
    MemoryContent, MemoryKind, MemoryState, MutationKind, MutationSourceKind,
};
use crate::seqs::lemma_filter_step;
use crate::time::Timestamp;
use vstd::prelude::*;

verus! {

/// A memory, as an operator sees it.
#[derive(Debug)]
pub struct MemoryRowResponse {
    pub id: MemoryId,
    pub agent_id: AgentId,
    pub kind: String,
    pub content: String,
    pub state: String,
    pub pinned: bool,
    pub created_at: Timestamp,
    pub last_validated_at: Timestamp,
    pub last_accessed_at: Timestamp,
    pub access_count: u64,
}

/// `v` shows the memory `r`.
pub open spec fn shows_row(v: MemoryRowResponse, r: MemoryRow) -> bool {
    &&& v.id == r.id
    &&& v.agent_id == r.agent_id
    &&& v.kind@ == r.kind.label()
    &&& v.content@ == r.content@
    &&& v.state@ == r.state.label()
    &&& v.pinned == r.pinned
    &&& v.created_at == r.created_at
    &&& v.last_validated_at == r.last_validated_at
    &&& v.last_accessed_at == r.last_accessed_at
    &&& v.access_count == r.access_count
}

/// A memory, as an operator sees it.
pub fn row_response(r: &MemoryRow) -> (v: MemoryRowResponse)
    ensures
        shows_row(v, *r),
{
    MemoryRowResponse {
        id: r.id,
        agent_id: r.agent_id,
        kind: r.kind.as_str().to_owned(),
        content: r.content.as_str().to_owned(),
        state: r.state.as_str().to_owned(),
        pinned: r.pinned,
        created_at: r.created_at,
        last_validated_at: r.last_validated_at,
        last_accessed_at: r.last_accessed_at,
        access_count: r.access_count,
    }
}

/// Whatever fails in the store is the fault of the request.
pub fn store_error(e: &MemoryStoreError) -> (h: HttpError)
    ensures
        h matches HttpError::BadRequest(s) && s@ == e.text(),
{
    HttpError::BadRequest(e.message())
}

/// Memories, as an operator sees them.
pub fn list_memory(rows: &Vec<MemoryRow>) -> (v: Vec<MemoryRowResponse>)
    ensures
        v@.len() == rows@.len(),
        forall|i: int| 0 <= i < rows@.len() ==> shows_row(#[trigger] v@[i], rows@[i]),
{
    let mut v: Vec<MemoryRowResponse> = Vec::new();
    let mut i: usize = 0;
    while i < rows.len()
        invariant
            i <= rows@.len(),
            v@.len() == i,
            forall|j: int| 0 <= j < i ==> shows_row(#[trigger] v@[j], rows@[j]),
        decreases rows.len() - i,
    {
        v.push(row_response(&rows[i]));
        i += 1;
    }
    v
}

/// A note that an operator writes.
#[derive(Debug)]
pub struct CreateNoteRequest {
    pub kind: MemoryKind,
    pub content: String,
    /// How far it is trusted. If that is not said, it is held: more than what an
    /// agent writes.
    pub state: Option<MemoryState>,
    pub pinned: bool,
}

/// The state in which a note starts.
pub open spec fn note_state(payload: CreateNoteRequest) -> MemoryState {
    payload.state.unwrap_or(MemoryState::Held)
}

/// Reads a note: the mutation that writes it, and whether the operator vouches
/// for it, so that a validation is to be recorded too.
pub fn create_memory_note(agent: AgentId, payload: CreateNoteRequest) -> (r: Result<
    (MemoryMutation, bool),
    HttpError,
>)
    ensures
        match MemoryContent::refusal(payload.content@) {
            Some(e) => r == Err::<(MemoryMutation, bool), HttpError>(HttpError::Parse(e)),
            None => r matches Ok((m, vouched)) && {
                &&& m matches MemoryMutation::Write {
                    agent: a,
                    kind,
                    content,
                    state,
                    pinned,
                    source,
                }
                &&& a == agent
                &&& kind == payload.kind
                &&& content@ == payload.content@
                &&& state == note_state(payload)
                &&& pinned == payload.pinned
                &&& source == MutationSource::Operator
                &&& vouched == (note_state(payload) == MemoryState::Validated || note_state(payload)
                    == MemoryState::Core)
            },
        },
{
    match MemoryContent::try_from(payload.content.as_str()) {
        Err(e) => Err(HttpError::Parse(e)),
        Ok(content) => {
            let state = match payload.state {
                Some(s) => s,
                None => MemoryState::Held,
            };
            let vouched = state == MemoryState::Validated || state == MemoryState::Core;
            Ok(
                (
                    MemoryMutation::Write {
                        agent,
                        kind: payload.kind,
                        content,
                        state,
                        pinned: payload.pinned,
                        source: MutationSource::Operator,
                    },
                    vouched,
                ),
            )
        },
    }
}

/// Why an operator vouches for a note.
pub const NOTE_EVIDENCE: &'static str = "operator note";

/// Answers a note, given the memory that was written.
pub fn note_response(row: Option<MemoryRow>) -> (r: Result<MemoryRowResponse, HttpError>)
    ensures
        match row {
            Some(row) => r matches Ok(v) && shows_row(v, row),
            None => r matches Err(HttpError::BadRequest(s)) && s@ == "write returned no row"@,
        },
{
    match row {
        Some(row) => Ok(row_response(&row)),
        None => Err(HttpError::BadRequest("write returned no row".to_owned())),
    }
}

/// A journal event, as an operator sees it.
#[derive(Debug)]
pub struct EventResponse {
    pub id: MemoryEventId,
    pub agent_id: AgentId,
    pub mutation: String,
    pub target_memory_id: MemoryId,
    pub content_before: Option<String>,
    pub content_after: Option<String>,
    pub source: String,
    pub source_turn_id: Option<PromptRequestId>,
    pub created_at: Timestamp,
}

/// The text `s` is that of `c`, and there is one exactly where there is the other.
pub open spec fn same_content(s: Option<String>, c: Option<Seq<char>>) -> bool {
    match (s, c) {
        (Some(a), Some(b)) => a@ == b,
        (None, None) => true,
        _ => false,
    }
}

/// What a memory said before an event.
pub open spec fn said_before(p: MemoryEventPayload) -> Option<Seq<char>> {
    match p {
        MemoryEventPayload::Write { .. } => None,
        MemoryEventPayload::Update { before, .. } => Some(before@),
        MemoryEventPayload::Forget { before } => Some(before@),
    }
}

/// What a memory says after an event.
pub open spec fn said_after(p: MemoryEventPayload) -> Option<Seq<char>> {
    match p {
        MemoryEventPayload::Write { content, .. } => Some(content@),
        MemoryEventPayload::Update { after, .. } => Some(after@),
        MemoryEventPayload::Forget { .. } => None,
    }
}

/// `v` shows the event `e`.
pub open spec fn shows_event(v: EventResponse, e: MemoryEvent) -> bool {
    &&& v.id == e.id
    &&& v.agent_id == e.agent_id
    &&& v.mutation@ == e.payload.mutation().label()
    &&& v.target_memory_id == e.target_memory_id
    &&& same_content(v.content_before, said_before(e.payload))
    &&& same_content(v.content_after, said_after(e.payload))
    &&& v.source@ == e.source.source_kind().label()
    &&& v.source_turn_id == e.source.request()
    &&& v.created_at == e.created_at
}

/// A journal event, as an operator sees it.
pub fn event_response(e: &MemoryEvent) -> (v: EventResponse)
    ensures
        shows_event(v, *e),
{
    let (content_before, content_after) = match &e.payload {
        MemoryEventPayload::Write { content, .. } => (None, Some(content.as_str().to_owned())),
        MemoryEventPayload::Update { before, after, .. } => (
            Some(before.as_str().to_owned()),
            Some(after.as_str().to_owned()),
        ),
        MemoryEventPayload::Forget { before } => (Some(before.as_str().to_owned()), None),
    };
    EventResponse {
        id: e.id,
        agent_id: e.agent_id,
        mutation: e.mutation_kind().as_str().to_owned(),
        target_memory_id: e.target_memory_id,
        content_before,
        content_after,
        source: e.source.kind().as_str().to_owned(),
        source_turn_id: e.source.turn_id(),
        created_at: e.created_at,
    }
}

/// Which events are asked for. What is `None` does not matter.
#[derive(Clone, Copy, Debug, PartialEq, Eq)]
pub struct ListEventsQuery {
    pub source: Option<MutationSourceKind>,
    pub mutation: Option<MutationKind>,
}

impl ListEventsQuery {
    /// Whether `e` is asked for.
    pub open spec fn asks(self, e: MemoryEvent) -> bool {
        &&& self.source matches Some(s) ==> e.source.source_kind() == s
        &&& self.mutation matches Some(m) ==> e.payload.mutation() == m
    }
}

/// The events of `events` that are asked for, as an operator sees them, in their
/// order.
pub fn list_events(query: ListEventsQuery, events: &Vec<MemoryEvent>) -> (v: Vec<EventResponse>)
    ensures
        ({
            let asked = events@.filter(|e: MemoryEvent| query.asks(e));
            &&& v@.len() == asked.len()
            &&& forall|i: int| 0 <= i < asked.len() ==> shows_event(#[trigger] v@[i], asked[i])
        }),
{
    let ghost p = |e: MemoryEvent| query.asks(e);
    let mut v: Vec<EventResponse> = Vec::new();
    let mut i: usize = 0;
    proof {
        reveal(Seq::filter);
        assert(events@.take(0) =~= Seq::empty());
    }
    while i < events.len()
        invariant
            i <= events@.len(),
            p == (|e: MemoryEvent| query.asks(e)),
            v@.len() == events@.take(i as int).filter(p).len(),
            forall|j: int|
                0 <= j < v@.len() ==> shows_event(
                    #[trigger] v@[j],
                    events@.take(i as int).filter(p)[j],
                ),
        decreases events.len() - i,
    {
        let ghost before = v@;
        let ghost asked = events@.take(i as int).filter(p);
        proof {
            lemma_filter_step(events@, i as int, p);
        }
        let e = &events[i];
        let by_source = match query.source {
            Some(s) => e.source.kind() == s,
            None => true,
        };
        let by_mutation = match query.mutation {
            Some(m) => e.mutation_kind() == m,
            None => true,
        };
        if by_source && by_mutation {
            v.push(event_response(e));
            proof {
                let now = events@.take(i + 1).filter(p);
                assert forall|j: int| 0 <= j < v@.len() implies shows_event(
                    #[trigger] v@[j],
                    now[j],
                ) by {
                    if j < before.len() {
                        assert(v@[j] == before[j]);
                        assert(now[j] == asked[j]);
                    }
                }
            }
        }
        i += 1;
    }
    proof {
        assert(events@.take(i as int) =~= events@);
    }
    v
}

/// What undoing an event came to.
#[derive(Debug)]
pub enum RevertResponse {
    /// The memory as it is now.
    Row(MemoryRowResponse),
    /// The memory is gone.
    Removed { removed: bool },
}

/// Answers the undoing of an event, given the memory that is there afterwards.
pub fn revert_event(row: Option<MemoryRow>) -> (r: RevertResponse)
    ensures
        match row {
            Some(row) => r matches RevertResponse::Row(v) && shows_row(v, row),
            None => r == (RevertResponse::Removed { removed: true }),
        },
{
    match row {
        Some(row) => RevertResponse::Row(row_response(&row)),
        None => RevertResponse::Removed { removed: true },
    }
}

/// An operator sees a memory as it is.
pub proof fn law_memory_is_shown_as_it_is(v: MemoryRowResponse, r: MemoryRow)
    requires
        shows_row(v, r),
    ensures
        v.id == r.id && v.agent_id == r.agent_id && v.content@ == r.content@ && v.pinned
            == r.pinned,
        v.kind@ == r.kind.label() && v.state@ == r.state.label(),
        v.created_at == r.created_at && v.last_validated_at == r.last_validated_at,
        v.last_accessed_at == r.last_accessed_at && v.access_count == r.access_count,
{
}

/// An operator sees of a change what the memory said before it and what it says after: nothing
/// before a write, and nothing after a removal.
pub proof fn law_event_shows_before_and_after(v: EventResponse, e: MemoryEvent)
    requires
        shows_event(v, e),
    ensures
        v.id == e.id && v.agent_id == e.agent_id && v.target_memory_id == e.target_memory_id
            && v.created_at == e.created_at,
        e.payload matches MemoryEventPayload::Write { content, .. } ==> v.content_before is None
            && v.content_after is Some && v.content_after->0@ == content@ && v.mutation@
            == "write"@,
        e.payload matches MemoryEventPayload::Update { before, after, .. } ==> v.content_before
            is Some && v.content_before->0@ == before@ && v.content_after is Some
            && v.content_after->0@ == after@ && v.mutation@ == "update"@,
        e.payload matches MemoryEventPayload::Forget { before } ==> v.content_before is Some
            && v.content_before->0@ == before@ && v.content_after is None && v.mutation@
            == "forget"@,
        e.source matches MutationSource::Turn(turn) ==> v.source@ == "turn"@ && v.source_turn_id
            == Some(turn),
        e.source == MutationSource::Operator ==> v.source@ == "operator"@ && v.source_turn_id
            is None,
        e.source == MutationSource::Librarian ==> v.source@ == "librarian"@ && v.source_turn_id
            is None,
{
}

/// Events are asked for by source and by mutation; what is not said does not matter.
pub proof fn law_events_are_asked_for_by_source_and_mutation(q: ListEventsQuery, e: MemoryEvent)
    ensures
        q.source is None && q.mutation is None ==> q.asks(e),
        q.asks(e) <==> (q.source is None || q.source == Some(e.source.source_kind())) && (
        q.mutation is None || q.mutation == Some(e.payload.mutation())),
{
}

/// A note starts in the state that the operator gives it, and is held where none is given.
pub proof fn law_notes_start_held(payload: CreateNoteRequest)
    ensures
        payload.state is None ==> note_state(payload) == MemoryState::Held,
        payload.state matches Some(s) ==> note_state(payload) == s,
{
}

} // verus!
