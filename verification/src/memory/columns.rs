//! Memory rows and journal events as table columns, and the column lists that
//! queries select.

use crate::ids::{AgentId, MemoryEventId, MemoryId, OrgId, PromptRequestId};
use crate::memory::store::{
    MemoryEvent, MemoryEventPayload, MemoryRow, MemoryStoreError, MutationSource,
};
use crate::memory::types::{
    MemoryContent, MemoryKind, MemoryState, MutationKind, MutationSourceKind,
};
use crate::text::{join, joined, texts};
use crate::time::Timestamp;
use crate::types::ParseError;
use vstd::prelude::*;

verus! {

/// The columns of a journal event.
#[derive(Debug)]
pub struct MemoryEventColumns {
    pub id: MemoryEventId,
    pub agent_id: AgentId,
    pub org_id: OrgId,
    pub mutation: MutationKind,
    pub target_memory_id: MemoryId,
    pub content_before: Option<String>,
    pub content_after: Option<String>,
    pub source_kind: MutationSourceKind,
    pub source_turn_id: Option<PromptRequestId>,
    pub created_at: Timestamp,
    pub kind: Option<MemoryKind>,
    pub state: Option<MemoryState>,
    pub pinned: Option<bool>,
}

impl MemoryEventColumns {
    /// The columns that the kind of event and the kind of source need are there.
    pub open spec fn well_shaped(self) -> bool {
        &&& self.source_kind == MutationSourceKind::Turn ==> self.source_turn_id is Some
        &&& self.mutation != MutationKind::Write ==> self.content_before is Some
        &&& self.mutation != MutationKind::Forget ==> {
            &&& self.content_after is Some
            &&& self.kind is Some
            &&& self.state is Some
            &&& self.pinned is Some
        }
    }

    /// Nothing is set that the kind of event or the kind of source does not need.
    pub open spec fn nothing_more(self) -> bool {
        &&& self.source_kind != MutationSourceKind::Turn ==> self.source_turn_id is None
        &&& self.mutation == MutationKind::Write ==> self.content_before is None
        &&& self.mutation == MutationKind::Forget ==> {
            &&& self.content_after is None
            &&& self.kind is None
            &&& self.state is None
            &&& self.pinned is None
        }
    }
}

/// `c` holds what `e` tells.
pub open spec fn tells(c: MemoryEventColumns, e: MemoryEvent) -> bool {
    &&& c.id == e.id
    &&& c.agent_id == e.agent_id
    &&& c.org_id == e.org_id
    &&& c.mutation == e.payload.mutation()
    &&& c.target_memory_id == e.target_memory_id
    &&& c.source_kind == e.source.source_kind()
    &&& c.source_turn_id == e.source.request()
    &&& c.created_at == e.created_at
    &&& match e.payload {
        MemoryEventPayload::Write { content, kind, state, pinned } => {
            &&& c.content_before is None
            &&& c.content_after == Some(content.raw())
            &&& c.kind == Some(kind)
            &&& c.state == Some(state)
            &&& c.pinned == Some(pinned)
        },
        MemoryEventPayload::Update { before, after, kind, state, pinned } => {
            &&& c.content_before == Some(before.raw())
            &&& c.content_after == Some(after.raw())
            &&& c.kind == Some(kind)
            &&& c.state == Some(state)
            &&& c.pinned == Some(pinned)
        },
        MemoryEventPayload::Forget { before } => {
            &&& c.content_before == Some(before.raw())
            &&& c.content_after is None
            &&& c.kind is None
            &&& c.state is None
            &&& c.pinned is None
        },
    }
}

/// The columns of `event`: what its kind does not carry is left empty.
pub fn insert_event(event: &MemoryEvent) -> (c: MemoryEventColumns)
    ensures
        tells(c, *event),
        c.well_shaped(),
        c.nothing_more(),
{
    let (content_before, content_after, kind, state, pinned) = match &event.payload {
        MemoryEventPayload::Write { content, kind, state, pinned } => (
            None,
            Some(content.to_raw()),
            Some(*kind),
            Some(*state),
            Some(*pinned),
        ),
        MemoryEventPayload::Update { before, after, kind, state, pinned } => (
            Some(before.to_raw()),
            Some(after.to_raw()),
            Some(*kind),
            Some(*state),
            Some(*pinned),
        ),
        MemoryEventPayload::Forget { before } => (Some(before.to_raw()), None, None, None, None),
    };
    MemoryEventColumns {
        id: event.id,
        agent_id: event.agent_id,
        org_id: event.org_id,
        mutation: event.payload.kind(),
        target_memory_id: event.target_memory_id,
        content_before,
        content_after,
        source_kind: event.source.kind(),
        source_turn_id: event.source.turn_id(),
        created_at: event.created_at,
        kind,
        state,
        pinned,
    }
}

/// What is wrong with the content columns of an event: the content before is
/// looked at first.
pub open spec fn content_error(c: MemoryEventColumns) -> Option<ParseError> {
    let before = if c.mutation == MutationKind::Write {
        None
    } else {
        MemoryContent::refusal(c.content_before->0@)
    };
    if before is Some {
        before
    } else if c.mutation == MutationKind::Forget {
        None
    } else {
        MemoryContent::refusal(c.content_after->0@)
    }
}

/// `e` is the event that well-shaped columns hold: columns that its kind does not
/// carry are passed over.
pub open spec fn decodes(c: MemoryEventColumns, e: MemoryEvent) -> bool {
    &&& e.id == c.id
    &&& e.agent_id == c.agent_id
    &&& e.org_id == c.org_id
    &&& e.target_memory_id == c.target_memory_id
    &&& e.created_at == c.created_at
    &&& e.source == (match c.source_kind {
        MutationSourceKind::Turn => MutationSource::Turn(c.source_turn_id->0),
        MutationSourceKind::Operator => MutationSource::Operator,
        MutationSourceKind::Librarian => MutationSource::Librarian,
    })
    &&& match (c.mutation, e.payload) {
        (
            MutationKind::Write,
            MemoryEventPayload::Write { content, kind, state, pinned },
        ) => content.raw() == c.content_after->0 && kind == c.kind->0 && state == c.state->0
            && pinned == c.pinned->0,
        (
            MutationKind::Update,
            MemoryEventPayload::Update { before, after, kind, state, pinned },
        ) => before.raw() == c.content_before->0 && after.raw() == c.content_after->0 && kind
            == c.kind->0 && state == c.state->0 && pinned == c.pinned->0,
        (MutationKind::Forget, MemoryEventPayload::Forget { before }) => before.raw()
            == c.content_before->0,
        _ => false,
    }
}

/// Reads a journal event from its columns. The shape of the columns is what the
/// table promises; the content is parsed again.
pub fn decode_memory_event(c: MemoryEventColumns) -> (r: Result<MemoryEvent, MemoryStoreError>)
    requires
        c.well_shaped(),
    ensures
        match r {
            Ok(e) => content_error(c) is None && decodes(c, e),
            Err(e) => content_error(c) is Some && e == MemoryStoreError::Parse(content_error(c)->0),
        },
{
    let source = match c.source_kind {
        MutationSourceKind::Turn => MutationSource::Turn(c.source_turn_id.unwrap()),
        MutationSourceKind::Operator => MutationSource::Operator,
        MutationSourceKind::Librarian => MutationSource::Librarian,
    };
    let payload = match c.mutation {
        MutationKind::Write => {
            let content = match MemoryContent::from_string(c.content_after.unwrap()) {
                Ok(v) => v,
                Err(e) => {
                    return Err(MemoryStoreError::Parse(e));
                },
            };
            MemoryEventPayload::Write {
                content,
                kind: c.kind.unwrap(),
                state: c.state.unwrap(),
                pinned: c.pinned.unwrap(),
            }
        },
        MutationKind::Update => {
            let before = match MemoryContent::from_string(c.content_before.unwrap()) {
                Ok(v) => v,
                Err(e) => {
                    return Err(MemoryStoreError::Parse(e));
                },
            };
            let after = match MemoryContent::from_string(c.content_after.unwrap()) {
                Ok(v) => v,
                Err(e) => {
                    return Err(MemoryStoreError::Parse(e));
                },
            };
            MemoryEventPayload::Update {
                before,
                after,
                kind: c.kind.unwrap(),
                state: c.state.unwrap(),
                pinned: c.pinned.unwrap(),
            }
        },
        MutationKind::Forget => {
            let before = match MemoryContent::from_string(c.content_before.unwrap()) {
                Ok(v) => v,
                Err(e) => {
                    return Err(MemoryStoreError::Parse(e));
                },
            };
            MemoryEventPayload::Forget { before }
        },
    };
    Ok(
        MemoryEvent {
            id: c.id,
            agent_id: c.agent_id,
            org_id: c.org_id,
            target_memory_id: c.target_memory_id,
            source,
            created_at: c.created_at,
            payload,
        },
    )
}

/// The journal keeps events whole: what is read from the columns of an event is
/// that event.
pub proof fn law_event_columns_round_trip(
    e: MemoryEvent,
    c: MemoryEventColumns,
    back: MemoryEvent,
)
    requires
        tells(c, e),
        decodes(c, back),
    ensures
        back == e,
{
    broadcast use MemoryContent::lemma_raw;

    match (e.payload, back.payload) {
        (
            MemoryEventPayload::Write { content, .. },
            MemoryEventPayload::Write { content: other, .. },
        ) => {
            assert(content.raw() == other.raw());
        },
        (
            MemoryEventPayload::Update { before, after, .. },
            MemoryEventPayload::Update { before: b, after: a, .. },
        ) => {
            assert(before.raw() == b.raw());
            assert(after.raw() == a.raw());
        },
        (MemoryEventPayload::Forget { before }, MemoryEventPayload::Forget { before: b }) => {
            assert(before.raw() == b.raw());
        },
        _ => {},
    }
}

/// The columns of a memory row, its content and its counter not yet read.
#[derive(Debug)]
pub struct MemoryRowColumns {
    pub id: MemoryId,
    pub agent_id: AgentId,
    pub org_id: OrgId,
    pub kind: MemoryKind,
    pub content: String,
    pub state: MemoryState,
    pub pinned: bool,
    pub source_turn_id: Option<PromptRequestId>,
    pub created_at: Timestamp,
    pub last_validated_at: Timestamp,
    pub last_accessed_at: Timestamp,
    pub access_count: i64,
}

/// Reads a memory row from its columns.
pub fn decode_memory_row(c: MemoryRowColumns) -> (r: Result<MemoryRow, MemoryStoreError>)
    requires
        c.access_count >= 0,
    ensures
        match r {
            Ok(row) => MemoryContent::refusal(c.content@) is None && row == (MemoryRow {
                id: c.id,
                agent_id: c.agent_id,
                org_id: c.org_id,
                kind: c.kind,
                content: row.content,
                state: c.state,
                pinned: c.pinned,
                source_turn_id: c.source_turn_id,
                created_at: c.created_at,
                last_validated_at: c.last_validated_at,
                last_accessed_at: c.last_accessed_at,
                access_count: c.access_count as u64,
            }) && row.content.raw() == c.content,
            Err(e) => MemoryContent::refusal(c.content@) is Some && e == MemoryStoreError::Parse(
                MemoryContent::refusal(c.content@)->0,
            ),
        },
{
    let content = match MemoryContent::from_string(c.content) {
        Ok(v) => v,
        Err(e) => {
            return Err(MemoryStoreError::Parse(e));
        },
    };
    Ok(
        MemoryRow {
            id: c.id,
            agent_id: c.agent_id,
            org_id: c.org_id,
            kind: c.kind,
            content,
            state: c.state,
            pinned: c.pinned,
            source_turn_id: c.source_turn_id,
            created_at: c.created_at,
            last_validated_at: c.last_validated_at,
            last_accessed_at: c.last_accessed_at,
            access_count: c.access_count as u64,
        },
    )
}

/// The columns that a memory row is read from.
pub open spec fn row_columns() -> Seq<Seq<char>> {
    seq![
        "id"@,
        "agent_id"@,
        "org_id"@,
        "kind"@,
        "content"@,
        "state"@,
        "pinned"@,
        "source_turn_id"@,
        "created_at"@,
        "last_validated_at"@,
        "last_accessed_at"@,
        "access_count"@,
    ]
}

/// The columns that a memory row is read from.
fn row_column_names() -> (v: Vec<&'static str>)
    ensures
        v@.len() == row_columns().len(),
        forall|i: int| 0 <= i < v@.len() ==> (#[trigger] v@[i])@ == row_columns()[i],
{
    vec![
        "id",
        "agent_id",
        "org_id",
        "kind",
        "content",
        "state",
        "pinned",
        "source_turn_id",
        "created_at",
        "last_validated_at",
        "last_accessed_at",
        "access_count",
    ]
}

/// The name of a column under a suffix.
pub open spec fn suffixed(name: Seq<char>, suffix: Seq<char>) -> Seq<char> {
    if suffix.len() == 0 {
        name
    } else {
        name + "_"@ + suffix
    }
}

/// The name of a column under a suffix: the name itself where there is none.
pub fn col_with_suffix(name: &str, suffix: &str) -> (s: String)
    ensures
        s@ == suffixed(name@, suffix@),
{
    let mut out = name.to_owned();
    if !suffix.is_empty() {
        out.append("_");
        out.append(suffix);
    }
    out
}

/// One column of `table`, selected under a suffix.
pub open spec fn aliased(table: Seq<char>, col: Seq<char>, suffix: Seq<char>) -> Seq<char> {
    table + "."@ + col + " AS "@ + col + "_"@ + suffix
}

/// The select list of a memory row of `table`, every column under `suffix`, so
/// that two rows fit one result.
pub fn aliased_columns(table: &str, suffix: &str) -> (s: String)
    ensures
        s@ == joined(
            row_columns().map_values(|c: Seq<char>| aliased(table@, c, suffix@)),
            ", "@,
        ),
{
    let names = row_column_names();
    let ghost all = row_columns().map_values(|c: Seq<char>| aliased(table@, c, suffix@));
    let mut parts: Vec<String> = Vec::new();
    let mut i: usize = 0;
    while i < names.len()
        invariant
            i <= names@.len(),
            names@.len() == row_columns().len(),
            forall|j: int| 0 <= j < names@.len() ==> (#[trigger] names@[j])@ == row_columns()[j],
            all == row_columns().map_values(|c: Seq<char>| aliased(table@, c, suffix@)),
            parts@.len() == i,
            forall|j: int| 0 <= j < i ==> (#[trigger] parts@[j])@ == all[j],
        decreases names.len() - i,
    {
        let mut part = table.to_owned();
        part.append(".");
        part.append(names[i]);
        part.append(" AS ");
        part.append(names[i]);
        part.append("_");
        part.append(suffix);
        proof {
            assert(part@ =~= aliased(table@, row_columns()[i as int], suffix@));
        }
        parts.push(part);
        i += 1;
    }
    proof {
        assert(texts(parts@) =~= all);
    }
    join(&parts, ", ")
}

/// The select list of a memory row.
pub fn memory_row_columns() -> (s: String)
    ensures
        s@ == joined(row_columns(), ", "@),
{
    let names = row_column_names();
    let mut parts: Vec<String> = Vec::new();
    let mut i: usize = 0;
    while i < names.len()
        invariant
            i <= names@.len(),
            names@.len() == row_columns().len(),
            forall|j: int| 0 <= j < names@.len() ==> (#[trigger] names@[j])@ == row_columns()[j],
            parts@.len() == i,
            forall|j: int| 0 <= j < i ==> (#[trigger] parts@[j])@ == row_columns()[j],
        decreases names.len() - i,
    {
        parts.push(names[i].to_owned());
        i += 1;
    }
    proof {
        assert(texts(parts@) =~= row_columns());
    }
    join(&parts, ", ")
}

/// The columns of an event hold what it tells, each in its own place: what the memory said
/// before and after, and how it stands afterwards.
pub proof fn law_columns_hold_the_event(c: MemoryEventColumns, e: MemoryEvent)
    requires
        tells(c, e),
    ensures
        c.id == e.id && c.agent_id == e.agent_id && c.org_id == e.org_id,
        c.target_memory_id == e.target_memory_id && c.created_at == e.created_at,
        e.payload matches MemoryEventPayload::Write { content, kind, state, pinned } ==> c.mutation
            == MutationKind::Write && c.content_before is None && c.content_after == Some(
            content.raw(),
        ) && c.kind == Some(kind) && c.state == Some(state) && c.pinned == Some(pinned),
        e.payload matches MemoryEventPayload::Update { before, after, kind, state, pinned }
            ==> c.mutation == MutationKind::Update && c.content_before == Some(before.raw())
            && c.content_after == Some(after.raw()) && c.kind == Some(kind) && c.state == Some(
            state,
        ) && c.pinned == Some(pinned),
        e.payload matches MemoryEventPayload::Forget { before } ==> c.mutation
            == MutationKind::Forget && c.content_before == Some(before.raw()) && c.content_after
            is None,
        e.source matches MutationSource::Turn(turn) ==> c.source_kind == MutationSourceKind::Turn
            && c.source_turn_id == Some(turn),
        e.source is Operator ==> c.source_kind == MutationSourceKind::Operator && c.source_turn_id
            is None,
        e.source is Librarian ==> c.source_kind == MutationSourceKind::Librarian
            && c.source_turn_id is None,
{
}

/// An event is read exactly where the content that its kind needs can be.
pub proof fn law_events_need_their_content(c: MemoryEventColumns)
    ensures
        content_error(c) is None <==> (c.mutation != MutationKind::Write ==> MemoryContent::refusal(
            c.content_before->0@,
        ) is None) && (c.mutation != MutationKind::Forget ==> MemoryContent::refusal(
            c.content_after->0@,
        ) is None),
{
}

/// A column is selected under the name by which it is read.
pub proof fn law_columns_are_selected_under_the_name_they_are_read_by(
    table: Seq<char>,
    col: Seq<char>,
    suffix: Seq<char>,
)
    requires
        suffix.len() > 0,
    ensures
        aliased(table, col, suffix) == table + "."@ + col + " AS "@ + suffixed(col, suffix),
        suffixed(col, Seq::empty()) == col,
{
    assert(aliased(table, col, suffix) =~= table + "."@ + col + " AS "@ + suffixed(col, suffix));
}

/// Columns make an event exactly where nothing is missing: the turn for a mutation by a turn,
/// what was said before for an update or a forgetting, and all that the memory is afterwards
/// for a write or an update.
pub proof fn law_columns_hold_what_the_event_needs(c: MemoryEventColumns)
    ensures
        c.well_shaped() <==> {
            &&& c.source_kind is Turn ==> c.source_turn_id is Some
            &&& c.mutation is Update || c.mutation is Forget ==> c.content_before is Some
            &&& c.mutation is Write || c.mutation is Update ==> c.content_after is Some
                && c.kind is Some && c.state is Some && c.pinned is Some
        },
{
}

} // verus!
