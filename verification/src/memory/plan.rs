//! What each operation of the store changes: the journal event that it appends
//! and the effect on the memory table. The decisions are taken here, from the
//! rows that the operation has read; carrying them out is left to whoever holds
//! the tables.

use crate::ids::{AgentId, MemoryEventId, MemoryId, OrgId};
use crate::memory::store::{
    MemoryEvent, MemoryEventPayload, MemoryMutation, MemoryRow, MemoryStoreError, MutationSource,
};
use crate::memory::types::{MemoryContent, MemoryKind, MemoryState};
use crate::time::Timestamp;
use vstd::prelude::*;

verus! {

/// What happens to the memory table.
#[derive(Debug)]
pub enum RowEffect {
    /// The row is added; a row with its id must not be there.
    Insert(MemoryRow),
    /// The row is added, unless a row with its id is there already.
    InsertIfAbsent(MemoryRow),
    /// The row takes the place of the one with its id.
    Put(MemoryRow),
    /// The row with this id goes.
    Remove(MemoryId),
}

/// One journaled change.
#[derive(Debug)]
pub struct Change {
    pub event: MemoryEvent,
    pub effect: RowEffect,
}

/// Why `source`, acting for `agent`, may not touch the memory `target` whose
/// row is `row`.
pub open spec fn lock_error(
    row: Option<MemoryRow>,
    agent: AgentId,
    target: MemoryId,
    source: MutationSource,
) -> Option<MemoryStoreError> {
    match row {
        None => Some(MemoryStoreError::NotFound { id: target }),
        Some(r) => if r.agent_id != agent {
            Some(MemoryStoreError::WrongAgent { id: target, agent })
        } else if r.pinned && source != MutationSource::Operator {
            Some(MemoryStoreError::PinnedImmutable { id: target })
        } else {
            None
        },
    }
}

/// The row `row` of the memory `target`, for `source` acting for `agent` to
/// change. Ownership is checked first, then the pin.
pub fn lock_existing(
    row: Option<MemoryRow>,
    agent: AgentId,
    target: MemoryId,
    source: MutationSource,
) -> (r: Result<MemoryRow, MemoryStoreError>)
    ensures
        match r {
            Ok(prior) => lock_error(row, agent, target, source) is None && row == Some(prior),
            Err(e) => lock_error(row, agent, target, source) == Some(e),
        },
{
    match row {
        None => Err(MemoryStoreError::NotFound { id: target }),
        Some(prior) => {
            if prior.agent_id != agent {
                return Err(MemoryStoreError::WrongAgent { id: target, agent });
            }
            if prior.pinned && !source.bypasses_pin() {
                return Err(MemoryStoreError::PinnedImmutable { id: target });
            }
            Ok(prior)
        },
    }
}

/// The row that a write event mints.
pub open spec fn minted_row(
    id: MemoryId,
    agent: AgentId,
    org: OrgId,
    content: MemoryContent,
    kind: MemoryKind,
    state: MemoryState,
    pinned: bool,
    source: MutationSource,
    now: Timestamp,
) -> MemoryRow {
    MemoryRow {
        id,
        agent_id: agent,
        org_id: org,
        kind,
        content,
        state,
        pinned,
        source_turn_id: source.request(),
        created_at: now,
        last_validated_at: now,
        last_accessed_at: now,
        access_count: 0,
    }
}

/// The row that a write event mints.
pub fn mint_row(
    id: MemoryId,
    agent: AgentId,
    org: OrgId,
    content: MemoryContent,
    kind: MemoryKind,
    state: MemoryState,
    pinned: bool,
    source: MutationSource,
    now: Timestamp,
) -> (row: MemoryRow)
    ensures
        row == minted_row(id, agent, org, content, kind, state, pinned, source, now),
{
    MemoryRow {
        id,
        agent_id: agent,
        org_id: org,
        kind,
        content,
        state,
        pinned,
        source_turn_id: source.turn_id(),
        created_at: now,
        last_validated_at: now,
        last_accessed_at: now,
        access_count: 0,
    }
}

/// The change that writing a memory makes.
pub open spec fn write_change(
    memory_id: MemoryId,
    event_id: MemoryEventId,
    agent: AgentId,
    org: OrgId,
    kind: MemoryKind,
    content: MemoryContent,
    state: MemoryState,
    pinned: bool,
    source: MutationSource,
    now: Timestamp,
) -> Change {
    Change {
        event: MemoryEvent {
            id: event_id,
            agent_id: agent,
            org_id: org,
            target_memory_id: memory_id,
            source,
            created_at: now,
            payload: MemoryEventPayload::Write { content, kind, state, pinned },
        },
        effect: RowEffect::Insert(
            minted_row(memory_id, agent, org, content, kind, state, pinned, source, now),
        ),
    }
}

/// Plans the write of a memory under the fresh id `memory_id`.
pub fn apply_write(
    memory_id: MemoryId,
    event_id: MemoryEventId,
    agent: AgentId,
    org: OrgId,
    kind: MemoryKind,
    content: MemoryContent,
    state: MemoryState,
    pinned: bool,
    source: MutationSource,
    now: Timestamp,
) -> (c: Change)
    ensures
        c == write_change(
            memory_id,
            event_id,
            agent,
            org,
            kind,
            content,
            state,
            pinned,
            source,
            now,
        ),
{
    let event = MemoryEvent {
        id: event_id,
        agent_id: agent,
        org_id: org,
        target_memory_id: memory_id,
        source,
        created_at: now,
        payload: MemoryEventPayload::Write { content: content.clone(), kind, state, pinned },
    };
    let row = mint_row(memory_id, agent, org, content, kind, state, pinned, source, now);
    Change { event, effect: RowEffect::Insert(row) }
}

/// The change that turns `prior` into `next`, which differs from it in content,
/// state, pin and bookkeeping alone.
pub open spec fn revision(
    prior: MemoryRow,
    next: MemoryRow,
    event_id: MemoryEventId,
    kind: MemoryKind,
    source: MutationSource,
    now: Timestamp,
) -> Change {
    Change {
        event: MemoryEvent {
            id: event_id,
            agent_id: prior.agent_id,
            org_id: prior.org_id,
            target_memory_id: prior.id,
            source,
            created_at: now,
            payload: MemoryEventPayload::Update {
                before: prior.content,
                after: next.content,
                kind,
                state: next.state,
                pinned: next.pinned,
            },
        },
        effect: RowEffect::Put(next),
    }
}

fn revise(
    prior: MemoryRow,
    next: MemoryRow,
    event_id: MemoryEventId,
    kind: MemoryKind,
    source: MutationSource,
    now: Timestamp,
) -> (c: Change)
    ensures
        c == revision(prior, next, event_id, kind, source, now),
{
    let event = MemoryEvent {
        id: event_id,
        agent_id: prior.agent_id,
        org_id: prior.org_id,
        target_memory_id: prior.id,
        source,
        created_at: now,
        payload: MemoryEventPayload::Update {
            before: prior.content,
            after: next.content.clone(),
            kind,
            state: next.state,
            pinned: next.pinned,
        },
    };
    Change { event, effect: RowEffect::Put(next) }
}

/// The change that forgetting `prior` makes.
pub open spec fn removal(
    prior: MemoryRow,
    event_id: MemoryEventId,
    source: MutationSource,
    now: Timestamp,
) -> Change {
    Change {
        event: MemoryEvent {
            id: event_id,
            agent_id: prior.agent_id,
            org_id: prior.org_id,
            target_memory_id: prior.id,
            source,
            created_at: now,
            payload: MemoryEventPayload::Forget { before: prior.content },
        },
        effect: RowEffect::Remove(prior.id),
    }
}

/// Plans the removal of `prior`.
pub fn remove_row(
    prior: MemoryRow,
    event_id: MemoryEventId,
    source: MutationSource,
    now: Timestamp,
) -> (c: Change)
    ensures
        c == removal(prior, event_id, source, now),
{
    let id = prior.id;
    let event = MemoryEvent {
        id: event_id,
        agent_id: prior.agent_id,
        org_id: prior.org_id,
        target_memory_id: id,
        source,
        created_at: now,
        payload: MemoryEventPayload::Forget { before: prior.content },
    };
    Change { event, effect: RowEffect::Remove(id) }
}

/// Plans an update of the memory `target`, whose row is `row`: content and state
/// change, kind and pin stay.
pub fn apply_update(
    row: Option<MemoryRow>,
    event_id: MemoryEventId,
    agent: AgentId,
    target: MemoryId,
    content: MemoryContent,
    state: MemoryState,
    source: MutationSource,
    now: Timestamp,
) -> (r: Result<Change, MemoryStoreError>)
    ensures
        match r {
            Ok(c) => lock_error(row, agent, target, source) is None && c == revision(
                row->0,
                MemoryRow { content, state, ..row->0 },
                event_id,
                row->0.kind,
                source,
                now,
            ),
            Err(e) => lock_error(row, agent, target, source) == Some(e),
        },
{
    match lock_existing(row, agent, target, source) {
        Err(e) => Err(e),
        Ok(prior) => {
            let kind = prior.kind;
            let mut next = prior.clone();
            next.content = content;
            next.state = state;
            Ok(revise(prior, next, event_id, kind, source, now))
        },
    }
}

/// Plans the removal of the memory `target`, whose row is `row`.
pub fn apply_forget(
    row: Option<MemoryRow>,
    event_id: MemoryEventId,
    agent: AgentId,
    target: MemoryId,
    source: MutationSource,
    now: Timestamp,
) -> (r: Result<Change, MemoryStoreError>)
    ensures
        match r {
            Ok(c) => lock_error(row, agent, target, source) is None && c == removal(
                row->0,
                event_id,
                source,
                now,
            ),
            Err(e) => lock_error(row, agent, target, source) == Some(e),
        },
{
    match lock_existing(row, agent, target, source) {
        Err(e) => Err(e),
        Ok(prior) => Ok(remove_row(prior, event_id, source, now)),
    }
}

/// The memory that a mutation is about: the fresh id for a write, its target
/// otherwise.
pub open spec fn mutation_target(m: MemoryMutation, fresh: MemoryId) -> MemoryId {
    match m {
        MemoryMutation::Write { .. } => fresh,
        MemoryMutation::Update { target, .. } => target,
        MemoryMutation::Forget { target, .. } => target,
    }
}

/// The change that a mutation makes, where `row` is the row of its target.
pub open spec fn mutation_change(
    m: MemoryMutation,
    row: Option<MemoryRow>,
    fresh: MemoryId,
    event_id: MemoryEventId,
    org: OrgId,
    now: Timestamp,
) -> Result<Change, MemoryStoreError> {
    match m {
        MemoryMutation::Write { agent, kind, content, state, pinned, source } => Ok(
            write_change(fresh, event_id, agent, org, kind, content, state, pinned, source, now),
        ),
        MemoryMutation::Update { agent, target, content, state, source } => match lock_error(
            row,
            agent,
            target,
            source,
        ) {
            Some(e) => Err(e),
            None => Ok(
                revision(
                    row->0,
                    MemoryRow { content, state, ..row->0 },
                    event_id,
                    row->0.kind,
                    source,
                    now,
                ),
            ),
        },
        MemoryMutation::Forget { agent, target, source } => match lock_error(
            row,
            agent,
            target,
            source,
        ) {
            Some(e) => Err(e),
            None => Ok(removal(row->0, event_id, source, now)),
        },
    }
}

/// Plans a mutation. `row` is the row of its target; a write takes the fresh id
/// `fresh` and the organisation `org` of its agent instead.
pub fn plan_mutation(
    m: MemoryMutation,
    row: Option<MemoryRow>,
    fresh: MemoryId,
    event_id: MemoryEventId,
    org: OrgId,
    now: Timestamp,
) -> (r: Result<Change, MemoryStoreError>)
    ensures
        r == mutation_change(m, row, fresh, event_id, org, now),
{
    match m {
        MemoryMutation::Write { agent, kind, content, state, pinned, source } => Ok(
            apply_write(fresh, event_id, agent, org, kind, content, state, pinned, source, now),
        ),
        MemoryMutation::Update { agent, target, content, state, source } => apply_update(
            row,
            event_id,
            agent,
            target,
            content,
            state,
            source,
            now,
        ),
        MemoryMutation::Forget { agent, target, source } => apply_forget(
            row,
            event_id,
            agent,
            target,
            source,
            now,
        ),
    }
}

/// Plans pinning or unpinning the memory `target`, an operator's act.
pub fn plan_set_pinned(
    row: Option<MemoryRow>,
    event_id: MemoryEventId,
    agent: AgentId,
    target: MemoryId,
    pinned: bool,
    now: Timestamp,
) -> (r: Result<Change, MemoryStoreError>)
    ensures
        r == pin_change(row, event_id, agent, target, pinned, now),
{
    match lock_existing(row, agent, target, MutationSource::Operator) {
        Err(e) => Err(e),
        Ok(prior) => {
            let kind = prior.kind;
            let mut next = prior.clone();
            next.pinned = pinned;
            Ok(revise(prior, next, event_id, kind, MutationSource::Operator, now))
        },
    }
}

/// The change that pinning or unpinning makes.
pub open spec fn pin_change(
    row: Option<MemoryRow>,
    event_id: MemoryEventId,
    agent: AgentId,
    target: MemoryId,
    pinned: bool,
    now: Timestamp,
) -> Result<Change, MemoryStoreError> {
    match lock_error(row, agent, target, MutationSource::Operator) {
        Some(e) => Err(e),
        None => Ok(
            revision(
                row->0,
                MemoryRow { pinned, ..row->0 },
                event_id,
                row->0.kind,
                MutationSource::Operator,
                now,
            ),
        ),
    }
}

/// The state that one more validation brings a memory to.
pub open spec fn promoted(state: MemoryState) -> MemoryState {
    match state {
        MemoryState::Tentative => MemoryState::Held,
        MemoryState::Held => MemoryState::Validated,
        other => other,
    }
}

/// The state that one more validation brings a memory to: a tentative memory is
/// held, a held one validated, and there it stays.
pub fn promote(state: MemoryState) -> (r: MemoryState)
    ensures
        r == promoted(state),
        r.rank() >= state.rank(),
{
    match state {
        MemoryState::Tentative => MemoryState::Held,
        MemoryState::Held => MemoryState::Validated,
        MemoryState::Validated => MemoryState::Validated,
        MemoryState::Core => MemoryState::Core,
    }
}

/// The change that a validation by `source` makes.
pub open spec fn validation_change(
    row: Option<MemoryRow>,
    event_id: MemoryEventId,
    agent: AgentId,
    memory: MemoryId,
    source: MutationSource,
    now: Timestamp,
) -> Result<Change, MemoryStoreError> {
    match lock_error(row, agent, memory, source) {
        Some(e) => Err(e),
        None => Ok(
            revision(
                row->0,
                MemoryRow {
                    state: promoted(row->0.state),
                    last_validated_at: now,
                    ..row->0
                },
                event_id,
                row->0.kind,
                source,
                now,
            ),
        ),
    }
}

/// Plans a validation of the memory `memory`: its state is promoted and its
/// validation clock set.
pub fn plan_validation(
    row: Option<MemoryRow>,
    event_id: MemoryEventId,
    agent: AgentId,
    memory: MemoryId,
    source: MutationSource,
    now: Timestamp,
) -> (r: Result<Change, MemoryStoreError>)
    ensures
        r == validation_change(row, event_id, agent, memory, source, now),
{
    match lock_existing(row, agent, memory, source) {
        Err(e) => Err(e),
        Ok(prior) => {
            let kind = prior.kind;
            let mut next = prior.clone();
            next.state = promote(prior.state);
            next.last_validated_at = now;
            Ok(revise(prior, next, event_id, kind, source, now))
        },
    }
}

/// A validated memory whose validation has gone stale at `cutoff`. A pinned one
/// never has.
pub open spec fn stale(row: MemoryRow, agent: AgentId, cutoff: Timestamp) -> bool {
    row.agent_id == agent && row.state == MemoryState::Validated && !row.pinned
        && row.last_validated_at@ < cutoff@
}

/// Whether the validation of `row` has gone stale at `cutoff`.
pub fn is_stale(row: &MemoryRow, agent: AgentId, cutoff: Timestamp) -> (r: bool)
    ensures
        r == stale(*row, agent, cutoff),
{
    row.agent_id == agent && row.state == MemoryState::Validated && !row.pinned
        && row.last_validated_at.micros() < cutoff.micros()
}

/// A tentative memory written before `cutoff`, not pinned. Where no open
/// contradiction names it, it has survived long enough to be held.
pub open spec fn mature(row: MemoryRow, agent: AgentId, cutoff: Timestamp) -> bool {
    row.agent_id == agent && row.state == MemoryState::Tentative && !row.pinned
        && row.created_at@ < cutoff@
}

/// Whether `row` is tentative, not pinned, and written before `cutoff`.
pub fn is_mature(row: &MemoryRow, agent: AgentId, cutoff: Timestamp) -> (r: bool)
    ensures
        r == mature(*row, agent, cutoff),
{
    row.agent_id == agent && row.state == MemoryState::Tentative && !row.pinned
        && row.created_at.micros() < cutoff.micros()
}

/// The change that brings `row` to the state held, on the librarian's account.
pub open spec fn held_change(row: MemoryRow, event_id: MemoryEventId, now: Timestamp) -> Change {
    revision(
        row,
        MemoryRow { state: MemoryState::Held, ..row },
        event_id,
        row.kind,
        MutationSource::Librarian,
        now,
    )
}

/// Plans bringing `row` to the state held, on the librarian's account. The
/// validation clock stays as it is.
pub fn plan_held(row: MemoryRow, event_id: MemoryEventId, now: Timestamp) -> (c: Change)
    ensures
        c == held_change(row, event_id, now),
{
    let kind = row.kind;
    let mut next = row.clone();
    next.state = MemoryState::Held;
    revise(row, next, event_id, kind, MutationSource::Librarian, now)
}

/// The attributes that a memory had, for it to get back.
#[derive(Clone, Copy, Debug, PartialEq, Eq, Structural)]
pub struct RestoredAttrs {
    pub kind: MemoryKind,
    pub state: MemoryState,
    pub pinned: bool,
}

/// The attributes that an event leaves a memory with: none for a removal.
pub open spec fn event_attrs(e: MemoryEvent) -> Option<RestoredAttrs> {
    match e.payload {
        MemoryEventPayload::Write { kind, state, pinned, .. } => Some(
            RestoredAttrs { kind, state, pinned },
        ),
        MemoryEventPayload::Update { kind, state, pinned, .. } => Some(
            RestoredAttrs { kind, state, pinned },
        ),
        MemoryEventPayload::Forget { .. } => None,
    }
}

/// The attributes that an event leaves a memory with: none for a removal.
pub fn attrs_of(e: &MemoryEvent) -> (a: Option<RestoredAttrs>)
    ensures
        a == event_attrs(*e),
{
    match &e.payload {
        MemoryEventPayload::Write { kind, state, pinned, .. } => Some(
            RestoredAttrs { kind: *kind, state: *state, pinned: *pinned },
        ),
        MemoryEventPayload::Update { kind, state, pinned, .. } => Some(
            RestoredAttrs { kind: *kind, state: *state, pinned: *pinned },
        ),
        MemoryEventPayload::Forget { .. } => None,
    }
}

/// The change that undoes `evt`, where `row` is the current row of its memory
/// and `attrs` the attributes that the memory had before:
/// a write is undone by a removal, an update by an update back to the content and
/// the attributes it replaced, a removal by a write of the removed content.
pub open spec fn revert_change(
    evt: MemoryEvent,
    row: Option<MemoryRow>,
    attrs: Option<RestoredAttrs>,
    event_id: MemoryEventId,
    now: Timestamp,
) -> Result<Change, MemoryStoreError> {
    let agent = evt.agent_id;
    let target = evt.target_memory_id;
    match evt.payload {
        MemoryEventPayload::Write { .. } => match lock_error(
            row,
            agent,
            target,
            MutationSource::Operator,
        ) {
            Some(e) => Err(e),
            None => Ok(removal(row->0, event_id, MutationSource::Operator, now)),
        },
        MemoryEventPayload::Update { before, .. } => match lock_error(
            row,
            agent,
            target,
            MutationSource::Operator,
        ) {
            Some(e) => Err(e),
            None => match attrs {
                None => Err(MemoryStoreError::NotFound { id: target }),
                Some(a) => Ok(
                    revision(
                        row->0,
                        MemoryRow { content: before, state: a.state, pinned: a.pinned, ..row->0 },
                        event_id,
                        a.kind,
                        MutationSource::Operator,
                        now,
                    ),
                ),
            },
        },
        MemoryEventPayload::Forget { before } => match attrs {
            None => Err(MemoryStoreError::NotFound { id: target }),
            Some(a) => {
                let w = write_change(
                    target,
                    event_id,
                    agent,
                    evt.org_id,
                    a.kind,
                    before,
                    a.state,
                    a.pinned,
                    MutationSource::Operator,
                    now,
                );
                Ok(
                    Change {
                        event: w.event,
                        effect: RowEffect::InsertIfAbsent(w.effect->Insert_0),
                    },
                )
            },
        },
    }
}

/// Plans the reversal of the journal event `evt`. `row` is the current row of
/// its memory, `attrs` the attributes that the memory had before; an update or a
/// removal without any means a broken journal, and is reported rather than papered
/// over.
pub fn plan_revert(
    evt: MemoryEvent,
    row: Option<MemoryRow>,
    attrs: Option<RestoredAttrs>,
    event_id: MemoryEventId,
    now: Timestamp,
) -> (r: Result<Change, MemoryStoreError>)
    ensures
        r == revert_change(evt, row, attrs, event_id, now),
{
    let agent = evt.agent_id;
    let target = evt.target_memory_id;
    match evt.payload {
        MemoryEventPayload::Write { .. } => apply_forget(
            row,
            event_id,
            agent,
            target,
            MutationSource::Operator,
            now,
        ),
        MemoryEventPayload::Update { before, .. } => match lock_existing(
            row,
            agent,
            target,
            MutationSource::Operator,
        ) {
            Err(e) => Err(e),
            Ok(prior) => match attrs {
                None => Err(MemoryStoreError::NotFound { id: target }),
                Some(a) => {
                    let mut next = prior.clone();
                    next.content = before;
                    next.state = a.state;
                    next.pinned = a.pinned;
                    Ok(revise(prior, next, event_id, a.kind, MutationSource::Operator, now))
                },
            },
        },
        MemoryEventPayload::Forget { before } => match attrs {
            None => Err(MemoryStoreError::NotFound { id: target }),
            Some(a) => {
                let event = MemoryEvent {
                    id: event_id,
                    agent_id: agent,
                    org_id: evt.org_id,
                    target_memory_id: target,
                    source: MutationSource::Operator,
                    created_at: now,
                    payload: MemoryEventPayload::Write {
                        content: before.clone(),
                        kind: a.kind,
                        state: a.state,
                        pinned: a.pinned,
                    },
                };
                let row = mint_row(
                    target,
                    agent,
                    evt.org_id,
                    before,
                    a.kind,
                    a.state,
                    a.pinned,
                    MutationSource::Operator,
                    now,
                );
                Ok(Change { event, effect: RowEffect::InsertIfAbsent(row) })
            },
        },
    }
}

} // verus!
