//! Agreement of the memory table with the journal, and the laws that every
//! operation keeps it.

use crate::ids::{AgentId, MemoryEventId, MemoryId, OrgId};
use crate::memory::plan::{
    event_attrs, held_change, minted_row, mutation_change, mutation_target, pin_change, removal,
    validation_change, Change, RestoredAttrs, RowEffect,
};
use crate::memory::store::{
    MemoryEvent, MemoryEventPayload, MemoryMutation, MemoryRow, MutationSource,
};
use crate::memory::tables::{
    after_effect, carries_attrs, carries_prior, distinct_rows, event_key, event_of, find_row, has_id, held_events,
    held_where, latest_attrs_event, latest_prior_event, lemma_effect_distinct, lemma_filter_distinct, lemma_find_at,
    lemma_find_event, lemma_find_row, lemma_put_is_update, put_row, removal_events, restored_attrs,
    reversal, without_rows, MemoryTables,
};
use crate::seqs::{lemma_filter_all, lemma_filter_filter, lemma_filter_step};
use crate::sort::key_lt;
use crate::time::{lemma_timestamp_range, Timestamp};
use vstd::prelude::*;

verus! {

/// A row without its bookkeeping: readings and validations are counted, not
/// journaled.
pub open spec fn settled_row(r: MemoryRow) -> MemoryRow {
    MemoryRow {
        last_validated_at: r.created_at,
        last_accessed_at: r.created_at,
        access_count: 0,
        ..r
    }
}

/// A row, if there is one, without its bookkeeping.
pub open spec fn settled(row: Option<MemoryRow>) -> Option<MemoryRow> {
    match row {
        Some(r) => Some(settled_row(r)),
        None => None,
    }
}

/// The events about the memory `id`, in the order in which they were journaled.
pub open spec fn events_on(events: Seq<MemoryEvent>, id: MemoryId) -> Seq<MemoryEvent> {
    events.filter(|e: MemoryEvent| e.target_memory_id == id)
}

/// What the event `e` makes of the memory that it is about: nothing where it
/// mints a memory that is there already.
pub open spec fn fate_step(row: Option<MemoryRow>, e: MemoryEvent) -> Option<Option<MemoryRow>> {
    match e.payload {
        MemoryEventPayload::Write { content, kind, state, pinned } => match row {
            Some(_) => None,
            None => Some(
                Some(
                    minted_row(
                        e.target_memory_id,
                        e.agent_id,
                        e.org_id,
                        content,
                        kind,
                        state,
                        pinned,
                        e.source,
                        e.created_at,
                    ),
                ),
            ),
        },
        MemoryEventPayload::Update { after, state, pinned, .. } => match row {
            Some(r) => Some(Some(MemoryRow { content: after, state, pinned, ..r })),
            None => Some(None),
        },
        MemoryEventPayload::Forget { .. } => Some(None),
    }
}

/// What the events about one memory, from first to last, make of its row `row`.
pub open spec fn fate(row: Option<MemoryRow>, events: Seq<MemoryEvent>) -> Option<Option<MemoryRow>>
    decreases events.len(),
{
    if events.len() == 0 {
        Some(row)
    } else {
        match fate(row, events.drop_last()) {
            None => None,
            Some(before) => fate_step(before, events.last()),
        }
    }
}

/// The journal tells the row of the memory `id`, bookkeeping aside.
pub open spec fn projects(rows: Seq<MemoryRow>, events: Seq<MemoryEvent>, id: MemoryId) -> bool {
    fate(None, events_on(events, id)) == Some(settled(find_row(rows, id)))
}

/// The memory table is a projection of the journal.
pub open spec fn faithful(rows: Seq<MemoryRow>, events: Seq<MemoryEvent>) -> bool {
    forall|id: MemoryId| #[trigger] projects(rows, events, id)
}

/// Events about one memory belong to one agent, and give it one kind.
pub open spec fn one_owner(events: Seq<MemoryEvent>) -> bool {
    forall|i: int, j: int|
        0 <= i < events.len() && 0 <= j < events.len() && (#[trigger] events[i]).target_memory_id
            == (#[trigger] events[j]).target_memory_id ==> events[i].agent_id == events[j].agent_id
            && (event_attrs(events[i]) is Some && event_attrs(events[j]) is Some ==> event_attrs(
            events[i],
        )->0.kind == event_attrs(events[j])->0.kind)
}

/// What the journal last said of a row is what the row has.
pub open spec fn attrs_current(rows: Seq<MemoryRow>, events: Seq<MemoryEvent>) -> bool {
    forall|i: int|
        0 <= i < rows.len() ==> restored_attrs(
            events,
            (#[trigger] rows[i]).agent_id,
            rows[i].id,
        ) == Some(attrs_of_row(rows[i]))
}

/// The attributes of a row.
pub open spec fn attrs_of_row(r: MemoryRow) -> RestoredAttrs {
    RestoredAttrs { kind: r.kind, state: r.state, pinned: r.pinned }
}

/// The events about one memory were journaled in chronological order.
pub open spec fn chronological(events: Seq<MemoryEvent>) -> bool {
    forall|i: int, j: int|
        0 <= i < j < events.len() && (#[trigger] events[i]).target_memory_id == (
        #[trigger] events[j]).target_memory_id ==> key_lt(
            event_key(events[i]),
            event_key(events[j]),
        )
}

/// `e` comes after every event about its memory.
pub open spec fn comes_last(events: Seq<MemoryEvent>, e: MemoryEvent) -> bool {
    forall|i: int|
        0 <= i < events.len() && (#[trigger] events[i]).target_memory_id == e.target_memory_id
            ==> key_lt(event_key(events[i]), event_key(e))
}

/// The memory rows agree with the journal.
pub open spec fn audit(rows: Seq<MemoryRow>, events: Seq<MemoryEvent>) -> bool {
    &&& distinct_rows(rows)
    &&& faithful(rows, events)
    &&& one_owner(events)
    &&& attrs_current(rows, events)
    &&& chronological(events)
}

/// The tables agree with their journal.
pub open spec fn audited(t: MemoryTables) -> bool {
    audit(t.rows(), t.journal())
}

/// No event is about the memory `id`.
pub open spec fn unheard_of(events: Seq<MemoryEvent>, id: MemoryId) -> bool {
    forall|i: int| 0 <= i < events.len() ==> (#[trigger] events[i]).target_memory_id != id
}

/// The event of a change tells what its effect does.
pub open spec fn sound_change(
    rows: Seq<MemoryRow>,
    events: Seq<MemoryEvent>,
    c: Change,
) -> bool {
    let e = c.event;
    match c.effect {
        RowEffect::Insert(row) => match e.payload {
            MemoryEventPayload::Write { content, kind, state, pinned } => {
                &&& row == minted_row(
                    e.target_memory_id,
                    e.agent_id,
                    e.org_id,
                    content,
                    kind,
                    state,
                    pinned,
                    e.source,
                    e.created_at,
                )
                &&& find_row(rows, e.target_memory_id) is None
                &&& unheard_of(events, e.target_memory_id)
            },
            _ => false,
        },
        RowEffect::InsertIfAbsent(row) => match e.payload {
            MemoryEventPayload::Write { content, kind, state, pinned } => {
                &&& row == minted_row(
                    e.target_memory_id,
                    e.agent_id,
                    e.org_id,
                    content,
                    kind,
                    state,
                    pinned,
                    e.source,
                    e.created_at,
                )
                &&& find_row(rows, e.target_memory_id) is None
                &&& exists|i: int|
                    0 <= i < events.len() && carries_attrs(
                        #[trigger] events[i],
                        e.agent_id,
                        e.target_memory_id,
                    ) && event_attrs(events[i])->0.kind == kind
            },
            _ => false,
        },
        RowEffect::Put(next) => match (e.payload, find_row(rows, e.target_memory_id)) {
            (MemoryEventPayload::Update { after, kind, state, pinned, .. }, Some(prior)) => {
                &&& next.id == prior.id
                &&& e.agent_id == prior.agent_id
                &&& kind == prior.kind
                &&& settled_row(next) == settled_row(
                    MemoryRow { content: after, state, pinned, ..prior },
                )
            },
            _ => false,
        },
        RowEffect::Remove(id) => match (e.payload, find_row(rows, e.target_memory_id)) {
            (MemoryEventPayload::Forget { .. }, Some(prior)) => {
                &&& id == prior.id
                &&& e.agent_id == prior.agent_id
            },
            _ => false,
        },
    }
}

pub proof fn lemma_filter_push<T>(s: Seq<T>, x: T, p: spec_fn(T) -> bool)
    ensures
        s.push(x).filter(p) == if p(x) {
            s.filter(p).push(x)
        } else {
            s.filter(p)
        },
{
    reveal(Seq::filter);
    assert(s.push(x).drop_last() =~= s);
}

pub proof fn lemma_find_push(rows: Seq<MemoryRow>, row: MemoryRow, id: MemoryId)
    ensures
        find_row(rows.push(row), id) == if row.id == id {
            Some(row)
        } else {
            find_row(rows, id)
        },
{
    assert(rows.push(row).drop_last() =~= rows);
}

/// A change of rows that keeps their ids shows in what is found.
pub proof fn lemma_find_map(rows: Seq<MemoryRow>, f: spec_fn(MemoryRow) -> MemoryRow, id: MemoryId)
    requires
        forall|r: MemoryRow| (#[trigger] f(r)).id == r.id,
    ensures
        find_row(rows.map_values(f), id) == (match find_row(rows, id) {
            Some(r) => Some(f(r)),
            None => None,
        }),
    decreases rows.len(),
{
    if rows.len() > 0 {
        assert(rows.map_values(f).drop_last() =~= rows.drop_last().map_values(f));
        assert(f(rows.last()).id == rows.last().id);
        lemma_find_map(rows.drop_last(), f, id);
    }
}

/// What is found in a filtered table.
pub proof fn lemma_find_filter(rows: Seq<MemoryRow>, p: spec_fn(MemoryRow) -> bool, id: MemoryId)
    requires
        distinct_rows(rows),
    ensures
        find_row(rows.filter(p), id) == (match find_row(rows, id) {
            Some(r) => if p(r) {
                Some(r)
            } else {
                None
            },
            None => None,
        }),
    decreases rows.len(),
{
    reveal(Seq::filter);
    if rows.len() > 0 {
        let rest = rows.drop_last();
        lemma_find_filter(rest, p, id);
        if p(rows.last()) {
            lemma_find_push(rest.filter(p), rows.last(), id);
        } else if rows.last().id == id {
            lemma_find_row(rest, id);
            match find_row(rest, id) {
                Some(r) => {
                    let i = choose|i: int| 0 <= i < rest.len() && #[trigger] rest[i] == r;
                    assert(rows[i].id != rows[rows.len() - 1].id);
                },
                None => {},
            }
        }
    }
}

/// What is found after a put.
pub proof fn lemma_find_after_put(rows: Seq<MemoryRow>, next: MemoryRow, id: MemoryId)
    ensures
        find_row(put_row(rows, next), id) == if id == next.id && find_row(rows, id) is Some {
            Some(next)
        } else {
            find_row(rows, id)
        },
{
    let f = |r: MemoryRow|
        if r.id == next.id {
            next
        } else {
            r
        };
    lemma_find_map(rows, f, id);
    lemma_find_row(rows, id);
    assert(put_row(rows, next) =~= rows.map_values(f));
}

/// One sound change keeps the projection of each memory.
proof fn lemma_projection_step(
    rows: Seq<MemoryRow>,
    events: Seq<MemoryEvent>,
    c: Change,
    id: MemoryId,
)
    requires
        distinct_rows(rows),
        projects(rows, events, id),
        sound_change(rows, events, c),
    ensures
        projects(after_effect(rows, c.effect), events.push(c.event), id),
{
    let e = c.event;
    let on = events_on(events, id);
    lemma_filter_push(events, e, |x: MemoryEvent| x.target_memory_id == id);
    lemma_find_row(rows, e.target_memory_id);
    if e.target_memory_id == id {
        assert(on.push(e).drop_last() =~= on);
        assert(fate(None, on.push(e)) == fate_step(settled(find_row(rows, id)), e));
    }
    match c.effect {
        RowEffect::Insert(row) => {
            lemma_find_push(rows, row, id);
            assert(settled_row(row) == row);
        },
        RowEffect::InsertIfAbsent(row) => {
            lemma_find_push(rows, row, id);
            assert(settled_row(row) == row);
        },
        RowEffect::Put(next) => lemma_find_after_put(rows, next, id),
        RowEffect::Remove(gone) => {
            lemma_find_row(rows, id);
            lemma_find_filter(rows, |r: MemoryRow| r.id != gone, id);
        },
    }
}

pub proof fn lemma_latest_attrs(events: Seq<MemoryEvent>, agent: AgentId, target: MemoryId)
    ensures
        match latest_attrs_event(events, agent, target) {
            Some(e) => carries_attrs(e, agent, target) && exists|i: int|
                0 <= i < events.len() && #[trigger] events[i] == e,
            None => forall|i: int|
                0 <= i < events.len() ==> !carries_attrs(#[trigger] events[i], agent, target),
        },
    decreases events.len(),
{
    if events.len() > 0 {
        let rest = events.drop_last();
        lemma_latest_attrs(rest, agent, target);
        assert(events[events.len() - 1] == events.last());
        match latest_attrs_event(rest, agent, target) {
            Some(p) => {
                let i = choose|i: int| 0 <= i < rest.len() && #[trigger] rest[i] == p;
                assert(events[i] == p);
            },
            None => {
                assert forall|i: int| 0 <= i < rest.len() implies !carries_attrs(
                    #[trigger] events[i],
                    agent,
                    target,
                ) by {
                    assert(rest[i] == events[i]);
                }
            },
        }
    }
}

proof fn lemma_latest_prior(events: Seq<MemoryEvent>, evt: MemoryEvent)
    ensures
        latest_prior_event(events, evt) matches Some(e) ==> carries_prior(e, evt) && exists|i: int|
            0 <= i < events.len() && #[trigger] events[i] == e,
    decreases events.len(),
{
    if events.len() > 0 {
        let rest = events.drop_last();
        lemma_latest_prior(rest, evt);
        assert(events[events.len() - 1] == events.last());
        match latest_prior_event(rest, evt) {
            Some(p) => {
                let i = choose|i: int| 0 <= i < rest.len() && #[trigger] rest[i] == p;
                assert(events[i] == p);
            },
            None => {},
        }
    }
}

/// Where all events about the memory of `evt` come before it, the latest of them is
/// the latest before it.
pub proof fn lemma_prior_is_latest(events: Seq<MemoryEvent>, evt: MemoryEvent)
    requires
        comes_last(events, evt),
    ensures
        latest_prior_event(events, evt) == latest_attrs_event(
            events,
            evt.agent_id,
            evt.target_memory_id,
        ),
    decreases events.len(),
{
    broadcast use lemma_timestamp_range;

    if events.len() > 0 {
        let rest = events.drop_last();
        let e = events[events.len() - 1];
        assert forall|i: int|
            0 <= i < rest.len() && (#[trigger] rest[i]).target_memory_id
                == evt.target_memory_id implies key_lt(event_key(rest[i]), event_key(evt)) by {
            assert(rest[i] == events[i]);
        }
        lemma_prior_is_latest(rest, evt);
        if e.target_memory_id == evt.target_memory_id {
            assert(key_lt(event_key(e), event_key(evt)));
        }
    }
}

/// What was journaled from `evt` on does not matter for what came before it.
pub proof fn lemma_prior_stays(events: Seq<MemoryEvent>, evt: MemoryEvent, n: int)
    requires
        0 <= n <= events.len(),
        forall|i: int| n <= i < events.len() ==> !carries_prior(#[trigger] events[i], evt),
    ensures
        latest_prior_event(events, evt) == latest_prior_event(events.take(n), evt),
    decreases events.len(),
{
    if n == events.len() {
        assert(events.take(n) =~= events);
    } else {
        let rest = events.drop_last();
        assert(!carries_prior(events[events.len() - 1], evt));
        assert forall|i: int| n <= i < rest.len() implies !carries_prior(
            #[trigger] rest[i],
            evt,
        ) by {
            assert(rest[i] == events[i]);
        }
        lemma_prior_stays(rest, evt, n);
        assert(rest.take(n) =~= events.take(n));
    }
}

/// A later event that carries attributes is the latest that does.
pub proof fn lemma_latest_push(
    events: Seq<MemoryEvent>,
    e: MemoryEvent,
    agent: AgentId,
    target: MemoryId,
)
    requires
        comes_last(events, e),
    ensures
        latest_attrs_event(events.push(e), agent, target) == if carries_attrs(e, agent, target) {
            Some(e)
        } else {
            latest_attrs_event(events, agent, target)
        },
{
    broadcast use lemma_timestamp_range;

    assert(events.push(e).drop_last() =~= events);
    lemma_latest_attrs(events, agent, target);
    match latest_attrs_event(events, agent, target) {
        Some(p) => {
            let i = choose|i: int| 0 <= i < events.len() && #[trigger] events[i] == p;
            if carries_attrs(e, agent, target) {
                assert(key_lt(event_key(events[i]), event_key(e)));
            }
        },
        None => {},
    }
}

/// The event that a row owes its attributes to.
pub proof fn lemma_row_event(rows: Seq<MemoryRow>, events: Seq<MemoryEvent>, r: MemoryRow) -> (i: int)
    requires
        attrs_current(rows, events),
        find_row(rows, r.id) == Some(r),
    ensures
        0 <= i < events.len(),
        carries_attrs(events[i], r.agent_id, r.id),
        event_attrs(events[i])->0.kind == r.kind,
{
    lemma_find_row(rows, r.id);
    let k = choose|k: int| 0 <= k < rows.len() && #[trigger] rows[k] == r;
    assert(restored_attrs(events, rows[k].agent_id, rows[k].id) is Some);
    lemma_latest_attrs(events, r.agent_id, r.id);
    let e = latest_attrs_event(events, r.agent_id, r.id)->0;
    choose|i: int| 0 <= i < events.len() && #[trigger] events[i] == e
}

/// A row that the event is not about keeps the attributes that the journal gives
/// it.
proof fn lemma_other_row(
    rows: Seq<MemoryRow>,
    events: Seq<MemoryEvent>,
    e: MemoryEvent,
    r: MemoryRow,
)
    requires
        attrs_current(rows, events),
        comes_last(events, e),
        rows.contains(r),
        r.id != e.target_memory_id,
    ensures
        restored_attrs(events.push(e), r.agent_id, r.id) == Some(attrs_of_row(r)),
{
    let k = choose|k: int| 0 <= k < rows.len() && rows[k] == r;
    assert(restored_attrs(events, rows[k].agent_id, rows[k].id) is Some);
    lemma_latest_push(events, e, r.agent_id, r.id);
}

proof fn lemma_owner_step(rows: Seq<MemoryRow>, events: Seq<MemoryEvent>, c: Change)
    requires
        audit(rows, events),
        sound_change(rows, events, c),
    ensures
        one_owner(events.push(c.event)),
{
    let e = c.event;
    let more = events.push(e);
    let n = events.len() as int;
    assert forall|i: int| 0 <= i < n && (#[trigger] events[i]).target_memory_id
        == e.target_memory_id implies events[i].agent_id == e.agent_id && (event_attrs(
        events[i],
    ) is Some && event_attrs(e) is Some ==> event_attrs(events[i])->0.kind == event_attrs(
        e,
    )->0.kind) by {
        match c.effect {
            RowEffect::Insert(row) => {},
            RowEffect::InsertIfAbsent(row) => {
                let kind = e.payload->Write_kind;
                let w = choose|w: int|
                    0 <= w < events.len() && carries_attrs(
                        #[trigger] events[w],
                        e.agent_id,
                        e.target_memory_id,
                    ) && event_attrs(events[w])->0.kind == kind;
                assert(events[i].target_memory_id == events[w].target_memory_id);
            },
            RowEffect::Put(next) => {
                let prior = find_row(rows, e.target_memory_id)->0;
                lemma_find_row(rows, e.target_memory_id);
                let w = lemma_row_event(rows, events, prior);
                assert(events[i].target_memory_id == events[w].target_memory_id);
            },
            RowEffect::Remove(id) => {
                let prior = find_row(rows, e.target_memory_id)->0;
                lemma_find_row(rows, e.target_memory_id);
                let w = lemma_row_event(rows, events, prior);
                assert(events[i].target_memory_id == events[w].target_memory_id);
            },
        }
    }
    assert forall|i: int, j: int|
        0 <= i < more.len() && 0 <= j < more.len() && (#[trigger] more[i]).target_memory_id == (
        #[trigger] more[j]).target_memory_id implies more[i].agent_id == more[j].agent_id && (
    event_attrs(more[i]) is Some && event_attrs(more[j]) is Some ==> event_attrs(more[i])->0.kind
        == event_attrs(more[j])->0.kind) by {
        if i < n && j < n {
            assert(more[i] == events[i] && more[j] == events[j]);
        } else if i < n {
            assert(more[i] == events[i]);
        } else if j < n {
            assert(more[j] == events[j]);
        }
    }
}

proof fn lemma_attrs_step(rows: Seq<MemoryRow>, events: Seq<MemoryEvent>, c: Change)
    requires
        audit(rows, events),
        sound_change(rows, events, c),
        comes_last(events, c.event),
    ensures
        attrs_current(after_effect(rows, c.effect), events.push(c.event)),
{
    let e = c.event;
    let after = after_effect(rows, c.effect);
    lemma_find_row(rows, e.target_memory_id);
    assert forall|i: int| 0 <= i < after.len() implies restored_attrs(
        events.push(e),
        (#[trigger] after[i]).agent_id,
        after[i].id,
    ) == Some(attrs_of_row(after[i])) by {
        let r = after[i];
        lemma_latest_push(events, e, r.agent_id, r.id);
        match c.effect {
            RowEffect::Insert(row) => {
                if i < rows.len() {
                    assert(rows[i] == r);
                    lemma_other_row(rows, events, e, r);
                }
            },
            RowEffect::InsertIfAbsent(row) => {
                if i < rows.len() {
                    assert(rows[i] == r);
                    lemma_other_row(rows, events, e, r);
                }
            },
            RowEffect::Put(next) => {
                if rows[i].id == next.id {
                    assert(r == next);
                    assert(settled_row(next).kind == next.kind);
                    assert(settled_row(next).state == next.state);
                    assert(settled_row(next).pinned == next.pinned);
                    assert(settled_row(next).agent_id == next.agent_id);
                } else {
                    assert(r == rows[i]);
                    lemma_other_row(rows, events, e, r);
                }
            },
            RowEffect::Remove(id) => {
                let q = |r: MemoryRow| r.id != id;
                lemma_filter_distinct(rows, q);
                assert(q(rows.filter(q)[i]) && rows.contains(rows.filter(q)[i]));
                lemma_other_row(rows, events, e, r);
            },
        }
    }
}

/// One journaled change, sound and later than all that was journaled of its
/// memory, keeps the rows in agreement with the journal.
pub proof fn law_change_keeps_audit(rows: Seq<MemoryRow>, events: Seq<MemoryEvent>, c: Change)
    requires
        audit(rows, events),
        sound_change(rows, events, c),
        comes_last(events, c.event),
    ensures
        audit(after_effect(rows, c.effect), events.push(c.event)),
{
    let after = after_effect(rows, c.effect);
    let more = events.push(c.event);
    lemma_find_row(rows, c.event.target_memory_id);
    lemma_effect_distinct(rows, c.effect);
    assert forall|id: MemoryId| #[trigger] projects(after, more, id) by {
        assert(projects(rows, events, id));
        lemma_projection_step(rows, events, c, id);
    }
    lemma_owner_step(rows, events, c);
    lemma_attrs_step(rows, events, c);
    assert forall|i: int, j: int|
        0 <= i < j < more.len() && (#[trigger] more[i]).target_memory_id == (
        #[trigger] more[j]).target_memory_id implies key_lt(
        event_key(more[i]),
        event_key(more[j]),
    ) by {
        assert(more[i] == events[i]);
        if j < events.len() {
            assert(more[j] == events[j]);
        }
    }
}

/// Empty tables agree with their empty journal.
pub proof fn law_new_tables_are_audited(t: MemoryTables)
    requires
        t.rows() == Seq::<MemoryRow>::empty(),
        t.journal() == Seq::<MemoryEvent>::empty(),
    ensures
        audited(t),
{
    assert forall|id: MemoryId| #[trigger] projects(t.rows(), t.journal(), id) by {
        reveal(Seq::filter);
    }
}

/// Every mutation that an agent, an operator or the librarian asks for keeps the
/// tables in agreement with their journal, provided that a write takes an id
/// that was never used and that time moves on.
pub proof fn law_mutation_keeps_audit(
    t: MemoryTables,
    u: MemoryTables,
    m: MemoryMutation,
    fresh: MemoryId,
    event_id: MemoryEventId,
    org: OrgId,
    now: Timestamp,
)
    requires
        audited(t),
        unheard_of(t.journal(), fresh),
        ({
            let planned = mutation_change(
                m,
                find_row(t.rows(), mutation_target(m, fresh)),
                fresh,
                event_id,
                org,
                now,
            );
            &&& planned is Ok
            &&& !t.rejects(planned->Ok_0)
            &&& u.took(t, planned->Ok_0)
            &&& comes_last(t.journal(), planned->Ok_0.event)
        }),
    ensures
        audited(u),
{
    let target = mutation_target(m, fresh);
    let c = mutation_change(m, find_row(t.rows(), target), fresh, event_id, org, now)->Ok_0;
    lemma_find_row(t.rows(), target);
    law_change_keeps_audit(t.rows(), t.journal(), c);
}

/// Pinning keeps the tables in agreement with their journal.
pub proof fn law_pin_keeps_audit(
    t: MemoryTables,
    u: MemoryTables,
    agent: AgentId,
    memory: MemoryId,
    pinned: bool,
    event_id: MemoryEventId,
    now: Timestamp,
)
    requires
        audited(t),
        ({
            let planned = pin_change(
                find_row(t.rows(), memory),
                event_id,
                agent,
                memory,
                pinned,
                now,
            );
            &&& planned is Ok
            &&& u.took(t, planned->Ok_0)
            &&& comes_last(t.journal(), planned->Ok_0.event)
        }),
    ensures
        audited(u),
{
    let c = pin_change(find_row(t.rows(), memory), event_id, agent, memory, pinned, now)->Ok_0;
    lemma_find_row(t.rows(), memory);
    law_change_keeps_audit(t.rows(), t.journal(), c);
}

/// A validation keeps the tables in agreement with their journal.
pub proof fn law_validation_keeps_audit(
    t: MemoryTables,
    u: MemoryTables,
    agent: AgentId,
    memory: MemoryId,
    source: MutationSource,
    event_id: MemoryEventId,
    now: Timestamp,
)
    requires
        audited(t),
        ({
            let planned = validation_change(
                find_row(t.rows(), memory),
                event_id,
                agent,
                memory,
                source,
                now,
            );
            &&& planned is Ok
            &&& u.journal() == t.journal().push(planned->Ok_0.event)
            &&& u.rows() == after_effect(t.rows(), planned->Ok_0.effect)
            &&& comes_last(t.journal(), planned->Ok_0.event)
        }),
    ensures
        audited(u),
{
    let c = validation_change(
        find_row(t.rows(), memory),
        event_id,
        agent,
        memory,
        source,
        now,
    )->Ok_0;
    lemma_find_row(t.rows(), memory);
    law_change_keeps_audit(t.rows(), t.journal(), c);
}

/// A reversal keeps the tables in agreement with their journal, except that a
/// removal must not be undone while its memory is there: the journal would then
/// tell of a write that did not take place.
pub proof fn law_revert_keeps_audit(
    t: MemoryTables,
    u: MemoryTables,
    agent: AgentId,
    event: MemoryEventId,
    event_id: MemoryEventId,
    now: Timestamp,
)
    requires
        audited(t),
        ({
            let planned = reversal(t, agent, event, event_id, now);
            &&& planned is Ok
            &&& u.took(t, planned->Ok_0)
            &&& comes_last(t.journal(), planned->Ok_0.event)
        }),
        ({
            let evt = event_of(t.journal(), agent, event)->0;
            evt.payload is Forget ==> find_row(t.rows(), evt.target_memory_id) is None
        }),
    ensures
        audited(u),
{
    let c = reversal(t, agent, event, event_id, now)->Ok_0;
    let evt = event_of(t.journal(), agent, event)->0;
    let target = evt.target_memory_id;
    let events = t.journal();
    lemma_find_row(t.rows(), target);
    lemma_find_event(events, event);
    let k = choose|k: int| 0 <= k < events.len() && #[trigger] events[k] == evt;
    match evt.payload {
        MemoryEventPayload::Write { .. } => {},
        MemoryEventPayload::Update { .. } => {
            let prior = find_row(t.rows(), target)->0;
            lemma_latest_prior(events, evt);
            let e = latest_prior_event(events, evt)->0;
            let x = choose|x: int| 0 <= x < events.len() && #[trigger] events[x] == e;
            let w = lemma_row_event(t.rows(), events, prior);
            assert(events[x].target_memory_id == events[w].target_memory_id);
            assert(events[k].target_memory_id == events[w].target_memory_id);
        },
        MemoryEventPayload::Forget { .. } => {
            lemma_latest_attrs(events, agent, target);
            let e = latest_attrs_event(events, agent, target)->0;
            let w = choose|w: int| 0 <= w < events.len() && #[trigger] events[w] == e;
            assert(carries_attrs(events[w], agent, target));
        },
    }
    law_change_keeps_audit(t.rows(), t.journal(), c);
}

/// Counting what is not journaled keeps the tables in agreement with their
/// journal.
pub proof fn law_bookkeeping_keeps_audit(
    t: MemoryTables,
    u: MemoryTables,
    f: spec_fn(MemoryRow) -> MemoryRow,
)
    requires
        audited(t),
        u.journal() == t.journal(),
        u.rows() == t.rows().map_values(f),
        forall|r: MemoryRow| settled_row(#[trigger] f(r)) == settled_row(r),
    ensures
        audited(u),
{
    assert forall|r: MemoryRow| (#[trigger] f(r)).id == r.id by {
        assert(settled_row(f(r)).id == settled_row(r).id);
    }
    assert forall|id: MemoryId| #[trigger] projects(u.rows(), u.journal(), id) by {
        assert(projects(t.rows(), t.journal(), id));
        lemma_find_map(t.rows(), f, id);
    }
    assert forall|i: int, j: int| 0 <= i < j < u.rows().len() implies #[trigger] u.rows()[i].id
        != #[trigger] u.rows()[j].id by {
        assert(t.rows()[i].id != t.rows()[j].id);
    }
    assert forall|i: int| 0 <= i < u.rows().len() implies restored_attrs(
        u.journal(),
        (#[trigger] u.rows()[i]).agent_id,
        u.rows()[i].id,
    ) == Some(attrs_of_row(u.rows()[i])) by {
        let r = t.rows()[i];
        assert(settled_row(f(r)) == settled_row(r));
        assert(settled_row(f(r)).agent_id == r.agent_id);
        assert(settled_row(f(r)).kind == r.kind);
        assert(settled_row(f(r)).state == r.state);
        assert(settled_row(f(r)).pinned == r.pinned);
    }
}

/// Everything journaled of the memory `id` was journaled before `now`.
pub open spec fn settled_before(events: Seq<MemoryEvent>, id: MemoryId, now: Timestamp) -> bool {
    forall|j: int|
        0 <= j < events.len() && (#[trigger] events[j]).target_memory_id == id
            ==> events[j].created_at@ < now@
}

proof fn lemma_held_prefix(
    rows: Seq<MemoryRow>,
    events: Seq<MemoryEvent>,
    p: spec_fn(MemoryRow) -> bool,
    ids: Seq<MemoryEventId>,
    now: Timestamp,
    i: int,
)
    requires
        audit(rows, events),
        0 <= i <= rows.len(),
        forall|k: int|
            0 <= k < rows.len() && p(#[trigger] rows[k]) ==> settled_before(
                events,
                rows[k].id,
                now,
            ),
    ensures
        audit(
            held_where(rows.take(i), p) + rows.skip(i),
            events + held_events(rows.take(i), p, ids, now),
        ),
    decreases i,
{
    broadcast use lemma_timestamp_range;

    if i == 0 {
        reveal(Seq::filter);
        assert(rows.take(0) =~= Seq::<MemoryRow>::empty());
        assert(held_where(rows.take(0), p) + rows.skip(0) =~= rows);
        assert(events + held_events(rows.take(0), p, ids, now) =~= events);
    } else {
        let j = i - 1;
        lemma_held_prefix(rows, events, p, ids, now, j);
        lemma_filter_step(rows, j, p);
        let cur = held_where(rows.take(j), p) + rows.skip(j);
        let added = held_events(rows.take(j), p, ids, now);
        let log = events + added;
        let hits = rows.take(j).filter(p);
        let row = rows[j];
        assert(cur[j] == row);
        assert(held_where(rows.take(i), p) =~= held_where(rows.take(j), p).push(
            held_where(rows, p)[j],
        ));
        if p(row) {
            let c = held_change(row, ids[hits.len() as int], now);
            lemma_find_at(cur, j);
            assert forall|x: int|
                0 <= x < log.len() && (#[trigger] log[x]).target_memory_id
                    == c.event.target_memory_id implies key_lt(
                event_key(log[x]),
                event_key(c.event),
            ) by {
                if x < events.len() {
                    assert(log[x] == events[x]);
                    assert(settled_before(events, rows[j].id, now));
                } else {
                    let y = x - events.len();
                    assert(log[x] == added[y]);
                    assert(added[y].target_memory_id == hits[y].id);
                    lemma_filter_distinct(rows.take(j), p);
                    assert(rows.take(j).contains(hits[y]));
                    let z = choose|z: int| 0 <= z < rows.take(j).len() && rows.take(j)[z]
                        == hits[y];
                    assert(rows[z].id != rows[j].id);
                }
            }
            law_change_keeps_audit(cur, log, c);
            let next = c.effect->Put_0;
            lemma_put_is_update(cur, j, next);
            assert(cur.update(j, next) =~= held_where(rows.take(i), p) + rows.skip(i));
            assert(log.push(c.event) =~= events + held_events(rows.take(i), p, ids, now));
        } else {
            assert(cur =~= held_where(rows.take(i), p) + rows.skip(i));
        }
    }
}

/// Bringing memories to the state held, as decay and maturing do, keeps the
/// tables in agreement with their journal.
pub proof fn law_holding_keeps_audit(
    t: MemoryTables,
    u: MemoryTables,
    p: spec_fn(MemoryRow) -> bool,
    ids: Seq<MemoryEventId>,
    now: Timestamp,
)
    requires
        audited(t),
        u.rows() == held_where(t.rows(), p),
        u.journal() == t.journal() + held_events(t.rows(), p, ids, now),
        forall|k: int|
            0 <= k < t.rows().len() && p(#[trigger] t.rows()[k]) ==> settled_before(
                t.journal(),
                t.rows()[k].id,
                now,
            ),
    ensures
        audited(u),
{
    let n = t.rows().len() as int;
    lemma_held_prefix(t.rows(), t.journal(), p, ids, now, n);
    assert(t.rows().take(n) =~= t.rows());
    assert(held_where(t.rows(), p) + t.rows().skip(n) =~= u.rows());
}

proof fn lemma_removal_prefix(
    rows: Seq<MemoryRow>,
    events: Seq<MemoryEvent>,
    gone: Seq<MemoryRow>,
    ids: Seq<MemoryEventId>,
    now: Timestamp,
    k: int,
)
    requires
        audit(rows, events),
        0 <= k <= gone.len(),
        distinct_rows(gone),
        forall|i: int| 0 <= i < gone.len() ==> rows.contains(#[trigger] gone[i]),
        forall|i: int|
            0 <= i < gone.len() ==> settled_before(events, (#[trigger] gone[i]).id, now),
    ensures
        audit(
            without_rows(rows, gone.take(k)),
            events + removal_events(gone.take(k), ids, now),
        ),
    decreases k,
{
    broadcast use lemma_timestamp_range;

    if k == 0 {
        lemma_filter_all(rows, |r: MemoryRow| !has_id(gone.take(0), r.id));
        assert(events + removal_events(gone.take(0), ids, now) =~= events);
    } else {
        let j = k - 1;
        lemma_removal_prefix(rows, events, gone, ids, now, j);
        let less = gone.take(j);
        let more = gone.take(k);
        let row = gone[j];
        assert(more =~= less.push(row));
        let cur = without_rows(rows, less);
        let added = removal_events(less, ids, now);
        let log = events + added;
        let c = removal(row, ids[j], MutationSource::Librarian, now);
        let p = |r: MemoryRow| !has_id(less, r.id);
        let q = |r: MemoryRow| r.id != row.id;
        let both = |r: MemoryRow| !has_id(more, r.id);
        assert(!has_id(less, row.id)) by {
            if has_id(less, row.id) {
                let w = choose|w: int| 0 <= w < less.len() && (#[trigger] less[w]).id == row.id;
                assert(gone[w].id != gone[j].id);
            }
        }
        assert(rows.contains(gone[j]));
        let at = choose|at: int| 0 <= at < rows.len() && rows[at] == row;
        lemma_find_at(rows, at);
        lemma_find_filter(rows, p, row.id);
        assert(find_row(cur, row.id) == Some(row));
        assert forall|x: int|
            0 <= x < log.len() && (#[trigger] log[x]).target_memory_id
                == c.event.target_memory_id implies key_lt(
            event_key(log[x]),
            event_key(c.event),
        ) by {
            if x < events.len() {
                assert(log[x] == events[x]);
                assert(settled_before(events, gone[j].id, now));
            } else {
                let y = x - events.len();
                assert(log[x] == added[y]);
                assert(gone[y].id != gone[j].id);
            }
        }
        law_change_keeps_audit(cur, log, c);
        assert forall|r: MemoryRow| #[trigger] both(r) == (p(r) && q(r)) by {
            if has_id(less, r.id) {
                let w = choose|w: int| 0 <= w < less.len() && (#[trigger] less[w]).id == r.id;
                assert(more[w].id == r.id);
            }
            if r.id == row.id {
                assert(more[j].id == r.id);
            }
            if has_id(more, r.id) {
                let w = choose|w: int| 0 <= w < more.len() && (#[trigger] more[w]).id == r.id;
                if w < j {
                    assert(less[w].id == r.id);
                }
            }
        }
        lemma_filter_filter(rows, p, q, both);
        assert(log.push(c.event) =~= events + removal_events(more, ids, now));
    }
}

/// Forgetting several memories at once, as eviction does, keeps the tables in
/// agreement with their journal.
pub proof fn law_removals_keep_audit(
    t: MemoryTables,
    u: MemoryTables,
    gone: Seq<MemoryRow>,
    ids: Seq<MemoryEventId>,
    now: Timestamp,
)
    requires
        audited(t),
        distinct_rows(gone),
        forall|i: int| 0 <= i < gone.len() ==> t.rows().contains(#[trigger] gone[i]),
        forall|i: int|
            0 <= i < gone.len() ==> settled_before(t.journal(), (#[trigger] gone[i]).id, now),
        u.rows() == without_rows(t.rows(), gone),
        u.journal() == t.journal() + removal_events(gone, ids, now),
    ensures
        audited(u),
{
    lemma_removal_prefix(t.rows(), t.journal(), gone, ids, now, gone.len() as int);
    assert(gone.take(gone.len() as int) =~= gone);
}

} // verus!
