//! What each operation on the memory tables does, as its caller sees it: what can be
//! read back afterwards, what stays as it was, and what the journal says of it.

use crate::ids::{AgentId, ContradictionEventId, MemoryEventId, MemoryId, OrgId};
use crate::memory::audit::{
    lemma_find_after_put, lemma_find_filter, lemma_find_map, lemma_find_push, lemma_latest_attrs,
};
use crate::memory::plan::{
    event_attrs, lock_error, mature, mutation_change, mutation_target, pin_change, promoted, stale,
    validation_change, Change, RowEffect,
};
use crate::memory::store::{
    ContradictionEventRow, MemoryEvent, MemoryEventPayload, MemoryMutation, MemoryRow,
    MemoryStoreError, MutationSource, ResolutionOutcome,
};
use crate::memory::tables::{
    after_effect, arranged, canonical_pair, carries_attrs, closed_row, contradiction_key,
    contradiction_order, contradiction_page, disputed, distinct_rows, event_key, event_order,
    events_of, eviction_order, find_row, first_page, has_id, held_events, held_where,
    carries_prior, distinct_events, find_event, journaled_after, latest_attrs_event,
    latest_prior_event, lemma_find_event, lemma_find_row, open_contradictions, prior_attrs,
    reversal,
    removal_events, restored_attrs, row_key, row_order, rows_of, victims, without_rows, MemoryTables,
};
use crate::memory::types::MemoryState;
use crate::sort::{goes_before, listed, stable_order, SortKey};
use crate::time::{lemma_timestamp_range, Timestamp};
use vstd::prelude::*;

verus! {

proof fn lemma_effect_is_local(rows: Seq<MemoryRow>, effect: RowEffect, target: MemoryId, id: MemoryId)
    requires
        distinct_rows(rows),
        id != target,
        match effect {
            RowEffect::Insert(row) => row.id == target,
            RowEffect::InsertIfAbsent(row) => row.id == target,
            RowEffect::Put(row) => row.id == target,
            RowEffect::Remove(gone) => gone == target,
        },
    ensures
        find_row(after_effect(rows, effect), id) == find_row(rows, id),
{
    match effect {
        RowEffect::Insert(row) => lemma_find_push(rows, row, id),
        RowEffect::InsertIfAbsent(row) => lemma_find_push(rows, row, id),
        RowEffect::Put(row) => lemma_find_after_put(rows, row, id),
        RowEffect::Remove(gone) => {
            lemma_find_row(rows, id);
            lemma_find_filter(rows, |r: MemoryRow| r.id != gone, id);
        },
    }
}

/// A mutation carried out on `t` gives `u`.
pub open spec fn mutated(
    t: MemoryTables,
    u: MemoryTables,
    m: MemoryMutation,
    fresh: MemoryId,
    event_id: MemoryEventId,
    org: OrgId,
    now: Timestamp,
) -> bool {
    let planned = mutation_change(
        m,
        find_row(t.rows(), mutation_target(m, fresh)),
        fresh,
        event_id,
        org,
        now,
    );
    &&& planned is Ok
    &&& !t.rejects(planned->Ok_0)
    &&& u.took(t, planned->Ok_0)
}

/// What was written can be read back: the new memory has the content, the kind, the
/// state and the pin that it was written with, belongs to the agent that wrote it, and
/// starts its clocks at the time of the write. A write in a turn remembers the turn.
pub proof fn law_written_memory_reads_back(
    t: MemoryTables,
    u: MemoryTables,
    m: MemoryMutation,
    fresh: MemoryId,
    event_id: MemoryEventId,
    org: OrgId,
    now: Timestamp,
)
    requires
        t.wf(),
        mutated(t, u, m, fresh, event_id, org, now),
        m is Write,
    ensures
        find_row(t.rows(), fresh) is None,
        find_row(u.rows(), fresh) is Some,
        ({
            let r = find_row(u.rows(), fresh)->0;
            &&& r.id == fresh
            &&& r.content == m->Write_content
            &&& r.kind == m->Write_kind
            &&& r.state == m->Write_state
            &&& r.pinned == m->pinned
            &&& r.agent_id == m->Write_agent
            &&& r.org_id == org
            &&& r.created_at == now
            &&& r.last_validated_at == now
            &&& r.last_accessed_at == now
            &&& r.access_count == 0
            &&& m->Write_source matches MutationSource::Turn(turn) ==> r.source_turn_id == Some(
                turn,
            )
            &&& !(m->Write_source is Turn) ==> r.source_turn_id is None
        }),
{
    let c = mutation_change(m, find_row(t.rows(), fresh), fresh, event_id, org, now)->Ok_0;
    lemma_find_push(t.rows(), c.effect->Insert_0, fresh);
}

/// An update replaces the content and the state of the memory and nothing else of it.
pub proof fn law_update_replaces_content_and_state(
    t: MemoryTables,
    u: MemoryTables,
    m: MemoryMutation,
    fresh: MemoryId,
    event_id: MemoryEventId,
    org: OrgId,
    now: Timestamp,
)
    requires
        t.wf(),
        mutated(t, u, m, fresh, event_id, org, now),
        m is Update,
    ensures
        find_row(t.rows(), m->Update_target) is Some,
        find_row(u.rows(), m->Update_target) is Some,
        ({
            let was = find_row(t.rows(), m->Update_target)->0;
            let is = find_row(u.rows(), m->Update_target)->0;
            &&& is.content == m->Update_content
            &&& is.state == m->Update_state
            &&& is.id == was.id && is.agent_id == was.agent_id && is.org_id == was.org_id
            &&& is.kind == was.kind && is.pinned == was.pinned
            &&& is.source_turn_id == was.source_turn_id && is.created_at == was.created_at
            &&& is.last_validated_at == was.last_validated_at
            &&& is.last_accessed_at == was.last_accessed_at
            &&& is.access_count == was.access_count
        }),
{
    let target = m->Update_target;
    let c = mutation_change(m, find_row(t.rows(), target), fresh, event_id, org, now)->Ok_0;
    lemma_find_row(t.rows(), target);
    lemma_find_after_put(t.rows(), c.effect->Put_0, target);
}

/// A memory that was forgotten cannot be read any more.
pub proof fn law_forgotten_memory_is_gone(
    t: MemoryTables,
    u: MemoryTables,
    m: MemoryMutation,
    fresh: MemoryId,
    event_id: MemoryEventId,
    org: OrgId,
    now: Timestamp,
)
    requires
        t.wf(),
        mutated(t, u, m, fresh, event_id, org, now),
        m is Forget,
    ensures
        find_row(t.rows(), m->Forget_target) is Some,
        find_row(u.rows(), m->Forget_target) is None,
{
    let target = m->Forget_target;
    lemma_find_row(t.rows(), target);
    lemma_find_filter(t.rows(), |r: MemoryRow| r.id != target, target);
}

/// A mutation touches one memory: every other is as it was. It is journaled once, with
/// who asked for it, when, and what the memory said before and after.
pub proof fn law_mutation_touches_one_memory(
    t: MemoryTables,
    u: MemoryTables,
    m: MemoryMutation,
    fresh: MemoryId,
    event_id: MemoryEventId,
    org: OrgId,
    now: Timestamp,
    other: MemoryId,
)
    requires
        t.wf(),
        mutated(t, u, m, fresh, event_id, org, now),
        match m {
            MemoryMutation::Write { .. } => other != fresh,
            MemoryMutation::Update { target, .. } => other != target,
            MemoryMutation::Forget { target, .. } => other != target,
        },
    ensures
        find_row(u.rows(), other) == find_row(t.rows(), other),
        u.contradictions() == t.contradictions(),
        u.validations() == t.validations(),
        u.journal().len() == t.journal().len() + 1,
        forall|i: int| 0 <= i < t.journal().len() ==> #[trigger] u.journal()[i] == t.journal()[i],
        ({
            let e = u.journal()[t.journal().len() as int];
            &&& e.id == event_id
            &&& e.created_at == now
            &&& match m {
                MemoryMutation::Write { agent, kind, content, state, pinned, source } => {
                    &&& e.agent_id == agent && e.org_id == org && e.target_memory_id == fresh
                    &&& e.source == source
                    &&& e.payload == (MemoryEventPayload::Write { content, kind, state, pinned })
                },
                MemoryMutation::Update { agent, target, content, state, source } => {
                    let was = find_row(t.rows(), target)->0;
                    &&& e.agent_id == agent && e.org_id == was.org_id && e.target_memory_id
                        == target
                    &&& e.source == source
                    &&& e.payload == (MemoryEventPayload::Update {
                        before: was.content,
                        after: content,
                        kind: was.kind,
                        state,
                        pinned: was.pinned,
                    })
                },
                MemoryMutation::Forget { agent, target, source } => {
                    let was = find_row(t.rows(), target)->0;
                    &&& e.agent_id == agent && e.org_id == was.org_id && e.target_memory_id
                        == target
                    &&& e.source == source
                    &&& e.payload == (MemoryEventPayload::Forget { before: was.content })
                },
            }
        }),
{
    let target = mutation_target(m, fresh);
    let c = mutation_change(m, find_row(t.rows(), target), fresh, event_id, org, now)->Ok_0;
    lemma_find_row(t.rows(), target);
    lemma_effect_is_local(t.rows(), c.effect, target, other);
}

/// Who may touch what: a memory that is not there is not found, one of another agent is
/// refused as such, and a pinned one to all but an operator. Nothing else is refused.
pub proof fn law_refusals_are_told_apart(
    row: Option<MemoryRow>,
    agent: AgentId,
    target: MemoryId,
    source: MutationSource,
)
    ensures
        row is None ==> lock_error(row, agent, target, source) == Some(
            MemoryStoreError::NotFound { id: target },
        ),
        row matches Some(r) ==> {
            &&& r.agent_id != agent ==> lock_error(row, agent, target, source) == Some(
                MemoryStoreError::WrongAgent { id: target, agent },
            )
            &&& r.agent_id == agent && r.pinned && (source is Turn || source is Librarian)
                ==> lock_error(row, agent, target, source) == Some(
                MemoryStoreError::PinnedImmutable { id: target },
            )
            &&& r.agent_id == agent && (!r.pinned || source is Operator) ==> lock_error(
                row,
                agent,
                target,
                source,
            ) is None
        },
{
}

/// An operator pins and unpins: the pin is set, and nothing else of the memory, nor any
/// other memory, changes.
pub proof fn law_pinning_sets_the_pin_alone(
    t: MemoryTables,
    u: MemoryTables,
    agent: AgentId,
    memory: MemoryId,
    pinned: bool,
    event_id: MemoryEventId,
    now: Timestamp,
    id: MemoryId,
)
    requires
        t.wf(),
        ({
            let planned = pin_change(
                find_row(t.rows(), memory),
                event_id,
                agent,
                memory,
                pinned,
                now,
            );
            planned is Ok && u.took(t, planned->Ok_0)
        }),
    ensures
        id != memory ==> find_row(u.rows(), id) == find_row(t.rows(), id),
        find_row(t.rows(), memory) matches Some(was) && was.agent_id == agent && find_row(
            u.rows(),
            memory,
        ) == Some(MemoryRow { pinned, ..was }),
        u.journal().last().source == MutationSource::Operator,
        u.journal().last().target_memory_id == memory,
        u.journal().last().agent_id == agent,
        u.journal().last().created_at == now,
        u.journal().last().payload matches MemoryEventPayload::Update { before, after, pinned: p, .. }
            && before == after && p == pinned,
{
    let row = find_row(t.rows(), memory);
    let c = pin_change(row, event_id, agent, memory, pinned, now)->Ok_0;
    lemma_find_row(t.rows(), memory);
    lemma_find_after_put(t.rows(), c.effect->Put_0, memory);
    if id != memory {
        lemma_effect_is_local(t.rows(), c.effect, memory, id);
    }
}

/// A validation lifts a memory by one step of trust and sets its validation clock; it
/// leaves the rest of it, and every other memory, as they were.
pub proof fn law_validation_lifts_one_memory(
    rows: Seq<MemoryRow>,
    agent: AgentId,
    memory: MemoryId,
    source: MutationSource,
    event_id: MemoryEventId,
    now: Timestamp,
    id: MemoryId,
)
    requires
        distinct_rows(rows),
        validation_change(find_row(rows, memory), event_id, agent, memory, source, now) is Ok,
    ensures
        ({
            let c = validation_change(
                find_row(rows, memory),
                event_id,
                agent,
                memory,
                source,
                now,
            )->Ok_0;
            let after = after_effect(rows, c.effect);
            &&& id != memory ==> find_row(after, id) == find_row(rows, id)
            &&& find_row(rows, memory) matches Some(was) && find_row(after, memory) == Some(
                MemoryRow {
                    state: (match was.state {
                        MemoryState::Tentative => MemoryState::Held,
                        MemoryState::Held => MemoryState::Validated,
                        MemoryState::Validated => MemoryState::Validated,
                        MemoryState::Core => MemoryState::Core,
                    }),
                    last_validated_at: now,
                    ..was
                },
            )
            &&& c.event.id == event_id && c.event.source == source && c.event.created_at == now
            &&& c.event.agent_id == agent && c.event.target_memory_id == memory
        }),
{
    let row = find_row(rows, memory);
    let c = validation_change(row, event_id, agent, memory, source, now)->Ok_0;
    lemma_find_row(rows, memory);
    lemma_find_after_put(rows, c.effect->Put_0, memory);
    if id != memory {
        lemma_effect_is_local(rows, c.effect, memory, id);
    }
}

/// A validation wears off: a validated memory of the agent that is not pinned and was
/// last validated before the cutoff is held again. Its validation clock and all else
/// stay, and so does every other memory.
pub proof fn law_stale_validations_wear_off(
    rows: Seq<MemoryRow>,
    agent: AgentId,
    cutoff: Timestamp,
    i: int,
)
    requires
        0 <= i < rows.len(),
    ensures
        ({
            let after = held_where(rows, |r: MemoryRow| stale(r, agent, cutoff));
            let r = rows[i];
            &&& after.len() == rows.len()
            &&& r.agent_id == agent && r.state == MemoryState::Validated && !r.pinned
                && r.last_validated_at@ < cutoff@ ==> after[i] == (MemoryRow {
                state: MemoryState::Held,
                ..r
            })
            &&& r.agent_id != agent || r.state != MemoryState::Validated || r.pinned
                || r.last_validated_at@ >= cutoff@ ==> after[i] == r
        }),
{
}

/// A tentative memory ripens: one of the agent that is not pinned, was written before the
/// cutoff and is named by no open contradiction is held. All else stays.
pub proof fn law_undisputed_memories_ripen(
    rows: Seq<MemoryRow>,
    cs: Seq<ContradictionEventRow>,
    agent: AgentId,
    cutoff: Timestamp,
    i: int,
)
    requires
        0 <= i < rows.len(),
    ensures
        ({
            let after = held_where(
                rows,
                |r: MemoryRow| mature(r, agent, cutoff) && !disputed(cs, r.id),
            );
            let r = rows[i];
            let named = exists|k: int|
                0 <= k < cs.len() && (#[trigger] cs[k]).resolved_at is None && (cs[k].memory_a
                    == r.id || cs[k].memory_b == r.id);
            &&& after.len() == rows.len()
            &&& r.agent_id == agent && r.state == MemoryState::Tentative && !r.pinned
                && r.created_at@ < cutoff@ && !named ==> after[i] == (MemoryRow {
                state: MemoryState::Held,
                ..r
            })
            &&& r.agent_id != agent || r.state != MemoryState::Tentative || r.pinned
                || r.created_at@ >= cutoff@ || named ==> after[i] == r
        }),
{
}

/// Each memory that is brought to the state held is journaled, by the librarian, with its
/// content as it was and the new state.
pub proof fn law_holding_is_journaled(
    rows: Seq<MemoryRow>,
    p: spec_fn(MemoryRow) -> bool,
    ids: Seq<MemoryEventId>,
    now: Timestamp,
)
    ensures
        held_events(rows, p, ids, now).len() == rows.filter(p).len(),
        forall|k: int|
            0 <= k < held_events(rows, p, ids, now).len() ==> {
                let e = #[trigger] held_events(rows, p, ids, now)[k];
                let r = rows.filter(p)[k];
                &&& e.id == ids[k] && e.created_at == now
                &&& e.source == MutationSource::Librarian
                &&& e.target_memory_id == r.id && e.agent_id == r.agent_id && e.org_id == r.org_id
                &&& e.payload == (MemoryEventPayload::Update {
                    before: r.content,
                    after: r.content,
                    kind: r.kind,
                    state: MemoryState::Held,
                    pinned: r.pinned,
                })
            },
{
}

/// What eviction takes is gone, what it does not take is as it was, and each removal is
/// journaled by the librarian with what the memory said.
pub proof fn law_evicted_memories_are_gone(
    rows: Seq<MemoryRow>,
    gone: Seq<MemoryRow>,
    ids: Seq<MemoryEventId>,
    now: Timestamp,
    id: MemoryId,
)
    requires
        distinct_rows(rows),
    ensures
        gone.map_values(|r: MemoryRow| r.id).contains(id) ==> find_row(
            without_rows(rows, gone),
            id,
        ) is None,
        !gone.map_values(|r: MemoryRow| r.id).contains(id) ==> find_row(
            without_rows(rows, gone),
            id,
        ) == find_row(rows, id),
        removal_events(gone, ids, now).len() == gone.len(),
        forall|k: int|
            0 <= k < gone.len() ==> {
                let e = #[trigger] removal_events(gone, ids, now)[k];
                &&& e.id == ids[k] && e.created_at == now
                &&& e.source == MutationSource::Librarian
                &&& e.target_memory_id == gone[k].id && e.agent_id == gone[k].agent_id
                &&& e.org_id == gone[k].org_id
                &&& e.payload == (MemoryEventPayload::Forget { before: gone[k].content })
            },
{
    let names = gone.map_values(|r: MemoryRow| r.id);
    lemma_find_row(rows, id);
    lemma_find_filter(rows, |r: MemoryRow| !has_id(gone, r.id), id);
    if names.contains(id) {
        let k = choose|k: int| 0 <= k < names.len() && names[k] == id;
        assert(gone[k].id == id);
        assert(has_id(gone, id));
    } else if has_id(gone, id) {
        let k = choose|k: int| 0 <= k < gone.len() && (#[trigger] gone[k]).id == id;
        assert(names[k] == id);
    }
}

proof fn lemma_arranged_contains<T>(items: Seq<T>, keys: Seq<SortKey>, order: Seq<usize>, x: T)
    requires
        keys.len() == items.len(),
        stable_order(keys, order),
    ensures
        arranged(items, order).contains(x) <==> items.contains(x),
{
    let all = arranged(items, order);
    if all.contains(x) {
        let k = choose|k: int| 0 <= k < all.len() && all[k] == x;
        assert(order[k] < keys.len());
        assert(items[order[k] as int] == x);
    }
    if items.contains(x) {
        let c = choose|c: int| 0 <= c < items.len() && items[c] == x;
        assert(listed(order, c));
        let w = choose|w: int| 0 <= w < order.len() && #[trigger] order[w] == c;
        assert(all[w] == x);
    }
}

/// A listing shows the memories of the agent, all of them and no others, the oldest
/// first and by id among those of one instant.
pub proof fn law_listing_is_complete_and_chronological(
    rows: Seq<MemoryRow>,
    agent: AgentId,
    order: Seq<usize>,
    r: MemoryRow,
)
    requires
        row_order(rows, agent, order),
    ensures
        ({
            let all = arranged(rows_of(rows, agent), order);
            &&& all.contains(r) <==> rows.contains(r) && r.agent_id == agent
            &&& all.len() == rows.filter(|r: MemoryRow| r.agent_id == agent).len()
            &&& forall|i: int, j: int| #![trigger all[i], all[j]]
                0 <= i < j < all.len() ==> all[i].created_at@ < all[j].created_at@ || (
                all[i].created_at@ == all[j].created_at@ && all[i].id.0 <= all[j].id.0)
        }),
{
    broadcast use lemma_timestamp_range;

    let p = |r: MemoryRow| r.agent_id == agent;
    let mine = rows_of(rows, agent);
    let keys = mine.map_values(|r: MemoryRow| row_key(r));
    let all = arranged(mine, order);
    lemma_arranged_contains(mine, keys, order, r);
    if mine.contains(r) {
        rows.lemma_filter_contains_rev(p, r);
        let k = choose|k: int| 0 <= k < mine.len() && mine[k] == r;
        rows.lemma_filter_pred(p, k);
    }
    if rows.contains(r) && r.agent_id == agent {
        let k = choose|k: int| 0 <= k < rows.len() && rows[k] == r;
        rows.lemma_filter_contains(p, k);
    }
    assert forall|i: int, j: int| #![trigger all[i], all[j]] 0 <= i < j < all.len() implies all[i].created_at@
        < all[j].created_at@ || (all[i].created_at@ == all[j].created_at@ && all[i].id.0
        <= all[j].id.0) by {
        assert(goes_before(keys, order[i] as int, order[j] as int));
        assert(order[i] < keys.len() && order[j] < keys.len());
    }
}

/// The first page of the journal shows the oldest events of the agent in their order: all
/// of them where they are no more than a page holds, and otherwise none that is younger
/// than one it leaves out.
pub proof fn law_first_page_shows_the_oldest(
    events: Seq<MemoryEvent>,
    agent: AgentId,
    order: Seq<usize>,
    e: MemoryEvent,
)
    requires
        event_order(events, agent, order),
    ensures
        ({
            let page = first_page(arranged(events_of(events, agent), order));
            let total = events.filter(|e: MemoryEvent| e.agent_id == agent).len();
            &&& page.contains(e) ==> events.contains(e) && e.agent_id == agent
            &&& total <= 1_024 ==> page.len() == total
            &&& total > 1_024 ==> page.len() == 1_024
            &&& total <= 1_024 && events.contains(e) && e.agent_id == agent ==> page.contains(e)
            &&& events.contains(e) && e.agent_id == agent && !page.contains(e) ==> forall|i: int|
                0 <= i < page.len() ==> (#[trigger] page[i]).created_at@ <= e.created_at@
            &&& forall|i: int, j: int| #![trigger page[i], page[j]]
                0 <= i < j < page.len() ==> page[i].created_at@ < page[j].created_at@ || (
                page[i].created_at@ == page[j].created_at@ && page[i].id.0 <= page[j].id.0)
        }),
{
    broadcast use lemma_timestamp_range;

    let p = |e: MemoryEvent| e.agent_id == agent;
    let mine = events_of(events, agent);
    let keys = mine.map_values(|e: MemoryEvent| event_key(e));
    let all = arranged(mine, order);
    let page = first_page(all);
    lemma_arranged_contains(mine, keys, order, e);
    assert forall|i: int, j: int| #![trigger all[i], all[j]] 0 <= i < j < all.len() implies all[i].created_at@
        < all[j].created_at@ || (all[i].created_at@ == all[j].created_at@ && all[i].id.0
        <= all[j].id.0) by {
        assert(goes_before(keys, order[i] as int, order[j] as int));
        assert(order[i] < keys.len() && order[j] < keys.len());
    }
    assert forall|i: int| 0 <= i < page.len() implies #[trigger] page[i] == all[i] by {}
    if page.contains(e) {
        let k = choose|k: int| 0 <= k < page.len() && page[k] == e;
        assert(all[k] == e);
        assert(mine.contains(e));
        events.lemma_filter_contains_rev(p, e);
        let c = choose|c: int| 0 <= c < mine.len() && mine[c] == e;
        events.lemma_filter_pred(p, c);
    }
    if events.contains(e) && e.agent_id == agent {
        let k = choose|k: int| 0 <= k < events.len() && events[k] == e;
        events.lemma_filter_contains(p, k);
        let w = choose|w: int| 0 <= w < all.len() && all[w] == e;
        if w < page.len() {
            assert(page[w] == e);
        } else {
            assert forall|i: int| 0 <= i < page.len() implies (#[trigger] page[i]).created_at@
                <= e.created_at@ by {
                assert(all[i] == page[i] && all[w] == e);
            }
        }
    }
}

/// A sweep is shown the open contradictions of the agent, the oldest first: all of them
/// where they are no more than it looks at, and otherwise none that is younger than one
/// it leaves out. None that is resolved, and none of another agent.
pub proof fn law_open_contradictions_are_shown(
    cs: Seq<ContradictionEventRow>,
    agent: AgentId,
    order: Seq<usize>,
    c: ContradictionEventRow,
)
    requires
        contradiction_order(cs, agent, order),
    ensures
        ({
            let page = contradiction_page(arranged(open_contradictions(cs, agent), order));
            let is_open = cs.contains(c) && c.agent_id == agent && c.resolved_at is None;
            let total = open_contradictions(cs, agent).len();
            &&& page.contains(c) ==> is_open
            &&& total <= 256 ==> page.len() == total && (is_open ==> page.contains(c))
            &&& total > 256 ==> page.len() == 256
            &&& is_open && !page.contains(c) ==> forall|i: int|
                0 <= i < page.len() ==> (#[trigger] page[i]).created_at@ <= c.created_at@
            &&& forall|i: int, j: int| #![trigger page[i], page[j]]
                0 <= i < j < page.len() ==> page[i].created_at@ <= page[j].created_at@
        }),
{
    broadcast use lemma_timestamp_range;

    let p = |c: ContradictionEventRow| c.agent_id == agent && c.resolved_at is None;
    let open = open_contradictions(cs, agent);
    let keys = open.map_values(|c: ContradictionEventRow| contradiction_key(c));
    let all = arranged(open, order);
    let page = contradiction_page(all);
    lemma_arranged_contains(open, keys, order, c);
    assert forall|i: int, j: int| #![trigger all[i], all[j]] 0 <= i < j < all.len() implies all[i].created_at@
        <= all[j].created_at@ by {
        assert(goes_before(keys, order[i] as int, order[j] as int));
        assert(order[i] < keys.len() && order[j] < keys.len());
    }
    assert forall|i: int| 0 <= i < page.len() implies #[trigger] page[i] == all[i] by {}
    if page.contains(c) {
        let k = choose|k: int| 0 <= k < page.len() && page[k] == c;
        assert(all[k] == c);
        cs.lemma_filter_contains_rev(p, c);
        let n = choose|n: int| 0 <= n < open.len() && open[n] == c;
        cs.lemma_filter_pred(p, n);
    }
    if cs.contains(c) && c.agent_id == agent && c.resolved_at is None {
        let k = choose|k: int| 0 <= k < cs.len() && cs[k] == c;
        cs.lemma_filter_contains(p, k);
        let w = choose|w: int| 0 <= w < all.len() && all[w] == c;
        if w < page.len() {
            assert(page[w] == c);
        } else {
            assert forall|i: int| 0 <= i < page.len() implies (#[trigger] page[i]).created_at@
                <= c.created_at@ by {
                assert(all[i] == page[i] && all[w] == c);
            }
        }
    }
}

/// A pair is kept under its two ids, the smaller one first.
pub proof fn law_pairs_keep_their_ids(a: MemoryId, b: MemoryId)
    ensures
        canonical_pair(a, b).0.0 <= canonical_pair(a, b).1.0,
        canonical_pair(a, b) == (a, b) || canonical_pair(a, b) == (b, a),
{
}

/// A resolution closes the contradiction at its time and says how: by the journal event
/// that settled it, or by why nothing was done. Nothing else of the contradiction
/// changes.
pub proof fn law_resolution_says_how(
    c: ContradictionEventRow,
    outcome: ResolutionOutcome,
    now: Timestamp,
)
    ensures
        ({
            let after = closed_row(c, outcome, now);
            &&& after.resolved_at == Some(now)
            &&& outcome matches ResolutionOutcome::Mutation(id) ==> after.resolution_event_id
                == Some(id) && after.resolution_reason is None
            &&& outcome matches ResolutionOutcome::NoAction { reason } ==> after.resolution_event_id
                is None && after.resolution_reason == Some(reason.raw())
            &&& after.id == c.id && after.agent_id == c.agent_id && after.org_id == c.org_id
            &&& after.memory_a == c.memory_a && after.memory_b == c.memory_b
            &&& after.reason == c.reason && after.created_at == c.created_at
        }),
{
}

proof fn lemma_latest_is_last(
    events: Seq<MemoryEvent>,
    agent: AgentId,
    target: MemoryId,
    e: MemoryEvent,
)
    requires
        events.contains(e),
        carries_attrs(e, agent, target),
    ensures
        latest_attrs_event(events, agent, target) is Some,
        !journaled_after(e, latest_attrs_event(events, agent, target)->0),
    decreases events.len(),
{
    let k = choose|k: int| 0 <= k < events.len() && events[k] == e;
    let rest = events.drop_last();
    lemma_latest_attrs(rest, agent, target);
    if k < events.len() - 1 {
        assert(rest[k] == e);
        lemma_latest_is_last(rest, agent, target, e);
    }
}

/// What a memory is given back are the attributes that the latest event on it left it
/// with, by time and by id at one instant: kind, state and pin. Events on other memories
/// or of other agents do not count, nor do removals.
pub proof fn law_latest_attributes_are_restored(
    events: Seq<MemoryEvent>,
    agent: AgentId,
    target: MemoryId,
    e: MemoryEvent,
)
    requires
        events.contains(e),
        e.agent_id == agent,
        e.target_memory_id == target,
        !(e.payload is Forget),
    ensures
        restored_attrs(events, agent, target) is Some,
        ({
            let a = restored_attrs(events, agent, target)->0;
            exists|k: int|
                {
                    let last = #[trigger] events[k];
                    &&& 0 <= k < events.len()
                    &&& last.agent_id == agent && last.target_memory_id == target
                    &&& last.created_at@ > e.created_at@ || (last.created_at@ == e.created_at@
                        && last.id.0 >= e.id.0)
                    &&& match last.payload {
                        MemoryEventPayload::Write { kind, state, pinned, .. } => a.kind == kind
                            && a.state == state && a.pinned == pinned,
                        MemoryEventPayload::Update { kind, state, pinned, .. } => a.kind == kind
                            && a.state == state && a.pinned == pinned,
                        MemoryEventPayload::Forget { .. } => false,
                    }
                }
        }),
{
    lemma_latest_is_last(events, agent, target, e);
    lemma_latest_attrs(events, agent, target);
    let last = latest_attrs_event(events, agent, target)->0;
    let k = choose|k: int| 0 <= k < events.len() && #[trigger] events[k] == last;
    assert(events[k] == last);
}

proof fn lemma_prior_is_last(events: Seq<MemoryEvent>, evt: MemoryEvent, e: MemoryEvent)
    requires
        events.contains(e),
        carries_prior(e, evt),
    ensures
        latest_prior_event(events, evt) is Some,
        !journaled_after(e, latest_prior_event(events, evt)->0),
        events.contains(latest_prior_event(events, evt)->0),
        carries_prior(latest_prior_event(events, evt)->0, evt),
    decreases events.len(),
{
    let k = choose|k: int| 0 <= k < events.len() && events[k] == e;
    let rest = events.drop_last();
    assert(events[events.len() - 1] == events.last());
    if k < events.len() - 1 {
        assert(rest[k] == e);
        lemma_prior_is_last(rest, evt, e);
        let p = latest_prior_event(rest, evt)->0;
        let n = choose|n: int| 0 <= n < rest.len() && rest[n] == p;
        assert(events[n] == p);
    } else if exists|n: int| 0 <= n < rest.len() && carries_prior(#[trigger] rest[n], evt) {
        let n = choose|n: int| 0 <= n < rest.len() && carries_prior(#[trigger] rest[n], evt);
        lemma_prior_is_last(rest, evt, rest[n]);
        let p = latest_prior_event(rest, evt)->0;
        let m = choose|m: int| 0 <= m < rest.len() && rest[m] == p;
        assert(events[m] == p);
    } else {
        lemma_no_prior(rest, evt);
    }
}

proof fn lemma_no_prior(events: Seq<MemoryEvent>, evt: MemoryEvent)
    requires
        forall|n: int| 0 <= n < events.len() ==> !carries_prior(#[trigger] events[n], evt),
    ensures
        latest_prior_event(events, evt) is None,
    decreases events.len(),
{
    if events.len() > 0 {
        let rest = events.drop_last();
        assert(events[events.len() - 1] == events.last());
        assert forall|n: int| 0 <= n < rest.len() implies !carries_prior(#[trigger] rest[n], evt) by {
            assert(rest[n] == events[n]);
        }
        lemma_no_prior(rest, evt);
    }
}

/// What an update took a memory from are the attributes that the latest event before it left
/// the memory with: kind, state and pin. What was journaled after it does not count.
pub proof fn law_attributes_before_an_event_are_the_latest_before_it(
    events: Seq<MemoryEvent>,
    evt: MemoryEvent,
    e: MemoryEvent,
)
    requires
        events.contains(e),
        e.agent_id == evt.agent_id,
        e.target_memory_id == evt.target_memory_id,
        !(e.payload is Forget),
        e.created_at@ < evt.created_at@ || (e.created_at@ == evt.created_at@ && e.id.0 < evt.id.0),
    ensures
        prior_attrs(events, evt) is Some,
        ({
            let a = prior_attrs(events, evt)->0;
            exists|k: int|
                {
                    let last = #[trigger] events[k];
                    &&& 0 <= k < events.len()
                    &&& last.agent_id == evt.agent_id
                    &&& last.target_memory_id == evt.target_memory_id
                    &&& last.created_at@ > e.created_at@ || (last.created_at@ == e.created_at@
                        && last.id.0 >= e.id.0)
                    &&& last.created_at@ < evt.created_at@ || (last.created_at@ == evt.created_at@
                        && last.id.0 < evt.id.0)
                    &&& match last.payload {
                        MemoryEventPayload::Write { kind, state, pinned, .. } => a.kind == kind
                            && a.state == state && a.pinned == pinned,
                        MemoryEventPayload::Update { kind, state, pinned, .. } => a.kind == kind
                            && a.state == state && a.pinned == pinned,
                        MemoryEventPayload::Forget { .. } => false,
                    }
                }
        }),
{
    lemma_prior_is_last(events, evt, e);
    let last = latest_prior_event(events, evt)->0;
    let k = choose|k: int| 0 <= k < events.len() && events[k] == last;
    assert(events[k] == last);
}

/// An agent undoes its own events only: one that the journal does not have for it is not found,
/// and nothing else is done in its place.
pub proof fn law_only_own_events_are_undone(
    t: MemoryTables,
    agent: AgentId,
    event: MemoryEventId,
    event_id: MemoryEventId,
    now: Timestamp,
)
    requires
        distinct_events(t.journal()),
    ensures
        (forall|i: int|
            0 <= i < t.journal().len() && (#[trigger] t.journal()[i]).id == event
                ==> t.journal()[i].agent_id != agent) ==> reversal(
            t,
            agent,
            event,
            event_id,
            now,
        ) == Err::<Change, MemoryStoreError>(MemoryStoreError::EventNotFound { id: event }),
        reversal(t, agent, event, event_id, now) matches Ok(c) ==> {
            &&& c.event.agent_id == agent
            &&& c.event.source == MutationSource::Operator
            &&& c.event.id == event_id && c.event.created_at == now
            &&& exists|i: int|
                0 <= i < t.journal().len() && (#[trigger] t.journal()[i]).id == event
                    && t.journal()[i].target_memory_id == c.event.target_memory_id
        },
{
    lemma_find_event(t.journal(), event);
    match find_event(t.journal(), event) {
        Some(e) => {
            let i = choose|i: int| 0 <= i < t.journal().len() && #[trigger] t.journal()[i] == e;
            assert(t.journal()[i].id == event);
            lemma_find_row(t.rows(), e.target_memory_id);
        },
        None => {},
    }
}

} // verus!
