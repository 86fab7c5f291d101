//! Laws of the memory store: what a rebuild gives back, what a reversal undoes,
//! and what no operation touches.

use crate::ids::{AgentId, ContradictionEventId, MemoryEventId, MemoryId, OrgId};
use crate::memory::audit::{
    attrs_of_row, audited, chronological, comes_last, events_on, fate, fate_step, lemma_filter_push,
    lemma_find_after_put, lemma_find_filter, lemma_find_map, lemma_find_push, lemma_latest_push,
    lemma_prior_is_latest, lemma_prior_stays, lemma_row_event, projects, settled, settled_row,
};
use crate::memory::plan::{
    minted_row, mutation_change, mutation_target, promoted, revision, RowEffect,
};
use crate::memory::store::{
    ContradictionEventRow, MemoryEvent, MemoryEventPayload, MemoryMutation, MemoryRow,
    MutationSource, ResolutionOutcome,
};
use crate::memory::tables::{
    arranged, candidates, canonical_pair, carries_prior, closed_row, distinct_rows, event_key,
    event_of, event_order, events_of, evictable, eviction_key, eviction_order, find_contradiction,
    find_row, has_id, held_where, lemma_filter_distinct, lemma_find_at, lemma_find_event,
    lemma_find_row, open_between, open_contradiction, overflow, rebuilt, replay, replay_step,
    restored_attrs, reversal, row_count, victims, without_row, without_rows, MemoryTables,
};
use crate::memory::types::MemoryState;
use crate::seqs::{lemma_filter_all, lemma_filter_filter, lemma_filter_none};
use crate::sort::{goes_before, key_lt, listed};
use crate::time::{lemma_timestamp_range, Timestamp};
use vstd::prelude::*;

verus! {

/// What holds of every two hits holds of every two filtered items.
proof fn lemma_filter_pairwise<T>(
    s: Seq<T>,
    p: spec_fn(T) -> bool,
    rel: spec_fn(T, T) -> bool,
)
    requires
        forall|i: int, j: int|
            0 <= i < j < s.len() && p(#[trigger] s[i]) && p(#[trigger] s[j]) ==> rel(s[i], s[j]),
    ensures
        forall|i: int, j: int|
            0 <= i < j < s.filter(p).len() ==> rel(
                #[trigger] s.filter(p)[i],
                #[trigger] s.filter(p)[j],
            ),
    decreases s.len(),
{
    reveal(Seq::filter);
    if s.len() > 0 {
        let rest = s.drop_last();
        assert forall|i: int, j: int|
            0 <= i < j < rest.len() && p(#[trigger] rest[i]) && p(#[trigger] rest[j]) implies rel(
            rest[i],
            rest[j],
        ) by {
            assert(s[i] == rest[i] && s[j] == rest[j]);
        }
        lemma_filter_pairwise(rest, p, rel);
        if p(s.last()) {
            assert forall|i: int, j: int| 0 <= i < j < s.filter(p).len() implies rel(
                #[trigger] s.filter(p)[i],
                #[trigger] s.filter(p)[j],
            ) by {
                if j == s.filter(p).len() - 1 {
                    rest.lemma_filter_pred(p, i);
                    let x = rest.filter(p)[i];
                    assert(rest.filter(p).contains(x));
                    rest.lemma_filter_contains_rev(p, x);
                    let k = choose|k: int| 0 <= k < rest.len() && rest[k] == x;
                    assert(s[k] == x && s[s.len() - 1] == s.last());
                }
            }
        }
    }
}

/// Events in strictly increasing chronological order.
pub open spec fn increasing(events: Seq<MemoryEvent>) -> bool {
    forall|i: int, j: int|
        0 <= i < j < events.len() ==> key_lt(
            event_key(#[trigger] events[i]),
            event_key(#[trigger] events[j]),
        )
}

/// Two increasing sequences of the same events are one.
proof fn lemma_increasing_unique(a: Seq<MemoryEvent>, b: Seq<MemoryEvent>)
    requires
        increasing(a),
        increasing(b),
        forall|x: MemoryEvent| a.contains(x) == b.contains(x),
    ensures
        a == b,
    decreases a.len(),
{
    if a.len() == 0 {
        if b.len() > 0 {
            assert(b.contains(b[0]));
            assert(a.contains(b[0]));
        }
        assert(a =~= b);
    } else {
        let x = a.last();
        assert(a[a.len() - 1] == x);
        assert(a.contains(x));
        assert(b.contains(x));
        let k = choose|k: int| 0 <= k < b.len() && b[k] == x;
        let y = b.last();
        assert(b[b.len() - 1] == y);
        assert(b.contains(y));
        assert(a.contains(y));
        let l = choose|l: int| 0 <= l < a.len() && a[l] == y;
        if k < b.len() - 1 {
            assert(key_lt(event_key(b[k]), event_key(b[b.len() - 1])));
            if l < a.len() - 1 {
                assert(key_lt(event_key(a[l]), event_key(a[a.len() - 1])));
            }
            assert(false);
        }
        assert(x == y);
        let ra = a.drop_last();
        let rb = b.drop_last();
        assert forall|z: MemoryEvent| ra.contains(z) == rb.contains(z) by {
            if ra.contains(z) {
                let i = choose|i: int| 0 <= i < ra.len() && ra[i] == z;
                assert(a[i] == z);
                assert(a.contains(z));
                assert(b.contains(z));
                let j = choose|j: int| 0 <= j < b.len() && b[j] == z;
                if j == b.len() - 1 {
                    assert(key_lt(event_key(a[i]), event_key(a[a.len() - 1])));
                }
                assert(rb[j] == z);
            }
            if rb.contains(z) {
                let i = choose|i: int| 0 <= i < rb.len() && rb[i] == z;
                assert(b[i] == z);
                assert(b.contains(z));
                assert(a.contains(z));
                let j = choose|j: int| 0 <= j < a.len() && a[j] == z;
                if j == a.len() - 1 {
                    assert(key_lt(event_key(b[i]), event_key(b[b.len() - 1])));
                }
                assert(ra[j] == z);
            }
        }
        assert(increasing(ra)) by {
            assert forall|i: int, j: int| 0 <= i < j < ra.len() implies key_lt(
                event_key(#[trigger] ra[i]),
                event_key(#[trigger] ra[j]),
            ) by {
                assert(key_lt(event_key(a[i]), event_key(a[j])));
            }
        }
        assert(increasing(rb)) by {
            assert forall|i: int, j: int| 0 <= i < j < rb.len() implies key_lt(
                event_key(#[trigger] rb[i]),
                event_key(#[trigger] rb[j]),
            ) by {
                assert(key_lt(event_key(b[i]), event_key(b[j])));
            }
        }
        lemma_increasing_unique(ra, rb);
        assert(a =~= ra.push(x));
        assert(b =~= rb.push(y));
    }
}

/// Sorting the events of an agent keeps those about one memory as they were
/// journaled.
proof fn lemma_sorted_events_on(
    events: Seq<MemoryEvent>,
    agent: AgentId,
    order: Seq<usize>,
    id: MemoryId,
)
    requires
        chronological(events),
        event_order(events, agent, order),
    ensures
        events_on(arranged(events_of(events, agent), order), id) == events_on(
            events_of(events, agent),
            id,
        ),
{
    let mine = events_of(events, agent);
    let keys = mine.map_values(|e: MemoryEvent| event_key(e));
    let sorted = arranged(mine, order);
    let is_agent = |e: MemoryEvent| e.agent_id == agent;
    let on = |e: MemoryEvent| e.target_memory_id == id;
    let lt = |x: MemoryEvent, y: MemoryEvent| key_lt(event_key(x), event_key(y));
    let same_lt = |x: MemoryEvent, y: MemoryEvent|
        x.target_memory_id == y.target_memory_id ==> key_lt(event_key(x), event_key(y));
    lemma_filter_pairwise(events, is_agent, same_lt);
    assert forall|i: int, j: int|
        0 <= i < j < mine.len() && on(#[trigger] mine[i]) && on(#[trigger] mine[j]) implies lt(
        mine[i],
        mine[j],
    ) by {
        assert(same_lt(mine[i], mine[j]));
    }
    lemma_filter_pairwise(mine, on, lt);
    let b = events_on(mine, id);
    assert(increasing(b)) by {
        assert forall|i: int, j: int| 0 <= i < j < b.len() implies key_lt(
            event_key(#[trigger] b[i]),
            event_key(#[trigger] b[j]),
        ) by {
            assert(lt(mine.filter(on)[i], mine.filter(on)[j]));
        }
    }
    assert forall|i: int, j: int|
        0 <= i < j < sorted.len() && on(#[trigger] sorted[i]) && on(
            #[trigger] sorted[j],
        ) implies lt(sorted[i], sorted[j]) by {
        let x = order[i] as int;
        let y = order[j] as int;
        assert(goes_before(keys, order[i] as int, order[j] as int));
        assert(keys[x] == event_key(mine[x]) && keys[y] == event_key(mine[y]));
        if !key_lt(keys[x], keys[y]) {
            assert(x < y);
            assert(same_lt(mine[x], mine[y]));
        }
    }
    lemma_filter_pairwise(sorted, on, lt);
    let a = events_on(sorted, id);
    assert(increasing(a)) by {
        assert forall|i: int, j: int| 0 <= i < j < a.len() implies key_lt(
            event_key(#[trigger] a[i]),
            event_key(#[trigger] a[j]),
        ) by {
            assert(lt(sorted.filter(on)[i], sorted.filter(on)[j]));
        }
    }
    assert forall|x: MemoryEvent| a.contains(x) == b.contains(x) by {
        if a.contains(x) {
            let k = choose|k: int| 0 <= k < a.len() && a[k] == x;
            sorted.lemma_filter_pred(on, k);
            sorted.lemma_filter_contains_rev(on, x);
            let i = choose|i: int| 0 <= i < sorted.len() && sorted[i] == x;
            assert(order[i] < mine.len());
            mine.lemma_filter_contains(on, order[i] as int);
        }
        if b.contains(x) {
            let k = choose|k: int| 0 <= k < b.len() && b[k] == x;
            mine.lemma_filter_pred(on, k);
            mine.lemma_filter_contains_rev(on, x);
            let i = choose|i: int| 0 <= i < mine.len() && mine[i] == x;
            assert(listed(order, i));
            let w = choose|w: int| 0 <= w < order.len() && #[trigger] order[w] == i;
            assert(sorted[w] == x);
            sorted.lemma_filter_contains(on, w);
        }
    }
    lemma_increasing_unique(a, b);
}

/// Replaying events that no memory gets stuck on gives each memory its fate.
proof fn lemma_replay_is_fate(rows: Seq<MemoryRow>, events: Seq<MemoryEvent>)
    requires
        distinct_rows(rows),
        forall|id: MemoryId| fate(find_row(rows, id), #[trigger] events_on(events, id)) is Some,
    ensures
        replay(rows, events) is Some,
        distinct_rows(replay(rows, events)->0),
        forall|id: MemoryId|
            Some(#[trigger] find_row(replay(rows, events)->0, id)) == fate(
                find_row(rows, id),
                events_on(events, id),
            ),
    decreases events.len(),
{
    if events.len() == 0 {
        assert forall|id: MemoryId|
            Some(#[trigger] find_row(replay(rows, events)->0, id)) == fate(
                find_row(rows, id),
                events_on(events, id),
            ) by {
            reveal(Seq::filter);
        }
    } else {
        let rest = events.drop_last();
        let e = events.last();
        let t = e.target_memory_id;
        assert(rest.push(e) =~= events);
        assert forall|id: MemoryId| fate(find_row(rows, id), #[trigger] events_on(rest, id)) is Some by {
            lemma_filter_push(rest, e, |x: MemoryEvent| x.target_memory_id == id);
            assert(fate(find_row(rows, id), events_on(events, id)) is Some);
            if t == id {
                assert(events_on(rest, id).push(e).drop_last() =~= events_on(rest, id));
            }
        }
        lemma_replay_is_fate(rows, rest);
        let before = replay(rows, rest)->0;
        assert(fate(find_row(rows, t), events_on(events, t)) is Some);
        lemma_filter_push(rest, e, |x: MemoryEvent| x.target_memory_id == t);
        assert(events_on(rest, t).push(e).drop_last() =~= events_on(rest, t));
        assert(Some(find_row(before, t)) == fate(find_row(rows, t), events_on(rest, t)));
        assert(fate_step(find_row(before, t), e) is Some);
        assert(replay_step(before, e) is Some);
        let after = replay_step(before, e)->0;
        lemma_find_row(before, t);
        match e.payload {
            MemoryEventPayload::Write { content, kind, state, pinned } => {},
            MemoryEventPayload::Update { after, state, pinned, .. } => {
                let f = |r: MemoryRow|
                    if r.id == t {
                        MemoryRow { content: after, state, pinned, ..r }
                    } else {
                        r
                    };
                assert forall|i: int, j: int| 0 <= i < j < before.len() implies #[trigger] before.map_values(
                f)[i].id != #[trigger] before.map_values(f)[j].id by {
                    assert(before[i].id != before[j].id);
                }
            },
            MemoryEventPayload::Forget { .. } => {
                lemma_filter_distinct(before, |r: MemoryRow| r.id != t);
            },
        }
        assert(distinct_rows(after));
        assert forall|id: MemoryId|
            Some(#[trigger] find_row(after, id)) == fate(
                find_row(rows, id),
                events_on(events, id),
            ) by {
            lemma_filter_push(rest, e, |x: MemoryEvent| x.target_memory_id == id);
            assert(Some(find_row(before, id)) == fate(find_row(rows, id), events_on(rest, id)));
            if t == id {
                assert(events_on(rest, id).push(e).drop_last() =~= events_on(rest, id));
            }
            lemma_find_row(before, id);
            match e.payload {
                MemoryEventPayload::Write { content, kind, state, pinned } => {
                    let row = minted_row(
                        t,
                        e.agent_id,
                        e.org_id,
                        content,
                        kind,
                        state,
                        pinned,
                        e.source,
                        e.created_at,
                    );
                    lemma_find_push(before, row, id);
                },
                MemoryEventPayload::Update { after: content, state, pinned, .. } => {
                    let f = |r: MemoryRow|
                        if r.id == t {
                            MemoryRow { content, state, pinned, ..r }
                        } else {
                            r
                        };
                    lemma_find_map(before, f, id);
                    assert(after =~= before.map_values(f));
                },
                MemoryEventPayload::Forget { .. } => {
                    lemma_find_filter(before, |r: MemoryRow| r.id != t, id);
                },
            }
        }
    }
}

/// The memory table is a deterministic projection of the journal: a rebuild of
/// an agent succeeds and gives back every memory of that agent, bookkeeping
/// aside, and leaves the memories of other agents as they are.
pub proof fn law_rebuild_gives_the_view_back(t: MemoryTables, agent: AgentId, order: Seq<usize>)
    requires
        audited(t),
        event_order(t.journal(), agent, order),
    ensures
        rebuilt(t, agent, order) is Some,
        forall|id: MemoryId|
            #![trigger find_row(rebuilt(t, agent, order)->0, id)]
            settled(find_row(rebuilt(t, agent, order)->0, id)) == settled(find_row(t.rows(), id))
                && (find_row(t.rows(), id) matches Some(r) ==> (r.agent_id != agent ==> find_row(
                rebuilt(t, agent, order)->0,
                id,
            ) == Some(r))),
{
    let rows = t.rows();
    let events = t.journal();
    let other = |r: MemoryRow| r.agent_id != agent;
    let others = rows.filter(other);
    let mine = events_of(events, agent);
    let sorted = arranged(mine, order);
    let is_agent = |e: MemoryEvent| e.agent_id == agent;
    lemma_filter_distinct(rows, other);
    assert forall|id: MemoryId|
        fate(find_row(others, id), #[trigger] events_on(sorted, id)) == Some(
            match find_row(rows, id) {
                Some(r) => if r.agent_id != agent {
                    Some(r)
                } else {
                    Some(settled_row(r))
                },
                None => None,
            },
        ) by {
        let on = |e: MemoryEvent| e.target_memory_id == id;
        lemma_sorted_events_on(events, agent, order, id);
        lemma_find_filter(rows, other, id);
        lemma_find_row(rows, id);
        assert(projects(rows, events, id));
        // The events of the agent about the memory are all events about it, or none.
        let both = |e: MemoryEvent| e.agent_id == agent && e.target_memory_id == id;
        lemma_filter_filter(events, is_agent, on, both);
        assert(events_on(mine, id) == events.filter(both));
        if exists|i: int| 0 <= i < events.len() && both(#[trigger] events[i]) {
            let i = choose|i: int| 0 <= i < events.len() && both(#[trigger] events[i]);
            lemma_filter_agree(events, on, both);
            match find_row(rows, id) {
                Some(r) => {
                    let w = lemma_row_event(rows, events, r);
                    assert(events[i].target_memory_id == events[w].target_memory_id);
                    assert(r.agent_id == agent);
                },
                None => {},
            }
        } else {
            lemma_filter_none(events, both);
            match find_row(rows, id) {
                Some(r) => {
                    let w = lemma_row_event(rows, events, r);
                    assert(!both(events[w]));
                },
                None => {},
            }
        }
    }
    lemma_replay_is_fate(others, sorted);
}

proof fn lemma_filter_agree<T>(s: Seq<T>, p: spec_fn(T) -> bool, q: spec_fn(T) -> bool)
    requires
        forall|i: int| 0 <= i < s.len() ==> p(#[trigger] s[i]) == q(s[i]),
    ensures
        s.filter(p) == s.filter(q),
    decreases s.len(),
{
    reveal(Seq::filter);
    if s.len() > 0 {
        assert(s[s.len() - 1] == s.last());
        assert forall|i: int| 0 <= i < s.drop_last().len() implies p(
            #[trigger] s.drop_last()[i],
        ) == q(s.drop_last()[i]) by {
            assert(s[i] == s.drop_last()[i]);
        }
        lemma_filter_agree(s.drop_last(), p, q);
    }
}

/// Undoing a write removes the memory.
pub proof fn law_revert_of_write_removes(
    t: MemoryTables,
    u: MemoryTables,
    agent: AgentId,
    event: MemoryEventId,
    event_id: MemoryEventId,
    now: Timestamp,
)
    requires
        t.wf(),
        reversal(t, agent, event, event_id, now) is Ok,
        event_of(t.journal(), agent, event)->0.payload is Write,
        u.took(t, reversal(t, agent, event, event_id, now)->Ok_0),
    ensures
        find_row(u.rows(), event_of(t.journal(), agent, event)->0.target_memory_id) is None,
{
    let id = event_of(t.journal(), agent, event)->0.target_memory_id;
    lemma_find_row(t.rows(), id);
    lemma_find_filter(t.rows(), |r: MemoryRow| r.id != id, id);
}

/// Undoing an update, whenever that is, brings back what the memory was just before
/// it: the content, the state and the pin. All else of the memory stays, and the
/// one event that is journaled is an operator's update back to that content.
pub proof fn law_revert_of_update_restores_the_memory(
    before: MemoryTables,
    t: MemoryTables,
    u: MemoryTables,
    prior: MemoryRow,
    next: MemoryRow,
    source: MutationSource,
    event: MemoryEventId,
    earlier: Timestamp,
    event_id: MemoryEventId,
    now: Timestamp,
)
    requires
        audited(before),
        audited(t),
        t.wf(),
        find_row(before.rows(), prior.id) == Some(prior),
        before.journal().push(
            revision(prior, next, event, prior.kind, source, earlier).event,
        ).is_prefix_of(t.journal()),
        find_row(t.rows(), prior.id) is Some,
        reversal(t, prior.agent_id, event, event_id, now) is Ok ==> u.took(
            t,
            reversal(t, prior.agent_id, event, event_id, now)->Ok_0,
        ),
    ensures
        reversal(t, prior.agent_id, event, event_id, now) is Ok,
        ({
            let is = find_row(t.rows(), prior.id)->0;
            let back = MemoryRow {
                content: prior.content,
                state: prior.state,
                pinned: prior.pinned,
                ..is
            };
            &&& find_row(u.rows(), prior.id) == Some(back)
            &&& u.journal() == t.journal().push(
                revision(is, back, event_id, prior.kind, MutationSource::Operator, now).event,
            )
        }),
{
    broadcast use lemma_timestamp_range;

    let evt = revision(prior, next, event, prior.kind, source, earlier).event;
    let first = before.journal();
    let all = t.journal();
    let n = first.len() as int;
    let id = prior.id;
    let agent = prior.agent_id;
    let is = find_row(t.rows(), id)->0;
    lemma_find_row(before.rows(), id);
    lemma_find_row(t.rows(), id);
    let k = choose|k: int| 0 <= k < before.rows().len() && #[trigger] before.rows()[k] == prior;
    assert(restored_attrs(first, before.rows()[k].agent_id, before.rows()[k].id) == Some(
        attrs_of_row(prior),
    ));
    assert(first.push(evt)[n] == evt);
    assert(all[n] == evt);
    assert forall|i: int| 0 <= i < n implies #[trigger] all[i] == first[i] by {
        assert(first.push(evt)[i] == first[i]);
    }
    assert(all.take(n) =~= first);
    assert(comes_last(first, evt)) by {
        assert forall|i: int|
            0 <= i < first.len() && (#[trigger] first[i]).target_memory_id
                == evt.target_memory_id implies key_lt(event_key(first[i]), event_key(evt)) by {
            assert(all[i].target_memory_id == all[n].target_memory_id);
        }
    }
    assert forall|i: int| n <= i < all.len() implies !carries_prior(#[trigger] all[i], evt) by {
        if i > n && all[i].target_memory_id == id {
            assert(all[n].target_memory_id == all[i].target_memory_id);
            assert(key_lt(event_key(all[n]), event_key(all[i])));
        }
    }
    lemma_prior_stays(all, evt, n);
    lemma_prior_is_latest(first, evt);
    let w = lemma_row_event(t.rows(), all, is);
    assert(all[n].target_memory_id == all[w].target_memory_id);
    lemma_find_event(all, event);
    let c = reversal(t, agent, event, event_id, now)->Ok_0;
    lemma_find_after_put(t.rows(), c.effect->Put_0, id);
}

/// A memory that was forgotten comes back when its removal is undone: the same
/// memory of the same agent, with the content, kind, state and pin it had.
pub proof fn law_forget_then_revert(
    t: MemoryTables,
    u: MemoryTables,
    v: MemoryTables,
    agent: AgentId,
    target: MemoryId,
    source: MutationSource,
    first: MemoryEventId,
    second: MemoryEventId,
    fresh: MemoryId,
    org: OrgId,
    earlier: Timestamp,
    later: Timestamp,
)
    requires
        audited(t),
        ({
            let m = MemoryMutation::Forget { agent, target, source };
            let planned = mutation_change(
                m,
                find_row(t.rows(), target),
                fresh,
                first,
                org,
                earlier,
            );
            &&& planned is Ok
            &&& u.took(t, planned->Ok_0)
            &&& comes_last(t.journal(), planned->Ok_0.event)
        }),
        reversal(u, agent, first, second, later) is Ok ==> v.took(
            u,
            reversal(u, agent, first, second, later)->Ok_0,
        ),
    ensures
        reversal(u, agent, first, second, later) is Ok,
        ({
            let was = find_row(t.rows(), target)->0;
            find_row(v.rows(), target) matches Some(is) && is.id == was.id && is.agent_id
                == was.agent_id && is.org_id == was.org_id && is.kind == was.kind && is.content
                == was.content && is.state == was.state && is.pinned == was.pinned
        }),
{
    let was = find_row(t.rows(), target)->0;
    let c = mutation_change(
        MemoryMutation::Forget { agent, target, source },
        find_row(t.rows(), target),
        fresh,
        first,
        org,
        earlier,
    )->Ok_0;
    let e = c.event;
    lemma_find_row(t.rows(), target);
    let k = choose|k: int| 0 <= k < t.rows().len() && #[trigger] t.rows()[k] == was;
    assert(restored_attrs(t.journal(), t.rows()[k].agent_id, t.rows()[k].id) == Some(
        attrs_of_row(was),
    ));
    assert(u.journal().last() == e);
    assert(event_of(u.journal(), agent, first) == Some(e));
    lemma_latest_push(t.journal(), e, agent, target);
    lemma_find_filter(t.rows(), |r: MemoryRow| r.id != target, target);
    let back = reversal(u, agent, first, second, later)->Ok_0;
    lemma_find_push(u.rows(), back.effect->InsertIfAbsent_0, target);
}

/// Only an operator touches a pinned memory: whatever anyone else asks for, each
/// pinned memory is as it was.
pub proof fn law_pinned_memory_is_immutable(
    t: MemoryTables,
    u: MemoryTables,
    m: MemoryMutation,
    fresh: MemoryId,
    event_id: MemoryEventId,
    org: OrgId,
    now: Timestamp,
    pinned: MemoryRow,
)
    requires
        t.wf(),
        m.origin() != MutationSource::Operator,
        find_row(t.rows(), pinned.id) == Some(pinned),
        pinned.pinned,
        ({
            let planned = mutation_change(
                m,
                find_row(t.rows(), mutation_target(m, fresh)),
                fresh,
                event_id,
                org,
                now,
            );
            &&& planned is Ok
            &&& !t.rejects(planned->Ok_0)
            &&& u.took(t, planned->Ok_0)
        }),
    ensures
        find_row(u.rows(), pinned.id) == Some(pinned),
{
    let target = mutation_target(m, fresh);
    let c = mutation_change(m, find_row(t.rows(), target), fresh, event_id, org, now)->Ok_0;
    lemma_find_row(t.rows(), target);
    match c.effect {
        RowEffect::Insert(row) => lemma_find_push(t.rows(), row, pinned.id),
        RowEffect::InsertIfAbsent(row) => {},
        RowEffect::Put(next) => lemma_find_after_put(t.rows(), next, pinned.id),
        RowEffect::Remove(gone) => lemma_find_filter(
            t.rows(),
            |r: MemoryRow| r.id != gone,
            pinned.id,
        ),
    }
}

/// Memory is private to its agent: what one agent's mutation does, each memory of
/// another agent is as it was.
pub proof fn law_memory_is_private(
    t: MemoryTables,
    u: MemoryTables,
    m: MemoryMutation,
    fresh: MemoryId,
    event_id: MemoryEventId,
    org: OrgId,
    now: Timestamp,
    other: MemoryRow,
)
    requires
        t.wf(),
        m.owner() != other.agent_id,
        find_row(t.rows(), other.id) == Some(other),
        ({
            let planned = mutation_change(
                m,
                find_row(t.rows(), mutation_target(m, fresh)),
                fresh,
                event_id,
                org,
                now,
            );
            &&& planned is Ok
            &&& !t.rejects(planned->Ok_0)
            &&& u.took(t, planned->Ok_0)
        }),
    ensures
        find_row(u.rows(), other.id) == Some(other),
{
    let target = mutation_target(m, fresh);
    let c = mutation_change(m, find_row(t.rows(), target), fresh, event_id, org, now)->Ok_0;
    lemma_find_row(t.rows(), target);
    match c.effect {
        RowEffect::Insert(row) => lemma_find_push(t.rows(), row, other.id),
        RowEffect::InsertIfAbsent(row) => {},
        RowEffect::Put(next) => lemma_find_after_put(t.rows(), next, other.id),
        RowEffect::Remove(gone) => lemma_find_filter(
            t.rows(),
            |r: MemoryRow| r.id != gone,
            other.id,
        ),
    }
}

/// Decay and maturing spare pinned memories: a memory that does not meet their
/// condition is as it was.
pub proof fn law_holding_spares_the_rest(
    rows: Seq<MemoryRow>,
    p: spec_fn(MemoryRow) -> bool,
    id: MemoryId,
)
    requires
        distinct_rows(rows),
        find_row(rows, id) matches Some(r) ==> !p(r),
    ensures
        find_row(held_where(rows, p), id) == find_row(rows, id),
{
    let f = |r: MemoryRow|
        if p(r) {
            MemoryRow { state: MemoryState::Held, ..r }
        } else {
            r
        };
    lemma_find_map(rows, f, id);
    assert(held_where(rows, p) =~= rows.map_values(f));
}

/// A tentative memory is held after one validation and validated after two, and
/// no validation lowers the trust in a memory.
pub proof fn law_validations_promote(state: MemoryState)
    ensures
        promoted(MemoryState::Tentative) == MemoryState::Held,
        promoted(promoted(MemoryState::Tentative)) == MemoryState::Validated,
        promoted(MemoryState::Validated) == MemoryState::Validated,
        promoted(MemoryState::Core) == MemoryState::Core,
        promoted(state).rank() >= state.rank(),
{
}

proof fn lemma_count_without(rows: Seq<MemoryRow>, agent: AgentId, id: MemoryId)
    requires
        distinct_rows(rows),
        find_row(rows, id) matches Some(r) && r.agent_id == agent,
    ensures
        row_count(without_row(rows, id), agent) == row_count(rows, agent) - 1,
    decreases rows.len(),
{
    reveal(Seq::filter);
    let is_a = |r: MemoryRow| r.agent_id == agent;
    let q = |r: MemoryRow| r.id != id;
    let rest = rows.drop_last();
    let last = rows.last();
    assert(rest.push(last) =~= rows);
    lemma_filter_push(rest, last, is_a);
    lemma_filter_push(rest, last, q);
    if last.id == id {
        assert forall|i: int| 0 <= i < rest.len() implies q(#[trigger] rest[i]) by {
            assert(rows[i].id != rows[rows.len() - 1].id);
        }
        lemma_filter_all(rest, q);
    } else {
        lemma_count_without(rest, agent, id);
        lemma_filter_push(rest.filter(q), last, is_a);
    }
}

proof fn lemma_count_without_rows(rows: Seq<MemoryRow>, agent: AgentId, gone: Seq<MemoryRow>)
    requires
        distinct_rows(rows),
        distinct_rows(gone),
        forall|i: int|
            0 <= i < gone.len() ==> rows.contains(#[trigger] gone[i]) && gone[i].agent_id == agent,
    ensures
        row_count(without_rows(rows, gone), agent) == row_count(rows, agent) - gone.len(),
        distinct_rows(without_rows(rows, gone)),
    decreases gone.len(),
{
    lemma_filter_distinct(rows, |r: MemoryRow| !has_id(gone, r.id));
    if gone.len() == 0 {
        lemma_filter_all(rows, |r: MemoryRow| !has_id(gone, r.id));
    } else {
        let less = gone.drop_last();
        let row = gone.last();
        let j = gone.len() - 1;
        assert(gone[j] == row);
        assert forall|i: int| 0 <= i < less.len() implies rows.contains(#[trigger] less[i])
            && less[i].agent_id == agent by {
            assert(gone[i] == less[i]);
        }
        assert(distinct_rows(less)) by {
            assert forall|a: int, b: int| 0 <= a < b < less.len() implies #[trigger] less[a].id
                != #[trigger] less[b].id by {
                assert(gone[a].id != gone[b].id);
            }
        }
        lemma_count_without_rows(rows, agent, less);
        let p = |r: MemoryRow| !has_id(less, r.id);
        let q = |r: MemoryRow| r.id != row.id;
        let both = |r: MemoryRow| !has_id(gone, r.id);
        assert(!has_id(less, row.id)) by {
            if has_id(less, row.id) {
                let w = choose|w: int| 0 <= w < less.len() && (#[trigger] less[w]).id == row.id;
                assert(gone[w].id != gone[j].id);
            }
        }
        assert forall|r: MemoryRow| #[trigger] both(r) == (p(r) && q(r)) by {
            if has_id(less, r.id) {
                let w = choose|w: int| 0 <= w < less.len() && (#[trigger] less[w]).id == r.id;
                assert(gone[w].id == r.id);
            }
            if r.id == row.id {
                assert(gone[j].id == r.id);
            }
            if has_id(gone, r.id) {
                let w = choose|w: int| 0 <= w < gone.len() && (#[trigger] gone[w]).id == r.id;
                if w < j {
                    assert(less[w].id == r.id);
                }
            }
        }
        lemma_filter_filter(rows, p, q, both);
        let at = choose|at: int| 0 <= at < rows.len() && rows[at] == row;
        lemma_find_at(rows, at);
        lemma_find_filter(rows, p, row.id);
        lemma_count_without(without_rows(rows, less), agent, row.id);
    }
}

/// What eviction takes are distinct unpinned memories of the agent.
pub proof fn lemma_victims(rows: Seq<MemoryRow>, agent: AgentId, quota: usize, order: Seq<usize>)
    requires
        distinct_rows(rows),
        eviction_order(rows, agent, order),
    ensures
        ({
            let gone = victims(rows, agent, quota, order);
            &&& gone.len() == overflow(rows, agent, quota)
            &&& distinct_rows(gone)
            &&& forall|i: int|
                0 <= i < gone.len() ==> rows.contains(#[trigger] gone[i]) && evictable(
                    gone[i],
                    agent,
                )
        }),
{
    let p = |r: MemoryRow| evictable(r, agent);
    let open = candidates(rows, agent);
    let keys = open.map_values(|r: MemoryRow| eviction_key(r));
    let gone = victims(rows, agent, quota, order);
    lemma_filter_distinct(rows, p);
    assert forall|i: int| 0 <= i < gone.len() implies rows.contains(#[trigger] gone[i])
        && evictable(gone[i], agent) by {
        assert(order[i] < open.len());
        let r = open[order[i] as int];
        assert(p(rows.filter(p)[order[i] as int]) && rows.contains(
            rows.filter(p)[order[i] as int],
        ));
    }
    assert forall|i: int, j: int| 0 <= i < j < gone.len() implies #[trigger] gone[i].id
        != #[trigger] gone[j].id by {
        let x = order[i] as int;
        let y = order[j] as int;
        assert(goes_before(keys, order[i] as int, order[j] as int));
        if x < y {
            assert(open[x].id != open[y].id);
        } else if y < x {
            assert(open[y].id != open[x].id);
        }
    }
}

/// Eviction brings an agent back to its quota wherever unpinned memories allow,
/// and never below it.
pub proof fn law_eviction_meets_the_quota(
    rows: Seq<MemoryRow>,
    agent: AgentId,
    quota: usize,
    order: Seq<usize>,
)
    requires
        distinct_rows(rows),
        eviction_order(rows, agent, order),
    ensures
        ({
            let left = row_count(without_rows(rows, victims(rows, agent, quota, order)), agent);
            let total = row_count(rows, agent);
            &&& total <= quota ==> left == total
            &&& total > quota ==> left >= quota
            &&& total > quota && total - quota <= candidates(rows, agent).len() ==> left == quota
        }),
{
    let gone = victims(rows, agent, quota, order);
    lemma_victims(rows, agent, quota, order);
    lemma_count_without_rows(rows, agent, gone);
}

/// Eviction takes the least valuable memories. Of one that goes and an unpinned one of
/// the same agent that stays, the one that goes is less trusted; or as trusted and read
/// longer ago; or as trusted, read at the same time, and no more often.
pub proof fn law_eviction_takes_the_least(
    rows: Seq<MemoryRow>,
    agent: AgentId,
    quota: usize,
    order: Seq<usize>,
    gone: MemoryRow,
    kept: MemoryRow,
)
    requires
        distinct_rows(rows),
        eviction_order(rows, agent, order),
        victims(rows, agent, quota, order).contains(gone),
        rows.contains(kept),
        kept.agent_id == agent,
        !kept.pinned,
        !victims(rows, agent, quota, order).contains(kept),
    ensures
        rows.contains(gone),
        gone.agent_id == agent,
        !gone.pinned,
        ({
            ||| gone.state.rank() < kept.state.rank()
            ||| gone.state.rank() == kept.state.rank() && gone.last_accessed_at@
                < kept.last_accessed_at@
            ||| gone.state.rank() == kept.state.rank() && gone.last_accessed_at@
                == kept.last_accessed_at@ && gone.access_count <= kept.access_count
        }),
        !key_lt(eviction_key(kept), eviction_key(gone)),
{
    broadcast use lemma_timestamp_range;

    let p = |r: MemoryRow| evictable(r, agent);
    let open = candidates(rows, agent);
    let keys = open.map_values(|r: MemoryRow| eviction_key(r));
    let all = victims(rows, agent, quota, order);
    let n = all.len() as int;
    let x = choose|x: int| 0 <= x < rows.len() && rows[x] == kept;
    rows.lemma_filter_contains(p, x);
    let k = choose|k: int| 0 <= k < n && all[k] == gone;
    let c = choose|c: int| 0 <= c < open.len() && open[c] == kept;
    assert(listed(order, c));
    let w = choose|w: int| 0 <= w < order.len() && #[trigger] order[w] == c;
    if w < n {
        assert(all[w] == kept);
    }
    assert(goes_before(keys, order[k] as int, order[w] as int));
    assert(order[k] < open.len());
    rows.lemma_filter_pred(p, order[k] as int);
    assert(open.contains(open[order[k] as int]));
    rows.lemma_filter_contains_rev(p, gone);
}

/// Eviction takes as many memories as there are beyond the quota, or all that are
/// unpinned where those are fewer, and none twice.
pub proof fn law_eviction_takes_the_excess(
    rows: Seq<MemoryRow>,
    agent: AgentId,
    quota: usize,
    order: Seq<usize>,
)
    requires
        distinct_rows(rows),
        eviction_order(rows, agent, order),
    ensures
        ({
            let gone = victims(rows, agent, quota, order);
            let mine = rows.filter(|r: MemoryRow| r.agent_id == agent).len();
            let free = rows.filter(|r: MemoryRow| r.agent_id == agent && !r.pinned).len();
            &&& distinct_rows(gone)
            &&& mine <= quota ==> gone.len() == 0
            &&& mine > quota && mine - quota <= free ==> gone.len() == mine - quota
            &&& mine > quota && mine - quota > free ==> gone.len() == free
        }),
{
    let p = |r: MemoryRow| evictable(r, agent);
    let q = |r: MemoryRow| r.agent_id == agent && !r.pinned;
    let open = candidates(rows, agent);
    let keys = open.map_values(|r: MemoryRow| eviction_key(r));
    let gone = victims(rows, agent, quota, order);
    lemma_filter_agree(rows, p, q);
    lemma_filter_distinct(rows, p);
    assert forall|i: int, j: int| 0 <= i < j < gone.len() implies #[trigger] gone[i].id
        != #[trigger] gone[j].id by {
        assert(gone[i] == open[order[i] as int]);
        assert(gone[j] == open[order[j] as int]);
        assert(goes_before(keys, order[i] as int, order[j] as int));
        if order[i] < order[j] {
            assert(open[order[i] as int].id != open[order[j] as int].id);
        } else {
            assert(order[j] < order[i]);
            assert(open[order[j] as int].id != open[order[i] as int].id);
        }
    }
}

/// It does not matter in which order the two memories of a contradiction are
/// named.
pub proof fn law_contradiction_pairs_are_unordered(a: MemoryId, b: MemoryId)
    ensures
        canonical_pair(a, b) == canonical_pair(b, a),
{
}

/// Flagging a pair again finds the contradiction that is open: no pair is flagged
/// twice at once.
pub proof fn law_flagging_is_idempotent(
    cs: Seq<ContradictionEventRow>,
    c: ContradictionEventRow,
    a: MemoryId,
    b: MemoryId,
)
    requires
        c.resolved_at is None,
        (c.memory_a, c.memory_b) == canonical_pair(a, b),
    ensures
        ({
            let (lo, hi) = canonical_pair(a, b);
            open_contradiction(cs.push(c), c.agent_id, lo, hi) == Some(c)
        }),
        ({
            let (lo, hi) = canonical_pair(b, a);
            open_contradiction(cs.push(c), c.agent_id, lo, hi) == Some(c)
        }),
{
    assert(open_between(c, c.agent_id, c.memory_a, c.memory_b));
}

/// The first resolution of a contradiction stands: once it is closed it is found
/// closed, with that resolution.
pub proof fn law_first_resolution_stands(
    cs: Seq<ContradictionEventRow>,
    id: ContradictionEventId,
    outcome: ResolutionOutcome,
    now: Timestamp,
)
    requires
        find_contradiction(cs, id) is Some,
    ensures
        ({
            let after = cs.map_values(
                |x: ContradictionEventRow|
                    if x.id == id {
                        closed_row(x, outcome, now)
                    } else {
                        x
                    },
            );
            &&& find_contradiction(after, id) == Some(
                closed_row(find_contradiction(cs, id)->0, outcome, now),
            )
            &&& find_contradiction(after, id)->0.resolved_at == Some(now)
        }),
    decreases cs.len(),
{
    let f = |x: ContradictionEventRow|
        if x.id == id {
            closed_row(x, outcome, now)
        } else {
            x
        };
    assert(cs.map_values(f).drop_last() =~= cs.drop_last().map_values(f));
    if cs.last().id != id {
        law_first_resolution_stands(cs.drop_last(), id, outcome, now);
    }
}

} // verus!
