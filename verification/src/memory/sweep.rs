//! A whole sweep of the librarian, carried out on the tables.

use crate::db::DbFault;
use crate::ids::{AgentId, ContradictionEventId, MemoryEventId, MemoryId, OrgId, ValidationEventId};
use crate::memory::audit::{lemma_find_after_put, lemma_find_filter, lemma_find_map};
use crate::memory::laws::law_eviction_meets_the_quota;
use crate::memory::librarian::{
    flag_plan, flag_reason, flag_reason_text, forget_count, merge_actions, merge_forgets,
    merge_plan, LibrarianSweep, LibrarianSweepReport, SweepAction, SweepReply, SweepStage,
};
use crate::memory::limits::{MAX_MEMORIES_PER_AGENT, VALIDATION_DECAY_MICROS};
use crate::memory::plan::{
    held_change, lock_error, removal, stale, validation_change, Change, RowEffect,
};
use crate::memory::store::{
    MemoryEvent, MemoryMutation, MemoryRow, MemoryStoreError, MutationSource, PairCandidate,
};
use crate::memory::tables::{
    after_effect, arranged, candidates, canonical_pair, distinct_rows, evictable, eviction_order,
    find_row, has_id, held_events, held_where, lemma_find_at, lemma_find_row, open_contradiction,
    removal_events, row_count, victims, without_rows, MemoryTables,
};
use crate::memory::types::MemoryState;
use crate::seqs::{lemma_filter_all, lemma_filter_none};
use crate::sort::listed;
use crate::time::{in_calendar, Timestamp};
use vstd::prelude::*;

verus! {

/// The label under which a memory that was written twice is validated.
pub const REWRITE_LABEL: &'static str = "cross_session_rewrite";

/// What is recorded with such a validation.
pub const REWRITE_DETAIL: &'static str = "librarian dedup match";

/// What a sweep for `agent` may do to the memory `id`: lift or lower its state,
/// or forget it, unless it is pinned or another's. It mints none.
pub open spec fn spared(
    before: Seq<MemoryRow>,
    after: Seq<MemoryRow>,
    agent: AgentId,
    id: MemoryId,
) -> bool {
    match (find_row(before, id), find_row(after, id)) {
        (None, s) => s is None,
        (Some(r), None) => r.agent_id == agent && !r.pinned,
        (Some(r), Some(s)) => {
            &&& s == (MemoryRow {
                state: s.state,
                last_validated_at: s.last_validated_at,
                ..r
            })
            &&& (r.agent_id != agent || r.pinned) ==> s == r
        },
    }
}

/// Whatever is journaled after `before` is the librarian's, on the memories of
/// `agent`.
pub open spec fn librarian_wrote(
    before: Seq<MemoryEvent>,
    after: Seq<MemoryEvent>,
    agent: AgentId,
) -> bool {
    &&& before.len() <= after.len()
    &&& forall|i: int| 0 <= i < before.len() ==> #[trigger] after[i] == before[i]
    &&& forall|i: int|
        before.len() <= i < after.len() ==> (#[trigger] after[i]).source
            == MutationSource::Librarian && after[i].agent_id == agent
}

/// All that a sweep for `agent` does to the tables.
pub open spec fn swept(t: MemoryTables, u: MemoryTables, agent: AgentId) -> bool {
    &&& forall|id: MemoryId| #[trigger] spared(t.rows(), u.rows(), agent, id)
    &&& librarian_wrote(t.journal(), u.journal(), agent)
}

/// Between `t` and `u` the memory was validated, under the given ids.
pub open spec fn validated_under(
    t: MemoryTables,
    u: MemoryTables,
    agent: AgentId,
    now: Timestamp,
    memory: MemoryId,
    validation_id: ValidationEventId,
    event_id: MemoryEventId,
) -> bool {
    let c = validation_change(
        find_row(t.rows(), memory),
        event_id,
        agent,
        memory,
        MutationSource::Librarian,
        now,
    );
    let noted = u.validations().last();
    &&& c is Ok
    &&& u.journal() == t.journal().push(c->Ok_0.event)
    &&& u.rows() == after_effect(t.rows(), c->Ok_0.effect)
    &&& u.contradictions() == t.contradictions()
    &&& u.validations() == t.validations().push(noted)
    &&& noted.id == validation_id
    &&& noted.agent_id == agent
    &&& noted.memory_id == memory
    &&& noted.source@ == REWRITE_LABEL@
    &&& noted.detail is Some
    &&& noted.detail->0@ == REWRITE_DETAIL@
    &&& noted.created_at == now
}

/// Between `t` and `u` the memory was forgotten, under the given id.
pub open spec fn forgotten_under(
    t: MemoryTables,
    u: MemoryTables,
    agent: AgentId,
    now: Timestamp,
    memory: MemoryId,
    event_id: MemoryEventId,
) -> bool {
    let row = find_row(t.rows(), memory);
    &&& lock_error(row, agent, memory, MutationSource::Librarian) is None
    &&& u.took(t, removal(row->0, event_id, MutationSource::Librarian, now))
}

/// Between `t` and `u` the pair was flagged, under the given id where it was not
/// flagged before.
pub open spec fn flagged_under(
    t: MemoryTables,
    u: MemoryTables,
    agent: AgentId,
    org: OrgId,
    now: Timestamp,
    pair: (MemoryId, MemoryId),
    similarity: Seq<char>,
    id: ContradictionEventId,
) -> bool {
    let (lo, hi) = canonical_pair(pair.0, pair.1);
    let flag = u.contradictions().last();
    &&& u.rows() == t.rows()
    &&& u.journal() == t.journal()
    &&& u.validations() == t.validations()
    &&& if open_contradiction(t.contradictions(), agent, lo, hi) is Some {
        u.contradictions() == t.contradictions()
    } else {
        &&& u.contradictions() == t.contradictions().push(flag)
        &&& flag.id == id
        &&& flag.agent_id == agent
        &&& flag.org_id == org
        &&& flag.memory_a == lo
        &&& flag.memory_b == hi
        &&& flag.reason@ == flag_reason_text(similarity)
        &&& flag.created_at == now
        &&& flag.resolved_at is None
    }
}

/// The action took `t` to `u`.
pub open spec fn carried_out(
    t: MemoryTables,
    u: MemoryTables,
    agent: AgentId,
    org: OrgId,
    now: Timestamp,
    action: SweepAction,
) -> bool {
    match action {
        SweepAction::Validate { memory } => exists|v: ValidationEventId, e: MemoryEventId| #[trigger]
            validated_under(t, u, agent, now, memory, v, e),
        SweepAction::Forget { memory } => exists|e: MemoryEventId| #[trigger]
            forgotten_under(t, u, agent, now, memory, e),
        SweepAction::Flag { a, b, similarity } => exists|c: ContradictionEventId| #[trigger]
            flagged_under(t, u, agent, org, now, (a, b), similarity@, c),
        _ => u.same(t),
    }
}

/// The actions, one after the other, took `t` to `u`.
pub open spec fn all_carried_out(
    t: MemoryTables,
    u: MemoryTables,
    agent: AgentId,
    org: OrgId,
    now: Timestamp,
    actions: Seq<SweepAction>,
) -> bool
    decreases actions.len(),
{
    if actions.len() == 0 {
        u.same(t)
    } else {
        exists|mid: MemoryTables|
            {
                &&& all_carried_out(t, mid, agent, org, now, actions.drop_last())
                &&& #[trigger] carried_out(mid, u, agent, org, now, actions.last())
            }
    }
}

/// Why the librarian may not touch the memory that the action is about.
pub open spec fn obstacle(
    rows: Seq<MemoryRow>,
    agent: AgentId,
    action: SweepAction,
) -> Option<MemoryStoreError> {
    match action {
        SweepAction::Validate { memory } => lock_error(
            find_row(rows, memory),
            agent,
            memory,
            MutationSource::Librarian,
        ),
        SweepAction::Forget { memory } => lock_error(
            find_row(rows, memory),
            agent,
            memory,
            MutationSource::Librarian,
        ),
        _ => None,
    }
}

/// The agent has no more memories than its quota, unless they are all pinned.
pub open spec fn within_quota(rows: Seq<MemoryRow>, agent: AgentId) -> bool {
    row_count(rows, agent) <= MAX_MEMORIES_PER_AGENT || candidates(rows, agent).len() == 0
}

/// Between `t` and `u` the stale validations of the agent were decayed and its
/// quota met, under the given ids and in the given order.
pub open spec fn trimmed_under(
    t: MemoryTables,
    u: MemoryTables,
    agent: AgentId,
    cutoff: Timestamp,
    now: Timestamp,
    report: LibrarianSweepReport,
    held_ids: Seq<MemoryEventId>,
    gone_ids: Seq<MemoryEventId>,
    order: Seq<usize>,
) -> bool {
    let p = |r: MemoryRow| stale(r, agent, cutoff);
    let held = held_where(t.rows(), p);
    let gone = victims(held, agent, MAX_MEMORIES_PER_AGENT, order);
    &&& eviction_order(held, agent, order)
    &&& u.rows() == without_rows(held, gone)
    &&& u.journal() == t.journal() + held_events(t.rows(), p, held_ids, now) + removal_events(
        gone,
        gone_ids,
        now,
    )
    &&& u.same_aside(t)
    &&& report.demoted == t.rows().filter(p).len()
    &&& report.evicted == gone.len()
}

/// Between `t` and `u` the stale validations of the agent were decayed and its
/// quota met; the report counts both.
pub open spec fn trimmed(
    t: MemoryTables,
    u: MemoryTables,
    agent: AgentId,
    cutoff: Timestamp,
    now: Timestamp,
    report: LibrarianSweepReport,
) -> bool {
    exists|held_ids: Seq<MemoryEventId>, gone_ids: Seq<MemoryEventId>, order: Seq<usize>| #[trigger]
        trimmed_under(t, u, agent, cutoff, now, report, held_ids, gone_ids, order)
}

/// None of the memories is there.
pub open spec fn all_gone(rows: Seq<MemoryRow>, ids: Seq<MemoryId>) -> bool {
    forall|k: int| 0 <= k < ids.len() ==> find_row(rows, #[trigger] ids[k]) is None
}

/// No validation of the agent is stale, and its quota is met.
pub open spec fn in_order(rows: Seq<MemoryRow>, agent: AgentId, cutoff: Timestamp) -> bool {
    &&& forall|i: int| 0 <= i < rows.len() ==> !stale(#[trigger] rows[i], agent, cutoff)
    &&& row_count(rows, agent) <= MAX_MEMORIES_PER_AGENT
}

/// A sweep that found `duplicates` first, and `contradictions` once the quota was
/// met, took `t` to `u`.
pub open spec fn swept_as(
    t: MemoryTables,
    u: MemoryTables,
    agent: AgentId,
    org: OrgId,
    now: Timestamp,
    cutoff: Timestamp,
    duplicates: Seq<PairCandidate>,
    contradictions: Seq<PairCandidate>,
    report: LibrarianSweepReport,
) -> bool {
    let merges = merge_plan(duplicates);
    let flags = flag_plan(contradictions, merge_forgets(duplicates));
    &&& exists|merged: MemoryTables, settled: MemoryTables|
        {
            &&& all_carried_out(t, merged, agent, org, now, merges)
            &&& #[trigger] trimmed(merged, settled, agent, cutoff, now, report)
            &&& all_carried_out(settled, u, agent, org, now, flags)
        }
    &&& report.deduped == forget_count(merges)
    &&& report.contradictions_flagged == flags.len()
}

/// The action draws an id, and there are ids that it may clash with.
pub open spec fn may_clash(t: MemoryTables, agent: AgentId, action: SweepAction) -> bool {
    match action {
        SweepAction::Validate { .. } => t.journal().len() > 0,
        SweepAction::Forget { .. } => t.journal().len() > 0,
        SweepAction::Flag { a, b, .. } => {
            let (lo, hi) = canonical_pair(a, b);
            open_contradiction(t.contradictions(), agent, lo, hi) is None
                && t.contradictions().len() > 0
        },
        _ => false,
    }
}

/// Why the action fails on the tables as they are: an obstacle comes before the
/// draw of an id, which is otherwise all that can fail.
pub open spec fn fails_with(
    t: MemoryTables,
    agent: AgentId,
    action: SweepAction,
    e: MemoryStoreError,
) -> bool {
    match obstacle(t.rows(), agent, action) {
        Some(why) => e == why,
        None => may_clash(t, agent, action) && e == MemoryStoreError::Db(DbFault::DuplicateKey),
    }
}

/// The first `n` actions took `t` to `mid`, and the next one failed there.
pub open spec fn failed_at(
    t: MemoryTables,
    mid: MemoryTables,
    agent: AgentId,
    org: OrgId,
    now: Timestamp,
    actions: Seq<SweepAction>,
    n: int,
    e: MemoryStoreError,
) -> bool {
    &&& 0 <= n < actions.len()
    &&& all_carried_out(t, mid, agent, org, now, actions.take(n))
    &&& fails_with(mid, agent, actions[n], e)
}

/// A plan that was to be carried out on `t` failed, and left `u`.
pub open spec fn failed(
    t: MemoryTables,
    u: MemoryTables,
    agent: AgentId,
    org: OrgId,
    now: Timestamp,
    actions: Seq<SweepAction>,
    e: MemoryStoreError,
) -> bool {
    exists|n: int, mid: MemoryTables|
        #[trigger] failed_at(t, mid, agent, org, now, actions, n, e) && u.same(mid)
}

/// Between `t` and `u` the stale validations of the agent were decayed, under the
/// given ids.
pub open spec fn decayed_under(
    t: MemoryTables,
    u: MemoryTables,
    agent: AgentId,
    cutoff: Timestamp,
    now: Timestamp,
    held_ids: Seq<MemoryEventId>,
) -> bool {
    let p = |r: MemoryRow| stale(r, agent, cutoff);
    &&& u.rows() == held_where(t.rows(), p)
    &&& u.journal() == t.journal() + held_events(t.rows(), p, held_ids, now)
    &&& u.same_aside(t)
}

/// There was something to decay or to evict, an id that was drawn for it is taken,
/// and `u` is left of `t`: with nothing done, or with the decay done.
pub open spec fn trim_failed(
    t: MemoryTables,
    u: MemoryTables,
    agent: AgentId,
    cutoff: Timestamp,
    now: Timestamp,
) -> bool {
    &&& !in_order(t.rows(), agent, cutoff)
    &&& u.same(t) || (row_count(t.rows(), agent) > MAX_MEMORIES_PER_AGENT && exists|
        held_ids: Seq<MemoryEventId>,
    | #[trigger] decayed_under(t, u, agent, cutoff, now, held_ids))
}

/// The first part of a sweep failed: the merging, or the trimming after it.
pub open spec fn settling_failed(
    t: MemoryTables,
    u: MemoryTables,
    agent: AgentId,
    org: OrgId,
    now: Timestamp,
    cutoff: Timestamp,
    merges: Seq<SweepAction>,
    e: MemoryStoreError,
) -> bool {
    ||| failed(t, u, agent, org, now, merges, e)
    ||| e == MemoryStoreError::Db(DbFault::DuplicateKey) && exists|merged: MemoryTables|
        {
            &&& all_carried_out(t, merged, agent, org, now, merges)
            &&& #[trigger] trim_failed(merged, u, agent, cutoff, now)
        }
}

/// A sweep failed and left `u`: in its first part, or while flagging after it.
pub open spec fn sweep_failed(
    t: MemoryTables,
    u: MemoryTables,
    agent: AgentId,
    org: OrgId,
    now: Timestamp,
    cutoff: Timestamp,
    merges: Seq<SweepAction>,
    flags: Seq<SweepAction>,
    e: MemoryStoreError,
) -> bool {
    ||| settling_failed(t, u, agent, org, now, cutoff, merges, e)
    ||| exists|merged: MemoryTables, settled: MemoryTables, half: LibrarianSweepReport|
        {
            &&& all_carried_out(t, merged, agent, org, now, merges)
            &&& #[trigger] trimmed(merged, settled, agent, cutoff, now, half)
            &&& failed(settled, u, agent, org, now, flags, e)
        }
}

proof fn lemma_swept_twice(t: MemoryTables, u: MemoryTables, v: MemoryTables, agent: AgentId)
    requires
        swept(t, u, agent),
        swept(u, v, agent),
    ensures
        swept(t, v, agent),
{
    assert forall|id: MemoryId| #[trigger] spared(t.rows(), v.rows(), agent, id) by {
        assert(spared(t.rows(), u.rows(), agent, id));
        assert(spared(u.rows(), v.rows(), agent, id));
    }
    assert forall|i: int| 0 <= i < t.journal().len() implies #[trigger] v.journal()[i]
        == t.journal()[i] by {
        assert(u.journal()[i] == t.journal()[i]);
    }
    assert forall|i: int| t.journal().len() <= i < v.journal().len() implies (
    #[trigger] v.journal()[i]).source == MutationSource::Librarian && v.journal()[i].agent_id
        == agent by {
        if i < u.journal().len() {
            assert(v.journal()[i] == u.journal()[i]);
        }
    }
}

proof fn lemma_nothing_swept(t: MemoryTables, u: MemoryTables, agent: AgentId)
    requires
        u.rows() == t.rows(),
        u.journal() == t.journal(),
    ensures
        swept(t, u, agent),
{
}

proof fn lemma_swept_same(t: MemoryTables, u: MemoryTables, v: MemoryTables, agent: AgentId)
    requires
        swept(t, u, agent),
        v.same(u),
    ensures
        swept(t, v, agent),
{
    assert forall|id: MemoryId| #[trigger] spared(t.rows(), v.rows(), agent, id) by {
        assert(spared(t.rows(), u.rows(), agent, id));
    }
}

/// A journaled change of one unpinned memory of the agent is what a sweep does.
proof fn lemma_change_swept(t: MemoryTables, u: MemoryTables, c: Change, prior: MemoryRow)
    requires
        t.wf(),
        find_row(t.rows(), prior.id) == Some(prior),
        !prior.pinned,
        c.event.source == MutationSource::Librarian,
        c.event.agent_id == prior.agent_id,
        match c.effect {
            RowEffect::Put(next) => next == (MemoryRow {
                state: next.state,
                last_validated_at: next.last_validated_at,
                ..prior
            }),
            RowEffect::Remove(id) => id == prior.id,
            _ => false,
        },
        u.journal() == t.journal().push(c.event),
        u.rows() == after_effect(t.rows(), c.effect),
    ensures
        swept(t, u, prior.agent_id),
{
    assert forall|id: MemoryId| #[trigger] spared(t.rows(), u.rows(), prior.agent_id, id) by {
        match c.effect {
            RowEffect::Put(next) => lemma_find_after_put(t.rows(), next, id),
            RowEffect::Remove(gone) => lemma_find_filter(
                t.rows(),
                |r: MemoryRow| r.id != gone,
                id,
            ),
            _ => {},
        }
        lemma_find_row(t.rows(), id);
    }
}

/// Carries out an action of a plan.
fn carry_out(
    tables: &mut MemoryTables,
    agent: AgentId,
    org: OrgId,
    now: Timestamp,
    action: &SweepAction,
) -> (r: Result<(), MemoryStoreError>)
    requires
        old(tables).wf(),
    ensures
        final(tables).wf(),
        swept(*old(tables), *final(tables), agent),
        match r {
            Ok(_) => carried_out(*old(tables), *final(tables), agent, org, now, *action),
            Err(e) => final(tables).same(*old(tables)) && fails_with(
                *old(tables),
                agent,
                *action,
                e,
            ),
        },
{
    let ghost before = *tables;
    proof {
        lemma_nothing_swept(before, *tables, agent);
    }
    match action {
        SweepAction::Validate { memory } => validate_one(tables, agent, now, *memory),
        SweepAction::Forget { memory } => {
            let id = *memory;
            let m = MemoryMutation::Forget { agent, target: id, source: MutationSource::Librarian };
            match tables.apply(m, org, now) {
                Ok(out) => {
                    proof {
                        let prior = find_row(before.rows(), id)->0;
                        lemma_find_row(before.rows(), id);
                        let c = removal(prior, out.event_id, MutationSource::Librarian, now);
                        lemma_change_swept(before, *tables, c, prior);
                        assert(forgotten_under(before, *tables, agent, now, id, out.event_id));
                    }
                    Ok(())
                },
                Err(e) => {
                    proof {
                        lemma_nothing_swept(before, *tables, agent);
                    }
                    Err(e)
                },
            }
        },
        SweepAction::Flag { a, b, similarity } => {
            let id = ContradictionEventId::new();
            let answer = tables.record_contradiction(
                agent,
                org,
                *a,
                *b,
                flag_reason(similarity.as_str()),
                id,
                now,
            );
            proof {
                lemma_nothing_swept(before, *tables, agent);
            }
            match answer {
                Ok(_) => {
                    assert(flagged_under(
                        before,
                        *tables,
                        agent,
                        org,
                        now,
                        (*a, *b),
                        similarity@,
                        id,
                    ));
                    Ok(())
                },
                Err(e) => Err(e),
            }
        },
        _ => Ok(()),
    }
}

/// Records that the memory was written twice.
fn validate_one(tables: &mut MemoryTables, agent: AgentId, now: Timestamp, id: MemoryId) -> (r:
    Result<(), MemoryStoreError>)
    requires
        old(tables).wf(),
    ensures
        final(tables).wf(),
        swept(*old(tables), *final(tables), agent),
        match r {
            Ok(_) => exists|v: ValidationEventId, e: MemoryEventId| #[trigger]
                validated_under(*old(tables), *final(tables), agent, now, id, v, e),
            Err(e) => final(tables).same(*old(tables)) && fails_with(
                *old(tables),
                agent,
                SweepAction::Validate { memory: id },
                e,
            ),
        },
{
    let ghost before = *tables;
    let validation_id = ValidationEventId::new();
    let event_id = MemoryEventId::new();
    let answer = tables.validate_as(
        agent,
        id,
        MutationSource::Librarian,
        REWRITE_LABEL,
        Some(REWRITE_DETAIL.to_owned()),
        validation_id,
        event_id,
        now,
    );
    match answer {
        Ok(_) => {
            proof {
                let prior = find_row(before.rows(), id)->0;
                lemma_find_row(before.rows(), id);
                let c = validation_change(
                    Some(prior),
                    event_id,
                    agent,
                    id,
                    MutationSource::Librarian,
                    now,
                )->Ok_0;
                lemma_change_swept(before, *tables, c, prior);
                assert(validated_under(before, *tables, agent, now, id, validation_id, event_id));
            }
            Ok(())
        },
        Err(e) => {
            proof {
                lemma_nothing_swept(before, *tables, agent);
            }
            Err(e)
        },
    }
}

proof fn lemma_held_swept(
    t: MemoryTables,
    u: MemoryTables,
    agent: AgentId,
    cutoff: Timestamp,
    ids: Seq<MemoryEventId>,
    now: Timestamp,
)
    requires
        t.wf(),
        u.rows() == held_where(t.rows(), |r: MemoryRow| stale(r, agent, cutoff)),
        u.journal() == t.journal() + held_events(
            t.rows(),
            |r: MemoryRow| stale(r, agent, cutoff),
            ids,
            now,
        ),
    ensures
        swept(t, u, agent),
{
    let p = |r: MemoryRow| stale(r, agent, cutoff);
    assert forall|id: MemoryId| #[trigger] spared(t.rows(), u.rows(), agent, id) by {
        let f = |r: MemoryRow|
            if p(r) {
                MemoryRow { state: MemoryState::Held, ..r }
            } else {
                r
            };
        lemma_find_map(t.rows(), f, id);
        assert(held_where(t.rows(), p) =~= t.rows().map_values(f));
    }
    let hits = t.rows().filter(p);
    assert forall|i: int| t.journal().len() <= i < u.journal().len() implies (
    #[trigger] u.journal()[i]).source == MutationSource::Librarian && u.journal()[i].agent_id
        == agent by {
        let k = i - t.journal().len();
        t.rows().lemma_filter_pred(p, k);
        assert(u.journal()[i] == held_change(hits[k], ids[k], now).event);
    }
}

/// Everything that eviction takes is an unpinned memory of the agent.
proof fn lemma_victims(rows: Seq<MemoryRow>, agent: AgentId, quota: usize, order: Seq<usize>)
    requires
        eviction_order(rows, agent, order),
    ensures
        forall|k: int|
            0 <= k < victims(rows, agent, quota, order).len() ==> evictable(
                #[trigger] victims(rows, agent, quota, order)[k],
                agent,
            ),
{
    let p = |r: MemoryRow| evictable(r, agent);
    let open = candidates(rows, agent);
    let gone = victims(rows, agent, quota, order);
    assert forall|k: int| 0 <= k < gone.len() implies evictable(#[trigger] gone[k], agent) by {
        assert(gone[k] == arranged(open, order)[k]);
        assert(order[k] < open.len());
        rows.lemma_filter_pred(p, order[k] as int);
    }
}

proof fn lemma_evicted_swept(
    t: MemoryTables,
    u: MemoryTables,
    agent: AgentId,
    quota: usize,
    order: Seq<usize>,
    ids: Seq<MemoryEventId>,
    now: Timestamp,
)
    requires
        t.wf(),
        eviction_order(t.rows(), agent, order),
        u.rows() == without_rows(t.rows(), victims(t.rows(), agent, quota, order)),
        u.journal() == t.journal() + removal_events(
            victims(t.rows(), agent, quota, order),
            ids,
            now,
        ),
    ensures
        swept(t, u, agent),
{
    let gone = victims(t.rows(), agent, quota, order);
    lemma_victims(t.rows(), agent, quota, order);
    let p = |r: MemoryRow| !has_id(gone, r.id);
    assert forall|id: MemoryId| #[trigger] spared(t.rows(), u.rows(), agent, id) by {
        lemma_find_filter(t.rows(), p, id);
        lemma_find_row(t.rows(), id);
        if find_row(t.rows(), id) is Some {
            let r = find_row(t.rows(), id)->0;
            if (r.agent_id != agent || r.pinned) && has_id(gone, r.id) {
                let k = choose|k: int| 0 <= k < gone.len() && (#[trigger] gone[k]).id == r.id;
                assert(evictable(gone[k], agent));
                lemma_victim_is_there(t.rows(), agent, quota, order, k);
            }
        }
    }
}

/// What eviction takes is in the table.
proof fn lemma_victim_is_there(
    rows: Seq<MemoryRow>,
    agent: AgentId,
    quota: usize,
    order: Seq<usize>,
    k: int,
)
    requires
        distinct_rows(rows),
        eviction_order(rows, agent, order),
        0 <= k < victims(rows, agent, quota, order).len(),
    ensures
        find_row(rows, victims(rows, agent, quota, order)[k].id) == Some(
            victims(rows, agent, quota, order)[k],
        ),
{
    let p = |r: MemoryRow| evictable(r, agent);
    let open = candidates(rows, agent);
    let gone = victims(rows, agent, quota, order);
    assert(gone[k] == arranged(open, order)[k]);
    assert(order[k] < open.len());
    assert(open.contains(open[order[k] as int]));
    rows.lemma_filter_contains_rev(p, gone[k]);
    let i = choose|i: int| 0 <= i < rows.len() && rows[i] == gone[k];
    lemma_find_at(rows, i);
}

/// Once all that may go is gone, nothing that may go is left.
proof fn lemma_quota_met(rows: Seq<MemoryRow>, agent: AgentId, order: Seq<usize>)
    requires
        distinct_rows(rows),
        eviction_order(rows, agent, order),
    ensures
        within_quota(
            without_rows(rows, victims(rows, agent, MAX_MEMORIES_PER_AGENT, order)),
            agent,
        ),
{
    let quota = MAX_MEMORIES_PER_AGENT;
    let open = candidates(rows, agent);
    let gone = victims(rows, agent, quota, order);
    let left = without_rows(rows, gone);
    law_eviction_meets_the_quota(rows, agent, quota, order);
    if row_count(rows, agent) > quota && row_count(rows, agent) - quota > open.len() {
        let p = |r: MemoryRow| evictable(r, agent);
        let q = |r: MemoryRow| !has_id(gone, r.id);
        assert(gone =~= arranged(open, order));
        if left.filter(p).len() > 0 {
            let r = left.filter(p)[0];
            left.lemma_filter_pred(p, 0);
            assert(left.filter(p).contains(r));
            left.lemma_filter_contains_rev(p, r);
            let i = choose|i: int| 0 <= i < left.len() && left[i] == r;
            rows.lemma_filter_pred(q, i);
            rows.lemma_filter_contains_rev(q, r);
            let j = choose|j: int| 0 <= j < rows.len() && rows[j] == r;
            rows.lemma_filter_contains(p, j);
            let c = choose|c: int| 0 <= c < open.len() && open[c] == r;
            assert(listed(order, c));
            let k = choose|k: int| 0 <= k < order.len() && order[k] == c;
            assert(gone[k].id == r.id);
        }
    }
}

fn fresh_events(n: usize) -> (ids: Vec<MemoryEventId>)
    ensures
        ids@.len() == n,
{
    let mut ids: Vec<MemoryEventId> = Vec::new();
    while ids.len() < n
        invariant
            ids@.len() <= n,
        decreases n - ids@.len(),
    {
        ids.push(MemoryEventId::new());
    }
    ids
}

/// Decays the stale validations and meets the quota.
fn trim(
    sweep: &mut LibrarianSweep,
    tables: &mut MemoryTables,
    agent: AgentId,
    cutoff: Timestamp,
    now: Timestamp,
) -> (r: Result<(), MemoryStoreError>)
    requires
        old(tables).wf(),
        old(sweep).wf(),
        old(sweep).stage() == SweepStage::Decaying,
        old(sweep).cutoff() == cutoff,
    ensures
        final(tables).wf(),
        swept(*old(tables), *final(tables), agent),
        match r {
            Ok(_) => {
                &&& final(sweep).wf()
                &&& final(sweep).stage() == SweepStage::Contrasting
                &&& final(sweep).forgotten() == old(sweep).forgotten()
                &&& final(sweep).report().deduped == old(sweep).report().deduped
                &&& trimmed(
                    *old(tables),
                    *final(tables),
                    agent,
                    cutoff,
                    now,
                    final(sweep).report(),
                )
                &&& within_quota(final(tables).rows(), agent)
            },
            Err(e) => e == MemoryStoreError::Db(DbFault::DuplicateKey) && trim_failed(
                *old(tables),
                *final(tables),
                agent,
                cutoff,
                now,
            ),
        },
{
    let ghost t = *tables;
    let ghost p = |r: MemoryRow| stale(r, agent, cutoff);
    let held_ids = fresh_events(tables.size());
    proof {
        t.rows().lemma_filter_len(p);
    }
    let demoted = match tables.decay_validated(agent, cutoff, &held_ids, now) {
        Ok(n) => n,
        Err(e) => {
            proof {
                lemma_nothing_swept(t, *tables, agent);
                t.rows().lemma_filter_pred(p, 0);
                let r = t.rows().filter(p)[0];
                assert(t.rows().filter(p).contains(r));
                t.rows().lemma_filter_contains_rev(p, r);
                let i = choose|i: int| 0 <= i < t.rows().len() && t.rows()[i] == r;
                assert(stale(t.rows()[i], agent, cutoff));
            }
            return Err(e);
        },
    };
    let ghost held = *tables;
    proof {
        lemma_held_swept(t, held, agent, cutoff, held_ids@, now);
        held.rows().lemma_filter_len(|r: MemoryRow| evictable(r, agent));
        lemma_held_count(t.rows(), p, agent);
    }
    sweep.advance(SweepReply::Count(demoted));
    let gone_ids = fresh_events(tables.size());
    let evicted = match tables.evict_overflow(agent, MAX_MEMORIES_PER_AGENT, &gone_ids, now) {
        Ok(ids) => ids,
        Err(e) => {
            proof {
                lemma_swept_same(t, held, *tables, agent);
                assert(decayed_under(t, *tables, agent, cutoff, now, held_ids@));
            }
            return Err(e);
        },
    };
    sweep.advance(SweepReply::Count(evicted.len()));
    proof {
        let order = choose|order: Seq<usize>|
            #[trigger] eviction_order(held.rows(), agent, order) && ({
                let gone = victims(held.rows(), agent, MAX_MEMORIES_PER_AGENT, order);
                &&& evicted@ == gone.map_values(|r: MemoryRow| r.id)
                &&& tables.rows() == without_rows(held.rows(), gone)
                &&& tables.journal() == held.journal() + removal_events(gone, gone_ids@, now)
                &&& tables.same_aside(held)
            });
        lemma_evicted_swept(
            held,
            *tables,
            agent,
            MAX_MEMORIES_PER_AGENT,
            order,
            gone_ids@,
            now,
        );
        lemma_swept_twice(t, held, *tables, agent);
        lemma_quota_met(held.rows(), agent, order);
        assert(trimmed_under(
            t,
            *tables,
            agent,
            cutoff,
            now,
            sweep.report(),
            held_ids@,
            gone_ids@,
            order,
        ));
    }
    Ok(())
}

/// Decay leaves an agent as many memories as it had.
proof fn lemma_held_count(rows: Seq<MemoryRow>, p: spec_fn(MemoryRow) -> bool, agent: AgentId)
    ensures
        row_count(held_where(rows, p), agent) == row_count(rows, agent),
    decreases rows.len(),
{
    reveal(Seq::filter);
    if rows.len() > 0 {
        lemma_held_count(rows.drop_last(), p, agent);
        assert(held_where(rows, p).drop_last() =~= held_where(rows.drop_last(), p));
    }
}

/// Merging validates and forgets.
proof fn lemma_merge_plan(pairs: Seq<PairCandidate>)
    ensures
        forall|k: int|
            0 <= k < merge_plan(pairs).len() ==> (#[trigger] merge_plan(pairs)[k]) is Validate
                || merge_plan(pairs)[k] is Forget,
    decreases pairs.len(),
{
    if pairs.len() > 0 {
        lemma_merge_plan(pairs.drop_last());
    }
}

/// Each memory that merging forgets has its action in the plan.
proof fn lemma_merge_forgets(pairs: Seq<PairCandidate>, k: int)
    requires
        0 <= k < merge_forgets(pairs).len(),
    ensures
        merge_plan(pairs).contains(SweepAction::Forget { memory: merge_forgets(pairs)[k] }),
    decreases pairs.len(),
{
    let rest = pairs.drop_last();
    let plan = merge_plan(rest);
    let all = merge_plan(pairs);
    let act = SweepAction::Forget { memory: merge_forgets(pairs)[k] };
    if k < merge_forgets(rest).len() {
        lemma_merge_forgets(rest, k);
        let i = choose|i: int| 0 <= i < plan.len() && plan[i] == act;
        assert(all[i] == act);
    } else {
        assert(all == plan + merge_actions(pairs.last()));
        assert(all[all.len() - 1] == act);
    }
}

/// Flagging flags.
proof fn lemma_flag_plan(pairs: Seq<PairCandidate>, forgotten: Seq<MemoryId>)
    ensures
        forall|k: int|
            0 <= k < flag_plan(pairs, forgotten).len() ==> (#[trigger] flag_plan(
                pairs,
                forgotten,
            )[k]) is Flag,
    decreases pairs.len(),
{
    if pairs.len() > 0 {
        lemma_flag_plan(pairs.drop_last(), forgotten);
    }
}

/// One action more was carried out.
proof fn lemma_one_more(
    t: MemoryTables,
    mid: MemoryTables,
    u: MemoryTables,
    agent: AgentId,
    org: OrgId,
    now: Timestamp,
    actions: Seq<SweepAction>,
    n: int,
)
    requires
        0 <= n < actions.len(),
        all_carried_out(t, mid, agent, org, now, actions.take(n)),
        carried_out(mid, u, agent, org, now, actions[n]),
    ensures
        all_carried_out(t, u, agent, org, now, actions.take(n + 1)),
{
    assert(actions.take(n + 1).drop_last() =~= actions.take(n));
    assert(actions.take(n + 1).last() == actions[n]);
}

/// What was forgotten is not there any more.
proof fn lemma_forgotten_is_gone(
    t: MemoryTables,
    u: MemoryTables,
    agent: AgentId,
    now: Timestamp,
    memory: MemoryId,
    event_id: MemoryEventId,
)
    requires
        t.wf(),
        forgotten_under(t, u, agent, now, memory, event_id),
    ensures
        find_row(u.rows(), memory) is None,
{
    lemma_find_row(t.rows(), memory);
    lemma_find_filter(t.rows(), |r: MemoryRow| r.id != memory, memory);
}

/// The memories that the first `n` actions forget are gone.
spec fn gone_so_far(rows: Seq<MemoryRow>, actions: Seq<SweepAction>, n: int) -> bool {
    forall|k: int|
        0 <= k < n && (#[trigger] actions[k]) is Forget ==> find_row(
            rows,
            actions[k]->Forget_memory,
        ) is None
}

/// Carries out the plan of a merge.
fn merge_all(
    sweep: &mut LibrarianSweep,
    tables: &mut MemoryTables,
    agent: AgentId,
    org: OrgId,
    now: Timestamp,
) -> (r: Result<(), MemoryStoreError>)
    requires
        old(tables).wf(),
        old(sweep).wf(),
        old(sweep).at() == 0,
        old(sweep).report().deduped == 0,
        old(sweep).stage() == if old(sweep).queue().len() == 0 {
            SweepStage::Decaying
        } else {
            SweepStage::Merging
        },
        forall|k: int|
            0 <= k < old(sweep).queue().len() ==> (#[trigger] old(sweep).queue()[k]) is Validate
                || old(sweep).queue()[k] is Forget,
    ensures
        final(tables).wf(),
        swept(*old(tables), *final(tables), agent),
        match r {
            Ok(_) => {
                &&& final(sweep).wf()
                &&& final(sweep).stage() == SweepStage::Decaying
                &&& final(sweep).cutoff() == old(sweep).cutoff()
                &&& final(sweep).forgotten() == old(sweep).forgotten()
                &&& final(sweep).report().deduped == forget_count(old(sweep).queue())
                &&& all_carried_out(
                    *old(tables),
                    *final(tables),
                    agent,
                    org,
                    now,
                    old(sweep).queue(),
                )
                &&& gone_so_far(
                    final(tables).rows(),
                    old(sweep).queue(),
                    old(sweep).queue().len() as int,
                )
            },
            Err(e) => failed(
                *old(tables),
                *final(tables),
                agent,
                org,
                now,
                old(sweep).queue(),
                e,
            ),
        },
{
    let ghost t = *tables;
    let ghost plan = sweep.queue();
    let ghost first = *sweep;
    proof {
        lemma_nothing_swept(t, *tables, agent);
        assert(plan.take(0) =~= Seq::<SweepAction>::empty());
    }
    loop
        invariant
            t == *old(tables),
            first == *old(sweep),
            plan == first.queue(),
            tables.wf(),
            swept(t, *tables, agent),
            sweep.wf(),
            sweep.queue() == plan,
            sweep.cutoff() == first.cutoff(),
            sweep.forgotten() == first.forgotten(),
            0 <= sweep.at() <= plan.len(),
            sweep.stage() == if sweep.at() == plan.len() {
                SweepStage::Decaying
            } else {
                SweepStage::Merging
            },
            sweep.report().deduped == forget_count(plan.take(sweep.at())),
            all_carried_out(t, *tables, agent, org, now, plan.take(sweep.at())),
            gone_so_far(tables.rows(), plan, sweep.at()),
            forall|k: int|
                0 <= k < plan.len() ==> (#[trigger] plan[k]) is Validate || plan[k] is Forget,
        ensures
            sweep.at() == plan.len(),
        decreases plan.len() - sweep.at(),
    {
        let action = sweep.next_action();
        match action {
            SweepAction::Validate { .. } | SweepAction::Forget { .. } => {},
            _ => {
                break;
            },
        }
        let ghost mid = *tables;
        let ghost n = sweep.at();
        match carry_out(tables, agent, org, now, &action) {
            Ok(_) => {},
            Err(e) => {
                proof {
                    lemma_swept_same(t, mid, *tables, agent);
                    assert(failed_at(t, mid, agent, org, now, plan, n, e));
                }
                return Err(e);
            },
        }
        sweep.advance(SweepReply::Done);
        proof {
            lemma_swept_twice(t, mid, *tables, agent);
            lemma_one_more(t, mid, *tables, agent, org, now, plan, n);
            assert(plan.take(n + 1).drop_last() =~= plan.take(n));
            assert forall|k: int| 0 <= k < n + 1 && (#[trigger] plan[k]) is Forget implies find_row(
                tables.rows(),
                plan[k]->Forget_memory,
            ) is None by {
                let id = plan[k]->Forget_memory;
                if k < n {
                    assert(spared(mid.rows(), tables.rows(), agent, id));
                } else {
                    let e = choose|e: MemoryEventId| #[trigger]
                        forgotten_under(mid, *tables, agent, now, id, e);
                    lemma_forgotten_is_gone(mid, *tables, agent, now, id, e);
                }
            }
        }
    }
    proof {
        assert(plan.take(plan.len() as int) =~= plan);
    }
    Ok(())
}

/// Flags the pairs of a plan.
fn flag_all(
    sweep: &mut LibrarianSweep,
    tables: &mut MemoryTables,
    agent: AgentId,
    org: OrgId,
    now: Timestamp,
) -> (r: Result<(), MemoryStoreError>)
    requires
        old(tables).wf(),
        old(sweep).wf(),
        old(sweep).at() == 0,
        old(sweep).report().contradictions_flagged == 0,
        old(sweep).stage() == if old(sweep).queue().len() == 0 {
            SweepStage::Over
        } else {
            SweepStage::Flagging
        },
        forall|k: int|
            0 <= k < old(sweep).queue().len() ==> (#[trigger] old(sweep).queue()[k]) is Flag,
    ensures
        final(tables).wf(),
        final(tables).rows() == old(tables).rows(),
        final(tables).journal() == old(tables).journal(),
        match r {
            Ok(_) => {
                &&& final(sweep).wf()
                &&& final(sweep).stage() == SweepStage::Over
                &&& final(sweep).report() == (LibrarianSweepReport {
                    contradictions_flagged: final(sweep).report().contradictions_flagged,
                    ..old(sweep).report()
                })
                &&& final(sweep).report().contradictions_flagged == old(sweep).queue().len()
                &&& all_carried_out(
                    *old(tables),
                    *final(tables),
                    agent,
                    org,
                    now,
                    old(sweep).queue(),
                )
            },
            Err(e) => failed(
                *old(tables),
                *final(tables),
                agent,
                org,
                now,
                old(sweep).queue(),
                e,
            ),
        },
{
    let ghost t = *tables;
    let ghost first = *sweep;
    let ghost plan = sweep.queue();
    proof {
        assert(plan.take(0) =~= Seq::<SweepAction>::empty());
    }
    loop
        invariant
            t == *old(tables),
            first == *old(sweep),
            plan == first.queue(),
            tables.wf(),
            tables.rows() == t.rows(),
            tables.journal() == t.journal(),
            sweep.wf(),
            sweep.queue() == plan,
            0 <= sweep.at() <= plan.len(),
            sweep.stage() == if sweep.at() == plan.len() {
                SweepStage::Over
            } else {
                SweepStage::Flagging
            },
            sweep.report() == (LibrarianSweepReport {
                contradictions_flagged: sweep.report().contradictions_flagged,
                ..first.report()
            }),
            sweep.report().contradictions_flagged == sweep.at(),
            all_carried_out(t, *tables, agent, org, now, plan.take(sweep.at())),
            forall|k: int| 0 <= k < plan.len() ==> (#[trigger] plan[k]) is Flag,
        ensures
            sweep.at() == plan.len(),
        decreases plan.len() - sweep.at(),
    {
        let action = sweep.next_action();
        match action {
            SweepAction::Flag { .. } => {},
            _ => {
                break;
            },
        }
        let ghost mid = *tables;
        let ghost n = sweep.at();
        match carry_out(tables, agent, org, now, &action) {
            Ok(_) => {},
            Err(e) => {
                assert(failed_at(t, mid, agent, org, now, plan, n, e));
                return Err(e);
            },
        }
        sweep.advance(SweepReply::Done);
        proof {
            lemma_one_more(t, mid, *tables, agent, org, now, plan, n);
        }
    }
    proof {
        assert(plan.take(plan.len() as int) =~= plan);
    }
    Ok(())
}

/// The first part of a sweep, on the pairs of duplicates that the store found:
/// merges them, decays the stale validations and meets the quota. Each action is
/// done or not; the first that fails ends the sweep.
pub fn settle_duplicates(
    sweep: &mut LibrarianSweep,
    tables: &mut MemoryTables,
    agent: AgentId,
    org: OrgId,
    now: Timestamp,
    duplicates: Vec<PairCandidate>,
) -> (r: Result<(), MemoryStoreError>)
    requires
        old(tables).wf(),
        old(sweep).wf(),
        old(sweep).stage() == SweepStage::Comparing,
    ensures
        final(tables).wf(),
        swept(*old(tables), *final(tables), agent),
        match r {
            Ok(_) => {
                &&& final(sweep).wf()
                &&& final(sweep).stage() == SweepStage::Contrasting
                &&& final(sweep).forgotten() == merge_forgets(duplicates@)
                &&& final(sweep).report().deduped == forget_count(merge_plan(duplicates@))
                &&& exists|merged: MemoryTables|
                    {
                        &&& all_carried_out(
                            *old(tables),
                            merged,
                            agent,
                            org,
                            now,
                            merge_plan(duplicates@),
                        )
                        &&& #[trigger] trimmed(
                            merged,
                            *final(tables),
                            agent,
                            old(sweep).cutoff(),
                            now,
                            final(sweep).report(),
                        )
                    }
                &&& within_quota(final(tables).rows(), agent)
                &&& all_gone(final(tables).rows(), merge_forgets(duplicates@))
            },
            Err(e) => {
                let merges = merge_plan(duplicates@);
                &&& settling_failed(
                    *old(tables),
                    *final(tables),
                    agent,
                    org,
                    now,
                    old(sweep).cutoff(),
                    merges,
                    e,
                )
                &&& merges.len() == 0 ==> !in_order(
                    old(tables).rows(),
                    agent,
                    old(sweep).cutoff(),
                )
            },
        },
{
    let ghost t = *tables;
    let ghost pairs = duplicates@;
    let ghost plan = merge_plan(pairs);
    proof {
        lemma_merge_plan(pairs);
    }
    sweep.advance(SweepReply::Pairs(duplicates));
    merge_all(sweep, tables, agent, org, now)?;
    let ghost merged = *tables;
    let cutoff = match sweep.next_action() {
        SweepAction::Decay { cutoff } => cutoff,
        _ => now,
    };
    let answer = trim(sweep, tables, agent, cutoff, now);
    proof {
        lemma_swept_twice(t, merged, *tables, agent);
        assert forall|k: int| 0 <= k < merge_forgets(pairs).len() implies find_row(
            tables.rows(),
            #[trigger] merge_forgets(pairs)[k],
        ) is None by {
            let id = merge_forgets(pairs)[k];
            lemma_merge_forgets(pairs, k);
            let i = choose|i: int|
                0 <= i < plan.len() && plan[i] == (SweepAction::Forget { memory: id });
            assert(plan[i] is Forget);
            assert(find_row(merged.rows(), id) is None);
            assert(spared(merged.rows(), tables.rows(), agent, id));
        }
    }
    answer
}

/// The second part, on the similar pairs that the store found after the first:
/// flags those that contradict each other. The sweep is over.
pub fn flag_contradictions(
    sweep: &mut LibrarianSweep,
    tables: &mut MemoryTables,
    agent: AgentId,
    org: OrgId,
    now: Timestamp,
    contradictions: Vec<PairCandidate>,
) -> (r: Result<LibrarianSweepReport, MemoryStoreError>)
    requires
        old(tables).wf(),
        old(sweep).wf(),
        old(sweep).stage() == SweepStage::Contrasting,
    ensures
        final(tables).wf(),
        final(tables).rows() == old(tables).rows(),
        final(tables).journal() == old(tables).journal(),
        ({
            let flags = flag_plan(contradictions@, old(sweep).forgotten());
            match r {
                Ok(report) => {
                    &&& report == (LibrarianSweepReport {
                        contradictions_flagged: report.contradictions_flagged,
                        ..old(sweep).report()
                    })
                    &&& report.contradictions_flagged == flags.len()
                    &&& all_carried_out(*old(tables), *final(tables), agent, org, now, flags)
                    &&& final(sweep).stage() == SweepStage::Over
                },
                Err(e) => failed(*old(tables), *final(tables), agent, org, now, flags, e),
            }
        }),
{
    proof {
        lemma_flag_plan(contradictions@, sweep.forgotten());
    }
    sweep.advance(SweepReply::Pairs(contradictions));
    flag_all(sweep, tables, agent, org, now)?;
    match sweep.next_action() {
        SweepAction::Finish(report) => Ok(report),
        _ => Ok(LibrarianSweepReport { deduped: 0, demoted: 0, evicted: 0, contradictions_flagged: 0 }),
    }
}

/// A whole sweep over the memories of `agent`, given what the store finds:
/// `duplicates` at its start, `contradictions` once the quota is met.
pub fn run_librarian_sweep(
    tables: &mut MemoryTables,
    agent: AgentId,
    org: OrgId,
    now: Timestamp,
    duplicates: Vec<PairCandidate>,
    contradictions: Vec<PairCandidate>,
) -> (r: Result<LibrarianSweepReport, MemoryStoreError>)
    requires
        old(tables).wf(),
        in_calendar(now@ - VALIDATION_DECAY_MICROS),
    ensures
        final(tables).wf(),
        swept(*old(tables), *final(tables), agent),
        exists|cutoff: Timestamp|
            {
                &&& #[trigger] cutoff@ == now@ - VALIDATION_DECAY_MICROS
                &&& match r {
                    Ok(report) => {
                        &&& swept_as(
                            *old(tables),
                            *final(tables),
                            agent,
                            org,
                            now,
                            cutoff,
                            duplicates@,
                            contradictions@,
                            report,
                        )
                        &&& within_quota(final(tables).rows(), agent)
                        &&& all_gone(final(tables).rows(), merge_forgets(duplicates@))
                    },
                    Err(e) => {
                        let merges = merge_plan(duplicates@);
                        let flags = flag_plan(contradictions@, merge_forgets(duplicates@));
                        &&& sweep_failed(
                            *old(tables),
                            *final(tables),
                            agent,
                            org,
                            now,
                            cutoff,
                            merges,
                            flags,
                            e,
                        )
                        &&& merges.len() == 0 && flags.len() == 0 ==> !in_order(
                            old(tables).rows(),
                            agent,
                            cutoff,
                        )
                    },
                }
            },
{
    let mut sweep = LibrarianSweep::start(now).unwrap();
    let ghost t = *tables;
    let ghost cutoff = sweep.cutoff();
    assert(cutoff@ == now@ - VALIDATION_DECAY_MICROS);
    settle_duplicates(&mut sweep, tables, agent, org, now, duplicates)?;
    let ghost settled = *tables;
    let ghost half = sweep.report();
    let answer = flag_contradictions(&mut sweep, tables, agent, org, now, contradictions);
    proof {
        lemma_nothing_swept(settled, *tables, agent);
        lemma_swept_twice(t, settled, *tables, agent);
        if answer is Ok {
            let report = answer->Ok_0;
            let merged = choose|merged: MemoryTables|
                {
                    &&& all_carried_out(t, merged, agent, org, now, merge_plan(duplicates@))
                    &&& #[trigger] trimmed(merged, settled, agent, cutoff, now, half)
                };
            lemma_trimmed_report(merged, settled, agent, cutoff, now, half, report);
        }
    }
    answer
}

/// Of a report, only the counts of what was decayed and evicted matter here.
proof fn lemma_trimmed_report(
    t: MemoryTables,
    u: MemoryTables,
    agent: AgentId,
    cutoff: Timestamp,
    now: Timestamp,
    half: LibrarianSweepReport,
    report: LibrarianSweepReport,
)
    requires
        trimmed(t, u, agent, cutoff, now, half),
        report.demoted == half.demoted,
        report.evicted == half.evicted,
    ensures
        trimmed(t, u, agent, cutoff, now, report),
{
    let (held_ids, gone_ids, order) = choose|
        held_ids: Seq<MemoryEventId>,
        gone_ids: Seq<MemoryEventId>,
        order: Seq<usize>,
    | #[trigger] trimmed_under(t, u, agent, cutoff, now, half, held_ids, gone_ids, order);
    assert(trimmed_under(t, u, agent, cutoff, now, report, held_ids, gone_ids, order));
}

/// A sweep does not begin where it may not: if the librarian may not touch the first
/// memory of the plan, that is the error, and nothing is done.
pub proof fn law_first_obstacle_ends_the_plan(
    t: MemoryTables,
    u: MemoryTables,
    agent: AgentId,
    org: OrgId,
    now: Timestamp,
    actions: Seq<SweepAction>,
    why: MemoryStoreError,
    e: MemoryStoreError,
)
    requires
        actions.len() > 0,
        obstacle(t.rows(), agent, actions[0]) == Some(why),
    ensures
        !all_carried_out(t, u, agent, org, now, actions),
        failed(t, u, agent, org, now, actions, e) ==> e == why && u.same(t),
{
    lemma_not_past_obstacle(t, u, agent, org, now, actions);
    if failed(t, u, agent, org, now, actions, e) {
        let (n, mid) = choose|n: int, mid: MemoryTables|
            #[trigger] failed_at(t, mid, agent, org, now, actions, n, e) && u.same(mid);
        if n > 0 {
            assert(actions.take(n)[0] == actions[0]);
            lemma_not_past_obstacle(t, mid, agent, org, now, actions.take(n));
        }
    }
}

proof fn lemma_not_past_obstacle(
    t: MemoryTables,
    u: MemoryTables,
    agent: AgentId,
    org: OrgId,
    now: Timestamp,
    actions: Seq<SweepAction>,
)
    requires
        actions.len() > 0,
        obstacle(t.rows(), agent, actions[0]) is Some,
    ensures
        !all_carried_out(t, u, agent, org, now, actions),
    decreases actions.len(),
{
    if all_carried_out(t, u, agent, org, now, actions) {
        let mid = choose|mid: MemoryTables|
            {
                &&& all_carried_out(t, mid, agent, org, now, actions.drop_last())
                &&& #[trigger] carried_out(mid, u, agent, org, now, actions.last())
            };
        if actions.len() > 1 {
            assert(actions.drop_last()[0] == actions[0]);
            lemma_not_past_obstacle(t, mid, agent, org, now, actions.drop_last());
        }
    }
}

/// A sweep that finds nothing to merge, to decay, to evict or to flag changes
/// nothing, and reports nothing. So a sweep can be run again at any time.
pub proof fn law_idle_sweep_changes_nothing(
    t: MemoryTables,
    u: MemoryTables,
    agent: AgentId,
    org: OrgId,
    now: Timestamp,
    cutoff: Timestamp,
    report: LibrarianSweepReport,
)
    requires
        in_order(t.rows(), agent, cutoff),
        swept_as(
            t,
            u,
            agent,
            org,
            now,
            cutoff,
            Seq::<PairCandidate>::empty(),
            Seq::<PairCandidate>::empty(),
            report,
        ),
    ensures
        u.same(t),
        report == (LibrarianSweepReport {
            deduped: 0,
            demoted: 0,
            evicted: 0,
            contradictions_flagged: 0,
        }),
{
    let none = Seq::<PairCandidate>::empty();
    let (merged, settled) = choose|merged: MemoryTables, settled: MemoryTables|
        {
            &&& all_carried_out(t, merged, agent, org, now, merge_plan(none))
            &&& #[trigger] trimmed(merged, settled, agent, cutoff, now, report)
            &&& all_carried_out(
                settled,
                u,
                agent,
                org,
                now,
                flag_plan(none, merge_forgets(none)),
            )
        };
    let (held_ids, gone_ids, order) = choose|
        held_ids: Seq<MemoryEventId>,
        gone_ids: Seq<MemoryEventId>,
        order: Seq<usize>,
    | #[trigger]
        trimmed_under(
            merged,
            settled,
            agent,
            cutoff,
            now,
            report,
            held_ids,
            gone_ids,
            order,
        );
    let rows = t.rows();
    let p = |r: MemoryRow| stale(r, agent, cutoff);
    let held = held_where(rows, p);
    assert(held =~= rows);
    lemma_filter_none(rows, p);
    let gone = victims(held, agent, MAX_MEMORIES_PER_AGENT, order);
    assert(gone.len() == 0);
    lemma_filter_all(rows, |r: MemoryRow| !has_id(gone, r.id));
    assert(settled.journal() =~= t.journal());
}

} // verus!
