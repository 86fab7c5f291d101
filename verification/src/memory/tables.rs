//! The memory tables held in process: the memory rows, the journal, the
//! contradictions and the validations, and every operation of the store on
//! them. One operation is one transaction: it takes place whole, or it is
//! refused and nothing changes.

use crate::db::DbFault;
use crate::ids::{AgentId, ContradictionEventId, MemoryEventId, MemoryId, OrgId, ValidationEventId};
use crate::memory::limits::{
    MAX_EVENTS_PER_PAGE, MAX_MEMORIES_PER_AGENT, MAX_SIMILAR_PAIRS_PER_AGENT,
};
use crate::memory::plan::{
    attrs_of, event_attrs, held_change, is_mature, is_stale, mature, mint_row, minted_row,
    mutation_change, mutation_target, pin_change, plan_held, plan_mutation, plan_revert,
    plan_set_pinned, plan_validation, removal, remove_row, revert_change, stale, validation_change,
    Change, RestoredAttrs, RowEffect,
};
use crate::memory::store::{
    ContradictionEventRow, MemoryEvent, MemoryEventPayload, MemoryMutation, MemoryRow,
    MemoryStoreError, MutationOutcome, MutationSource, ResolutionOutcome, ValidationEventRow,
    ValidationOrigin,
};
use crate::memory::types::MemoryState;
use crate::seqs::{
    lemma_filter_all, lemma_filter_filter, lemma_filter_prefix_len, lemma_filter_step,
};
use crate::sort::{goes_before, sort_positions, stable_order, SortKey};
use crate::time::Timestamp;
use vstd::prelude::*;

verus! {

/// The row of the memory `id`.
pub open spec fn find_row(rows: Seq<MemoryRow>, id: MemoryId) -> Option<MemoryRow>
    decreases rows.len(),
{
    if rows.len() == 0 {
        None
    } else if rows.last().id == id {
        Some(rows.last())
    } else {
        find_row(rows.drop_last(), id)
    }
}

/// The journal event `id`.
pub open spec fn find_event(events: Seq<MemoryEvent>, id: MemoryEventId) -> Option<MemoryEvent>
    decreases events.len(),
{
    if events.len() == 0 {
        None
    } else if events.last().id == id {
        Some(events.last())
    } else {
        find_event(events.drop_last(), id)
    }
}

/// No two rows share an id.
pub open spec fn distinct_rows(rows: Seq<MemoryRow>) -> bool {
    forall|i: int, j: int| 0 <= i < j < rows.len() ==> #[trigger] rows[i].id != #[trigger] rows[j].id
}

/// No two events share an id.
pub open spec fn distinct_events(events: Seq<MemoryEvent>) -> bool {
    forall|i: int, j: int|
        0 <= i < j < events.len() ==> #[trigger] events[i].id != #[trigger] events[j].id
}

/// `rows` with `row` in the place of the row that has its id.
pub open spec fn put_row(rows: Seq<MemoryRow>, row: MemoryRow) -> Seq<MemoryRow> {
    rows.map_values(
        |r: MemoryRow|
            if r.id == row.id {
                row
            } else {
                r
            },
    )
}

/// `rows` without the row of the memory `id`.
pub open spec fn without_row(rows: Seq<MemoryRow>, id: MemoryId) -> Seq<MemoryRow> {
    rows.filter(|r: MemoryRow| r.id != id)
}

/// The memory table after `effect`.
pub open spec fn after_effect(rows: Seq<MemoryRow>, effect: RowEffect) -> Seq<MemoryRow> {
    match effect {
        RowEffect::Insert(row) => rows.push(row),
        RowEffect::InsertIfAbsent(row) => if find_row(rows, row.id) is Some {
            rows
        } else {
            rows.push(row)
        },
        RowEffect::Put(row) => put_row(rows, row),
        RowEffect::Remove(id) => without_row(rows, id),
    }
}

/// The effect runs into a row that is already there.
pub open spec fn clashes(rows: Seq<MemoryRow>, effect: RowEffect) -> bool {
    effect matches RowEffect::Insert(row) && find_row(rows, row.id) is Some
}

/// A row is found exactly when one has the id, and it is that one.
pub proof fn lemma_find_row(rows: Seq<MemoryRow>, id: MemoryId)
    ensures
        match find_row(rows, id) {
            Some(r) => r.id == id && exists|i: int| 0 <= i < rows.len() && #[trigger] rows[i] == r,
            None => forall|i: int| 0 <= i < rows.len() ==> #[trigger] rows[i].id != id,
        },
    decreases rows.len(),
{
    if rows.len() > 0 {
        if rows.last().id == id {
            assert(rows[rows.len() - 1] == rows.last());
        } else {
            lemma_find_row(rows.drop_last(), id);
            match find_row(rows.drop_last(), id) {
                Some(r) => {
                    let i = choose|i: int|
                        0 <= i < rows.drop_last().len() && #[trigger] rows.drop_last()[i] == r;
                    assert(rows[i] == r);
                },
                None => {
                    assert forall|i: int| 0 <= i < rows.len() implies #[trigger] rows[i].id
                        != id by {
                        if i < rows.len() - 1 {
                            assert(rows.drop_last()[i].id != id);
                        }
                    }
                },
            }
        }
    }
}

/// Among distinct rows the one at a position is the one found by its id.
pub proof fn lemma_find_at(rows: Seq<MemoryRow>, i: int)
    requires
        distinct_rows(rows),
        0 <= i < rows.len(),
    ensures
        find_row(rows, rows[i].id) == Some(rows[i]),
{
    lemma_find_row(rows, rows[i].id);
    let r = find_row(rows, rows[i].id)->0;
    let j = choose|j: int| 0 <= j < rows.len() && #[trigger] rows[j] == r;
    if i < j {
        assert(rows[i].id != rows[j].id);
    } else if j < i {
        assert(rows[j].id != rows[i].id);
    }
}

/// An event is found exactly when one has the id, and it is that one.
pub proof fn lemma_find_event(events: Seq<MemoryEvent>, id: MemoryEventId)
    ensures
        match find_event(events, id) {
            Some(e) => e.id == id && exists|i: int|
                0 <= i < events.len() && #[trigger] events[i] == e,
            None => forall|i: int| 0 <= i < events.len() ==> #[trigger] events[i].id != id,
        },
    decreases events.len(),
{
    if events.len() > 0 {
        if events.last().id == id {
            assert(events[events.len() - 1] == events.last());
        } else {
            lemma_find_event(events.drop_last(), id);
            match find_event(events.drop_last(), id) {
                Some(e) => {
                    let i = choose|i: int|
                        0 <= i < events.drop_last().len() && #[trigger] events.drop_last()[i] == e;
                    assert(events[i] == e);
                },
                None => {
                    assert forall|i: int| 0 <= i < events.len() implies #[trigger] events[i].id
                        != id by {
                        if i < events.len() - 1 {
                            assert(events.drop_last()[i].id != id);
                        }
                    }
                },
            }
        }
    }
}

/// Filtering keeps rows distinct.
pub proof fn lemma_filter_distinct(rows: Seq<MemoryRow>, p: spec_fn(MemoryRow) -> bool)
    requires
        distinct_rows(rows),
    ensures
        distinct_rows(rows.filter(p)),
        forall|i: int| 0 <= i < rows.filter(p).len() ==> p(#[trigger] rows.filter(p)[i])
            && rows.contains(rows.filter(p)[i]),
    decreases rows.len(),
{
    reveal(Seq::filter);
    if rows.len() > 0 {
        let rest = rows.drop_last();
        lemma_filter_distinct(rest, p);
        assert forall|i: int| 0 <= i < rows.filter(p).len() implies p(
            #[trigger] rows.filter(p)[i],
        ) && rows.contains(rows.filter(p)[i]) by {
            if i < rest.filter(p).len() {
                assert(rest.contains(rest.filter(p)[i]));
                let k = choose|k: int| 0 <= k < rest.len() && rest[k] == rest.filter(p)[i];
                assert(rows[k] == rows.filter(p)[i]);
            } else {
                assert(rows[rows.len() - 1] == rows.filter(p)[i]);
            }
        }
        if p(rows.last()) {
            assert forall|i: int, j: int| 0 <= i < j < rows.filter(p).len() implies #[trigger] rows.filter(
            p)[i].id != #[trigger] rows.filter(p)[j].id by {
                if j == rows.filter(p).len() - 1 {
                    assert(rest.contains(rest.filter(p)[i]));
                    let k = choose|k: int| 0 <= k < rest.len() && rest[k] == rest.filter(p)[i];
                    assert(rows[k].id != rows[rows.len() - 1].id);
                }
            }
        }
    }
}

/// An effect that does not clash keeps rows distinct.
pub proof fn lemma_effect_distinct(rows: Seq<MemoryRow>, effect: RowEffect)
    requires
        distinct_rows(rows),
        !clashes(rows, effect),
    ensures
        distinct_rows(after_effect(rows, effect)),
{
    match effect {
        RowEffect::Insert(row) => lemma_find_row(rows, row.id),
        RowEffect::InsertIfAbsent(row) => lemma_find_row(rows, row.id),
        RowEffect::Put(row) => {},
        RowEffect::Remove(id) => lemma_filter_distinct(rows, |r: MemoryRow| r.id != id),
    }
}

/// Position of the row of the memory `id`.
fn position_of(rows: &Vec<MemoryRow>, id: MemoryId) -> (p: Option<usize>)
    requires
        distinct_rows(rows@),
    ensures
        match p {
            Some(i) => i < rows@.len() && rows@[i as int].id == id && find_row(rows@, id) == Some(
                rows@[i as int],
            ),
            None => find_row(rows@, id) is None,
        },
{
    let mut i: usize = 0;
    while i < rows.len()
        invariant
            i <= rows@.len(),
            distinct_rows(rows@),
            forall|j: int| 0 <= j < i ==> #[trigger] rows@[j].id != id,
        decreases rows.len() - i,
    {
        if rows[i].id == id {
            proof {
                lemma_find_at(rows@, i as int);
            }
            return Some(i);
        }
        i += 1;
    }
    proof {
        lemma_find_row(rows@, id);
    }
    None
}

/// Carries out `effect` on the memory table.
fn carry_out(rows: &mut Vec<MemoryRow>, effect: RowEffect)
    requires
        distinct_rows(old(rows)@),
        !clashes(old(rows)@, effect),
    ensures
        final(rows)@ == after_effect(old(rows)@, effect),
        distinct_rows(final(rows)@),
{
    proof {
        lemma_effect_distinct(rows@, effect);
    }
    match effect {
        RowEffect::Insert(row) => {
            rows.push(row);
        },
        RowEffect::InsertIfAbsent(row) => {
            if position_of(rows, row.id).is_none() {
                rows.push(row);
            }
        },
        RowEffect::Put(row) => {
            let ghost before = rows@;
            match position_of(rows, row.id) {
                Some(i) => {
                    rows.set(i, row);
                    proof {
                        assert forall|j: int| 0 <= j < before.len() implies #[trigger] rows@[j]
                            == put_row(before, row)[j] by {
                            if j < i {
                                assert(before[j].id != before[i as int].id);
                            } else if j > i {
                                assert(before[i as int].id != before[j].id);
                            }
                        }
                        assert(rows@ =~= put_row(before, row));
                    }
                },
                None => {
                    proof {
                        lemma_find_row(before, row.id);
                        assert(rows@ =~= put_row(before, row));
                    }
                },
            }
        },
        RowEffect::Remove(id) => {
            let ghost before = rows@;
            match position_of(rows, id) {
                Some(i) => {
                    rows.remove(i);
                    proof {
                        lemma_remove_is_filter(before, i as int);
                    }
                },
                None => {
                    proof {
                        lemma_find_row(before, id);
                        lemma_filter_all(before, |r: MemoryRow| r.id != id);
                    }
                },
            }
        },
    }
}

proof fn lemma_remove_is_filter(rows: Seq<MemoryRow>, i: int)
    requires
        distinct_rows(rows),
        0 <= i < rows.len(),
    ensures
        rows.remove(i) == without_row(rows, rows[i].id),
    decreases rows.len(),
{
    let id = rows[i].id;
    let p = |r: MemoryRow| r.id != id;
    reveal(Seq::filter);
    let rest = rows.drop_last();
    if i == rows.len() - 1 {
        assert forall|j: int| 0 <= j < rest.len() implies p(#[trigger] rest[j]) by {
            assert(rows[j].id != rows[i].id);
        }
        lemma_filter_all(rest, p);
        assert(rows.remove(i) =~= rest);
    } else {
        lemma_remove_is_filter(rest, i);
        assert(rows[i].id != rows[rows.len() - 1].id);
        assert(rows.remove(i) =~= rest.remove(i).push(rows.last()));
    }
}

/// The memory tables.
#[derive(Debug)]
pub struct MemoryTables {
    rows: Vec<MemoryRow>,
    events: Vec<MemoryEvent>,
    contradictions: Vec<ContradictionEventRow>,
    validations: Vec<ValidationEventRow>,
}

/// An open contradiction between the memories `a` and `b` of `agent`.
pub open spec fn open_between(
    c: ContradictionEventRow,
    agent: AgentId,
    a: MemoryId,
    b: MemoryId,
) -> bool {
    c.agent_id == agent && c.memory_a == a && c.memory_b == b && c.resolved_at is None
}

/// No contradiction is open twice, and no two share an id.
pub open spec fn distinct_contradictions(cs: Seq<ContradictionEventRow>) -> bool {
    forall|i: int, j: int|
        0 <= i < j < cs.len() ==> (#[trigger] cs[i]).id != (#[trigger] cs[j]).id && !(open_between(
            cs[i],
            cs[j].agent_id,
            cs[j].memory_a,
            cs[j].memory_b,
        ) && cs[j].resolved_at is None)
}

impl MemoryTables {
    /// The memory rows.
    pub closed spec fn rows(self) -> Seq<MemoryRow> {
        self.rows@
    }

    /// The journal, in the order in which it was appended to.
    pub closed spec fn journal(self) -> Seq<MemoryEvent> {
        self.events@
    }

    /// The flagged contradictions.
    pub closed spec fn contradictions(self) -> Seq<ContradictionEventRow> {
        self.contradictions@
    }

    /// The recorded validations.
    pub closed spec fn validations(self) -> Seq<ValidationEventRow> {
        self.validations@
    }

    /// Ids are unique in each table, and no pair is flagged twice at once.
    pub open spec fn wf(self) -> bool {
        &&& distinct_rows(self.rows())
        &&& distinct_events(self.journal())
        &&& distinct_contradictions(self.contradictions())
    }

    /// Nothing changed.
    pub open spec fn same(self, other: MemoryTables) -> bool {
        &&& self.rows() == other.rows()
        &&& self.journal() == other.journal()
        &&& self.contradictions() == other.contradictions()
        &&& self.validations() == other.validations()
    }

    /// The rows and the journal may have changed, and nothing else.
    pub open spec fn same_aside(self, other: MemoryTables) -> bool {
        &&& self.contradictions() == other.contradictions()
        &&& self.validations() == other.validations()
    }

    /// `change` was journaled and carried out, and nothing else happened.
    pub open spec fn took(self, old: MemoryTables, change: Change) -> bool {
        &&& self.journal() == old.journal().push(change.event)
        &&& self.rows() == after_effect(old.rows(), change.effect)
        &&& self.same_aside(old)
    }

    /// `change` runs into an event or a row that is already there.
    pub open spec fn rejects(self, change: Change) -> bool {
        find_event(self.journal(), change.event.id) is Some || clashes(self.rows(), change.effect)
    }

    /// Empty tables.
    pub fn new() -> (t: MemoryTables)
        ensures
            t.wf(),
            t.rows() == Seq::<MemoryRow>::empty(),
            t.journal() == Seq::<MemoryEvent>::empty(),
            t.contradictions() == Seq::<ContradictionEventRow>::empty(),
            t.validations() == Seq::<ValidationEventRow>::empty(),
    {
        MemoryTables {
            rows: Vec::new(),
            events: Vec::new(),
            contradictions: Vec::new(),
            validations: Vec::new(),
        }
    }

    /// How many rows there are, of all agents.
    pub fn size(&self) -> (n: usize)
        ensures
            n == self.rows().len(),
    {
        self.rows.len()
    }

    /// The row of the memory `id`: none once it is forgotten.
    pub fn get(&self, id: MemoryId) -> (r: Option<MemoryRow>)
        requires
            self.wf(),
        ensures
            r == find_row(self.rows(), id),
    {
        match position_of(&self.rows, id) {
            Some(i) => Some(self.rows[i].clone()),
            None => None,
        }
    }

    /// The journal event `id`.
    fn event(&self, id: MemoryEventId) -> (r: Option<MemoryEvent>)
        ensures
            r == find_event(self.journal(), id),
    {
        let mut i: usize = self.events.len();
        proof {
            assert(self.events@.take(self.events@.len() as int) =~= self.events@);
        }
        while i > 0
            invariant
                i <= self.events@.len(),
                find_event(self.events@, id) == find_event(self.events@.take(i as int), id),
            decreases i,
        {
            proof {
                assert(self.events@.take(i as int).drop_last() =~= self.events@.take(i - 1));
                assert(self.events@.take(i as int).last() == self.events@[i - 1]);
            }
            if self.events[i - 1].id == id {
                return Some(self.events[i - 1].clone());
            }
            i -= 1;
        }
        None
    }

    /// Journals `change` and carries it out, unless an id of it is taken.
    pub fn commit(&mut self, change: Change) -> (r: Result<(), MemoryStoreError>)
        requires
            old(self).wf(),
        ensures
            final(self).wf(),
            match r {
                Ok(_) => !old(self).rejects(change) && final(self).took(*old(self), change),
                Err(e) => old(self).rejects(change) && final(self).same(*old(self)) && e
                    == MemoryStoreError::Db(DbFault::DuplicateKey),
            },
    {
        if self.event(change.event.id).is_some() {
            return Err(MemoryStoreError::Db(DbFault::DuplicateKey));
        }
        if let RowEffect::Insert(row) = &change.effect {
            if position_of(&self.rows, row.id).is_some() {
                return Err(MemoryStoreError::Db(DbFault::DuplicateKey));
            }
        }
        proof {
            lemma_find_event(self.events@, change.event.id);
        }
        self.events.push(change.event);
        carry_out(&mut self.rows, change.effect);
        Ok(())
    }

    /// Applies a mutation under given fresh ids: the only way in which memory
    /// changes at an agent's, an operator's or the librarian's wish.
    pub fn apply_with(
        &mut self,
        m: MemoryMutation,
        fresh: MemoryId,
        event_id: MemoryEventId,
        org: OrgId,
        now: Timestamp,
    ) -> (r: Result<MutationOutcome, MemoryStoreError>)
        requires
            old(self).wf(),
        ensures
            final(self).wf(),
            ({
                let target = mutation_target(m, fresh);
                let planned = mutation_change(
                    m,
                    find_row(old(self).rows(), target),
                    fresh,
                    event_id,
                    org,
                    now,
                );
                match r {
                    Ok(out) => planned is Ok && !old(self).rejects(planned->Ok_0) && final(self).took(*old(self), planned->Ok_0) && out.event_id == event_id && out.memory_id
                        == target && out.row == find_row(final(self).rows(), target),
                    Err(e) => final(self).same(*old(self)) && match planned {
                        Err(why) => e == why,
                        Ok(c) => old(self).rejects(c) && e == MemoryStoreError::Db(
                            DbFault::DuplicateKey,
                        ),
                    },
                }
            }),
    {
        let target = match &m {
            MemoryMutation::Write { .. } => fresh,
            MemoryMutation::Update { target, .. } => *target,
            MemoryMutation::Forget { target, .. } => *target,
        };
        let row = self.get(target);
        match plan_mutation(m, row, fresh, event_id, org, now) {
            Err(e) => Err(e),
            Ok(change) => match self.commit(change) {
                Err(e) => Err(e),
                Ok(_) => Ok(
                    MutationOutcome { event_id, memory_id: target, row: self.get(target) },
                ),
            },
        }
    }

    /// Applies a mutation under ids drawn at random. Whatever they are, the
    /// outcome names them.
    pub fn apply(&mut self, m: MemoryMutation, org: OrgId, now: Timestamp) -> (r: Result<
        MutationOutcome,
        MemoryStoreError,
    >)
        requires
            old(self).wf(),
        ensures
            final(self).wf(),
            match r {
                Ok(out) => {
                    let planned = mutation_change(
                        m,
                        find_row(old(self).rows(), out.memory_id),
                        out.memory_id,
                        out.event_id,
                        org,
                        now,
                    );
                    planned is Ok && final(self).took(*old(self), planned->Ok_0)
                        && mutation_target(m, out.memory_id) == out.memory_id && out.row
                        == find_row(final(self).rows(), out.memory_id)
                },
                Err(e) => final(self).same(*old(self)) && exists|
                    fresh: MemoryId,
                    event_id: MemoryEventId,
                | match #[trigger] mutation_change(
                    m,
                    find_row(old(self).rows(), mutation_target(m, fresh)),
                    fresh,
                    event_id,
                    org,
                    now,
                ) {
                    Err(why) => e == why,
                    Ok(c) => old(self).rejects(c) && e == MemoryStoreError::Db(
                        DbFault::DuplicateKey,
                    ),
                },
            },
    {
        let fresh = MemoryId::new();
        let event_id = MemoryEventId::new();
        self.apply_with(m, fresh, event_id, org, now)
    }

    /// Pins or unpins a memory. An operator's act.
    pub fn set_pinned(
        &mut self,
        agent: AgentId,
        memory: MemoryId,
        pinned: bool,
        event_id: MemoryEventId,
        now: Timestamp,
    ) -> (r: Result<MemoryRow, MemoryStoreError>)
        requires
            old(self).wf(),
        ensures
            final(self).wf(),
            ({
                let planned = pin_change(
                    find_row(old(self).rows(), memory),
                    event_id,
                    agent,
                    memory,
                    pinned,
                    now,
                );
                match r {
                    Ok(row) => planned is Ok && final(self).took(*old(self), planned->Ok_0)
                        && Some(row) == find_row(final(self).rows(), memory),
                    Err(e) => final(self).same(*old(self)) && match planned {
                        Err(why) => e == why,
                        Ok(c) => old(self).rejects(c) && e == MemoryStoreError::Db(
                            DbFault::DuplicateKey,
                        ),
                    },
                }
            }),
    {
        let ghost rows = self.rows@;
        let row = self.get(memory);
        match plan_set_pinned(row, event_id, agent, memory, pinned, now) {
            Err(e) => Err(e),
            Ok(change) => {
                proof {
                    lemma_find_row(rows, memory);
                    lemma_find_put(rows, change.effect->Put_0);
                }
                match self.commit(change) {
                    Err(e) => Err(e),
                    Ok(_) => Ok(self.get(memory).unwrap()),
                }
            },
        }
    }

    /// Records that `origin` confirmed a memory: the validation itself, and the
    /// promotion that it brings.
    pub fn record_validation(
        &mut self,
        agent: AgentId,
        memory: MemoryId,
        origin: ValidationOrigin,
        detail: Option<String>,
        validation_id: ValidationEventId,
        event_id: MemoryEventId,
        now: Timestamp,
    ) -> (r: Result<MemoryRow, MemoryStoreError>)
        requires
            old(self).wf(),
        ensures
            final(self).wf(),
            ({
                let planned = validation_change(
                    find_row(old(self).rows(), memory),
                    event_id,
                    agent,
                    memory,
                    origin.journal_source(),
                    now,
                );
                match r {
                    Ok(row) => planned is Ok && final(self).journal() == old(self).journal().push(
                        planned->Ok_0.event,
                    ) && final(self).rows() == after_effect(
                        old(self).rows(),
                        planned->Ok_0.effect,
                    ) && final(self).contradictions() == old(self).contradictions() && final(self).validations() == old(self).validations().push(
                        ValidationEventRow {
                            id: validation_id,
                            agent_id: agent,
                            org_id: row.org_id,
                            memory_id: memory,
                            source: origin.signal().label(),
                            detail,
                            created_at: now,
                        },
                    ) && Some(row) == find_row(final(self).rows(), memory),
                    Err(e) => final(self).same(*old(self)) && match planned {
                        Err(why) => e == why,
                        Ok(c) => old(self).rejects(c) && e == MemoryStoreError::Db(
                            DbFault::DuplicateKey,
                        ),
                    },
                }
            }),
    {
        self.validate_as(
            agent,
            memory,
            origin.mutation_source(),
            origin.source().as_str(),
            detail,
            validation_id,
            event_id,
            now,
        )
    }

    /// Records a validation under an explicit journal source and wire label.
    pub fn validate_as(
        &mut self,
        agent: AgentId,
        memory: MemoryId,
        source: MutationSource,
        label: &'static str,
        detail: Option<String>,
        validation_id: ValidationEventId,
        event_id: MemoryEventId,
        now: Timestamp,
    ) -> (r: Result<MemoryRow, MemoryStoreError>)
        requires
            old(self).wf(),
        ensures
            final(self).wf(),
            ({
                let planned = validation_change(
                    find_row(old(self).rows(), memory),
                    event_id,
                    agent,
                    memory,
                    source,
                    now,
                );
                match r {
                    Ok(row) => planned is Ok && final(self).journal() == old(self).journal().push(
                        planned->Ok_0.event,
                    ) && final(self).rows() == after_effect(
                        old(self).rows(),
                        planned->Ok_0.effect,
                    ) && final(self).contradictions() == old(self).contradictions() && final(self).validations() == old(self).validations().push(
                        ValidationEventRow {
                            id: validation_id,
                            agent_id: agent,
                            org_id: row.org_id,
                            memory_id: memory,
                            source: label,
                            detail,
                            created_at: now,
                        },
                    ) && Some(row) == find_row(final(self).rows(), memory),
                    Err(e) => final(self).same(*old(self)) && match planned {
                        Err(why) => e == why,
                        Ok(c) => old(self).rejects(c) && e == MemoryStoreError::Db(
                            DbFault::DuplicateKey,
                        ),
                    },
                }
            }),
    {
        let ghost rows = self.rows@;
        let row = self.get(memory);
        match plan_validation(row, event_id, agent, memory, source, now) {
            Err(e) => Err(e),
            Ok(change) => {
                proof {
                    lemma_find_row(rows, memory);
                    lemma_find_put(rows, change.effect->Put_0);
                }
                match self.commit(change) {
                    Err(e) => Err(e),
                    Ok(_) => {
                        let next = self.get(memory).unwrap();
                        self.validations.push(
                            ValidationEventRow {
                                id: validation_id,
                                agent_id: agent,
                                org_id: next.org_id,
                                memory_id: memory,
                                source: label,
                                detail,
                                created_at: now,
                            },
                        );
                        Ok(next)
                    },
                }
            },
        }
    }
}

/// What was put in the place of a row is found there.
pub proof fn lemma_find_put(rows: Seq<MemoryRow>, next: MemoryRow)
    requires
        find_row(rows, next.id) is Some,
    ensures
        find_row(put_row(rows, next), next.id) == Some(next),
    decreases rows.len(),
{
    if rows.len() > 0 {
        let put = put_row(rows, next);
        assert(put.drop_last() =~= put_row(rows.drop_last(), next));
        if rows.last().id != next.id {
            lemma_find_put(rows.drop_last(), next);
        }
    }
}

/// `e` was journaled after `p`: by time, and by id at the same instant.
pub open spec fn journaled_after(e: MemoryEvent, p: MemoryEvent) -> bool {
    e.created_at@ > p.created_at@ || (e.created_at@ == p.created_at@ && e.id.0 > p.id.0)
}

/// An event of `agent` that leaves the memory `target` with attributes.
pub open spec fn carries_attrs(e: MemoryEvent, agent: AgentId, target: MemoryId) -> bool {
    e.agent_id == agent && e.target_memory_id == target && event_attrs(e) is Some
}

/// The latest event of `agent` that left the memory `target` with attributes.
pub open spec fn latest_attrs_event(
    events: Seq<MemoryEvent>,
    agent: AgentId,
    target: MemoryId,
) -> Option<MemoryEvent>
    decreases events.len(),
{
    if events.len() == 0 {
        None
    } else {
        let e = events.last();
        let p = latest_attrs_event(events.drop_last(), agent, target);
        if carries_attrs(e, agent, target) && (p is None || journaled_after(e, p->0)) {
            Some(e)
        } else {
            p
        }
    }
}

/// The attributes last journaled for the memory `target` of `agent`.
pub open spec fn restored_attrs(
    events: Seq<MemoryEvent>,
    agent: AgentId,
    target: MemoryId,
) -> Option<RestoredAttrs> {
    match latest_attrs_event(events, agent, target) {
        Some(e) => event_attrs(e),
        None => None,
    }
}

/// The attributes last journaled for the memory `target` of `agent`.
pub fn restore_attrs_for(events: &Vec<MemoryEvent>, agent: AgentId, target: MemoryId) -> (r: Option<
    RestoredAttrs,
>)
    ensures
        r == restored_attrs(events@, agent, target),
{
    let mut best: Option<usize> = None;
    let mut i: usize = 0;
    while i < events.len()
        invariant
            i <= events@.len(),
            match best {
                Some(b) => b < i && latest_attrs_event(events@.take(i as int), agent, target)
                    == Some(events@[b as int]),
                None => latest_attrs_event(events@.take(i as int), agent, target) is None,
            },
        decreases events.len() - i,
    {
        proof {
            assert(events@.take(i + 1).drop_last() =~= events@.take(i as int));
            assert(events@.take(i + 1).last() == events@[i as int]);
        }
        let e = &events[i];
        if e.agent_id == agent && e.target_memory_id == target && attrs_of(e).is_some() {
            let later = match best {
                None => true,
                Some(b) => is_after(e, &events[b]),
            };
            if later {
                best = Some(i);
            }
        }
        i += 1;
    }
    proof {
        assert(events@.take(events@.len() as int) =~= events@);
    }
    match best {
        Some(b) => attrs_of(&events[b]),
        None => None,
    }
}

/// An event before `evt` that left the memory of `evt` with attributes.
pub open spec fn carries_prior(e: MemoryEvent, evt: MemoryEvent) -> bool {
    carries_attrs(e, evt.agent_id, evt.target_memory_id) && journaled_after(evt, e)
}

/// The latest event before `evt` that left the memory of `evt` with attributes.
pub open spec fn latest_prior_event(events: Seq<MemoryEvent>, evt: MemoryEvent) -> Option<
    MemoryEvent,
>
    decreases events.len(),
{
    if events.len() == 0 {
        None
    } else {
        let e = events.last();
        let p = latest_prior_event(events.drop_last(), evt);
        if carries_prior(e, evt) && (p is None || journaled_after(e, p->0)) {
            Some(e)
        } else {
            p
        }
    }
}

/// The attributes that the memory of `evt` had just before `evt`.
pub open spec fn prior_attrs(events: Seq<MemoryEvent>, evt: MemoryEvent) -> Option<RestoredAttrs> {
    match latest_prior_event(events, evt) {
        Some(e) => event_attrs(e),
        None => None,
    }
}

fn is_after(e: &MemoryEvent, p: &MemoryEvent) -> (r: bool)
    ensures
        r == journaled_after(*e, *p),
{
    e.created_at.micros() > p.created_at.micros() || (e.created_at.micros()
        == p.created_at.micros() && e.id.0 > p.id.0)
}

/// The attributes that the memory of `evt` had just before `evt`.
pub fn attrs_before(events: &Vec<MemoryEvent>, evt: &MemoryEvent) -> (r: Option<RestoredAttrs>)
    ensures
        r == prior_attrs(events@, *evt),
{
    let mut best: Option<usize> = None;
    let mut i: usize = 0;
    while i < events.len()
        invariant
            i <= events@.len(),
            match best {
                Some(b) => b < i && latest_prior_event(events@.take(i as int), *evt) == Some(
                    events@[b as int],
                ),
                None => latest_prior_event(events@.take(i as int), *evt) is None,
            },
        decreases events.len() - i,
    {
        proof {
            assert(events@.take(i + 1).drop_last() =~= events@.take(i as int));
            assert(events@.take(i + 1).last() == events@[i as int]);
        }
        let e = &events[i];
        if e.agent_id == evt.agent_id && e.target_memory_id == evt.target_memory_id && attrs_of(
            e,
        ).is_some() && is_after(evt, e) {
            let later = match best {
                None => true,
                Some(b) => is_after(e, &events[b]),
            };
            if later {
                best = Some(i);
            }
        }
        i += 1;
    }
    proof {
        assert(events@.take(events@.len() as int) =~= events@);
    }
    match best {
        Some(b) => attrs_of(&events[b]),
        None => None,
    }
}

/// The journal event `id`, where it is one of `agent`.
pub open spec fn event_of(events: Seq<MemoryEvent>, agent: AgentId, id: MemoryEventId) -> Option<
    MemoryEvent,
> {
    match find_event(events, id) {
        Some(e) => if e.agent_id == agent {
            Some(e)
        } else {
            None
        },
        None => None,
    }
}

/// The attributes that undoing `evt` gives back to its memory: for an update those
/// from before it, for a removal those that were last journaled.
pub open spec fn attrs_to_restore(events: Seq<MemoryEvent>, evt: MemoryEvent) -> Option<
    RestoredAttrs,
> {
    if evt.payload is Update {
        prior_attrs(events, evt)
    } else {
        restored_attrs(events, evt.agent_id, evt.target_memory_id)
    }
}

/// The attributes that undoing `evt` gives back to its memory.
pub fn find_attrs_to_restore(events: &Vec<MemoryEvent>, evt: &MemoryEvent) -> (r: Option<
    RestoredAttrs,
>)
    ensures
        r == attrs_to_restore(events@, *evt),
{
    match &evt.payload {
        MemoryEventPayload::Update { .. } => attrs_before(events, evt),
        _ => restore_attrs_for(events, evt.agent_id, evt.target_memory_id),
    }
}

/// The change that reverting the journal event `event` of `agent` makes.
pub open spec fn reversal(
    t: MemoryTables,
    agent: AgentId,
    event: MemoryEventId,
    event_id: MemoryEventId,
    now: Timestamp,
) -> Result<Change, MemoryStoreError> {
    match event_of(t.journal(), agent, event) {
        None => Err(MemoryStoreError::EventNotFound { id: event }),
        Some(evt) => revert_change(
            evt,
            find_row(t.rows(), evt.target_memory_id),
            attrs_to_restore(t.journal(), evt),
            event_id,
            now,
        ),
    }
}

/// Ids that the journal can take: new to it, and no two alike.
pub open spec fn fresh_ids(events: Seq<MemoryEvent>, ids: Seq<MemoryEventId>) -> bool {
    &&& forall|i: int| 0 <= i < ids.len() ==> find_event(events, #[trigger] ids[i]) is None
    &&& forall|i: int, j: int| 0 <= i < j < ids.len() ==> #[trigger] ids[i] != #[trigger] ids[j]
}

/// The events by which the rows that meet `p` are brought to the state held.
pub open spec fn held_events(
    rows: Seq<MemoryRow>,
    p: spec_fn(MemoryRow) -> bool,
    ids: Seq<MemoryEventId>,
    now: Timestamp,
) -> Seq<MemoryEvent> {
    let hits = rows.filter(p);
    Seq::new(hits.len(), |k: int| held_change(hits[k], ids[k], now).event)
}

/// The rows, those that meet `p` brought to the state held.
pub open spec fn held_where(rows: Seq<MemoryRow>, p: spec_fn(MemoryRow) -> bool) -> Seq<MemoryRow> {
    rows.map_values(
        |r: MemoryRow|
            if p(r) {
                MemoryRow { state: MemoryState::Held, ..r }
            } else {
                r
            },
    )
}

/// An open contradiction names the memory `id`.
pub open spec fn disputed(cs: Seq<ContradictionEventRow>, id: MemoryId) -> bool {
    exists|i: int|
        0 <= i < cs.len() && (#[trigger] cs[i]).resolved_at is None && (cs[i].memory_a == id
            || cs[i].memory_b == id)
}

/// Among distinct rows a put changes one position.
pub proof fn lemma_put_is_update(rows: Seq<MemoryRow>, i: int, next: MemoryRow)
    requires
        distinct_rows(rows),
        0 <= i < rows.len(),
        next.id == rows[i].id,
    ensures
        put_row(rows, next) == rows.update(i, next),
{
    assert forall|j: int| 0 <= j < rows.len() implies #[trigger] put_row(rows, next)[j]
        == rows.update(i, next)[j] by {
        if j < i {
            assert(rows[j].id != rows[i].id);
        } else if i < j {
            assert(rows[i].id != rows[j].id);
        }
    }
    assert(put_row(rows, next) =~= rows.update(i, next));
}

proof fn lemma_find_event_concat(a: Seq<MemoryEvent>, b: Seq<MemoryEvent>, id: MemoryEventId)
    requires
        find_event(a, id) is None,
        forall|i: int| 0 <= i < b.len() ==> (#[trigger] b[i]).id != id,
    ensures
        find_event(a + b, id) is None,
    decreases b.len(),
{
    if b.len() == 0 {
        assert(a + b =~= a);
    } else {
        assert((a + b).drop_last() =~= a + b.drop_last());
        assert((a + b).last() == b.last());
        assert(b[b.len() - 1].id != id);
        assert forall|i: int| 0 <= i < b.drop_last().len() implies (#[trigger] b.drop_last()[i]).id
            != id by {
            assert(b[i].id != id);
        }
        lemma_find_event_concat(a, b.drop_last(), id);
    }
}

impl MemoryTables {
    /// Undoes the journal event `event` of `agent` by journaling its inverse. An
    /// operator's act. What is left of the memory comes back: none where the
    /// reversal removed it.
    pub fn revert_event(
        &mut self,
        agent: AgentId,
        event: MemoryEventId,
        event_id: MemoryEventId,
        now: Timestamp,
    ) -> (r: Result<Option<MemoryRow>, MemoryStoreError>)
        requires
            old(self).wf(),
        ensures
            final(self).wf(),
            match r {
                Ok(row) => {
                    let evt = event_of(old(self).journal(), agent, event);
                    let planned = reversal(*old(self), agent, event, event_id, now);
                    &&& evt is Some
                    &&& planned is Ok
                    &&& final(self).took(*old(self), planned->Ok_0)
                    &&& row == find_row(final(self).rows(), evt->0.target_memory_id)
                },
                Err(e) => final(self).same(*old(self)) && match reversal(
                    *old(self),
                    agent,
                    event,
                    event_id,
                    now,
                ) {
                    Err(why) => e == why,
                    Ok(c) => old(self).rejects(c) && e == MemoryStoreError::Db(
                        DbFault::DuplicateKey,
                    ),
                },
            },
    {
        let evt = match self.event(event) {
            Some(e) => if e.agent_id == agent {
                e
            } else {
                return Err(MemoryStoreError::EventNotFound { id: event });
            },
            None => {
                return Err(MemoryStoreError::EventNotFound { id: event });
            },
        };
        let target = evt.target_memory_id;
        let row = self.get(target);
        let attrs = find_attrs_to_restore(&self.events, &evt);
        match plan_revert(evt, row, attrs, event_id, now) {
            Err(e) => Err(e),
            Ok(change) => match self.commit(change) {
                Err(e) => Err(e),
                Ok(_) => Ok(self.get(target)),
            },
        }
    }

    /// Whether the journal can take the first `n` of `ids`.
    fn can_take(&self, ids: &Vec<MemoryEventId>, n: usize) -> (r: bool)
        requires
            n <= ids@.len(),
        ensures
            r == fresh_ids(self.journal(), ids@.take(n as int)),
    {
        let mut i: usize = 0;
        while i < n
            invariant
                i <= n <= ids@.len(),
                fresh_ids(self.journal(), ids@.take(i as int)),
            decreases n - i,
        {
            let ghost all = ids@.take(n as int);
            if self.event(ids[i]).is_some() {
                proof {
                    assert(find_event(self.journal(), all[i as int]) is Some);
                }
                return false;
            }
            let mut j: usize = 0;
            while j < i
                invariant
                    j <= i < n <= ids@.len(),
                    all == ids@.take(n as int),
                    forall|k: int| 0 <= k < j ==> #[trigger] ids@[k] != ids@[i as int],
                decreases i - j,
            {
                if ids[j] == ids[i] {
                    proof {
                        assert(all[j as int] == all[i as int]);
                    }
                    return false;
                }
                j += 1;
            }
            proof {
                let more = ids@.take(i + 1);
                let less = ids@.take(i as int);
                assert forall|k: int| 0 <= k < more.len() implies find_event(
                    self.journal(),
                    #[trigger] more[k],
                ) is None by {
                    if k < i {
                        assert(find_event(self.journal(), less[k]) is None);
                    }
                }
                assert forall|k: int, l: int| 0 <= k < l < more.len() implies #[trigger] more[k]
                    != #[trigger] more[l] by {
                    if l < i {
                        assert(less[k] != less[l]);
                    } else {
                        assert(ids@[k] != ids@[i as int]);
                    }
                }
            }
            i += 1;
        }
        true
    }

    /// Brings the rows marked in `mask` to the state held, one event each.
    fn hold_marked(
        &mut self,
        mask: &Vec<bool>,
        p: Ghost<spec_fn(MemoryRow) -> bool>,
        ids: &Vec<MemoryEventId>,
        now: Timestamp,
    ) -> (r: Result<usize, MemoryStoreError>)
        requires
            old(self).wf(),
            mask@.len() == old(self).rows().len(),
            forall|i: int| 0 <= i < mask@.len() ==> #[trigger] mask@[i] == p@(old(self).rows()[i]),
            old(self).rows().filter(p@).len() <= ids@.len(),
        ensures
            final(self).wf(),
            ({
                let n = old(self).rows().filter(p@).len();
                match r {
                    Ok(count) => {
                        &&& count == n
                        &&& fresh_ids(old(self).journal(), ids@.take(n as int))
                        &&& final(self).rows() == held_where(old(self).rows(), p@)
                        &&& final(self).journal() == old(self).journal() + held_events(
                            old(self).rows(),
                            p@,
                            ids@,
                            now,
                        )
                        &&& final(self).same_aside(*old(self))
                    },
                    Err(e) => {
                        &&& !fresh_ids(old(self).journal(), ids@.take(n as int))
                        &&& final(self).same(*old(self))
                        &&& e == MemoryStoreError::Db(DbFault::DuplicateKey)
                    },
                }
            }),
    {
        let ghost first = *self;
        let ghost rows0 = self.rows();
        let ghost p = p@;
        let len = self.rows.len();
        let mut n: usize = 0;
        let mut i: usize = 0;
        proof {
            reveal(Seq::filter);
            assert(rows0.take(0) =~= Seq::<MemoryRow>::empty());
        }
        while i < len
            invariant
                i <= len,
                len == rows0.len(),
                mask@.len() == len,
                forall|j: int| 0 <= j < mask@.len() ==> #[trigger] mask@[j] == p(rows0[j]),
                n == rows0.take(i as int).filter(p).len(),
                n <= i,
            decreases len - i,
        {
            proof {
                lemma_filter_step(rows0, i as int, p);
            }
            if mask[i] {
                n += 1;
            }
            i += 1;
        }
        proof {
            assert(rows0.take(len as int) =~= rows0);
        }
        if !self.can_take(ids, n) {
            return Err(MemoryStoreError::Db(DbFault::DuplicateKey));
        }
        let mut k: usize = 0;
        let mut i: usize = 0;
        while i < len
            invariant
                i <= len,
                len == rows0.len(),
                mask@.len() == len,
                rows0 == first.rows(),
                first.wf(),
                self.wf(),
                self.same_aside(first),
                n == rows0.filter(p).len(),
                n <= ids@.len(),
                fresh_ids(first.journal(), ids@.take(n as int)),
                forall|j: int| 0 <= j < mask@.len() ==> #[trigger] mask@[j] == p(rows0[j]),
                k == rows0.take(i as int).filter(p).len(),
                self.rows() == held_where(rows0.take(i as int), p) + rows0.skip(i as int),
                self.journal() == first.journal() + held_events(
                    rows0.take(i as int),
                    p,
                    ids@,
                    now,
                ),
            decreases len - i,
        {
            let ghost hits = rows0.take(i as int).filter(p);
            let ghost added = held_events(rows0.take(i as int), p, ids@, now);
            proof {
                lemma_filter_step(rows0, i as int, p);
                lemma_filter_prefix_len(rows0, i + 1, p);
                assert(self.rows()[i as int] == rows0[i as int]);
                assert(held_where(rows0.take(i + 1), p) =~= held_where(
                    rows0.take(i as int),
                    p,
                ).push(held_where(rows0, p)[i as int]));
                assert(rows0.skip(i as int) =~= seq![rows0[i as int]] + rows0.skip(i + 1));
            }
            if mask[i] {
                let row = self.rows[i].clone();
                let ghost before = self.rows();
                let ghost id = ids@[k as int];
                proof {
                    let part = ids@.take(n as int);
                    assert(part[k as int] == id);
                    assert forall|j: int| 0 <= j < added.len() implies (#[trigger] added[j]).id
                        != id by {
                        assert(part[j] != part[k as int]);
                    }
                    lemma_find_event_concat(first.journal(), added, id);
                }
                let change = plan_held(row, ids[k], now);
                let ghost next = change.effect->Put_0;
                proof {
                    lemma_put_is_update(before, i as int, next);
                }
                let done = self.commit(change);
                proof {
                    assert(done is Ok);
                    assert(self.rows() == before.update(i as int, next));
                    assert(self.rows() =~= held_where(rows0.take(i + 1), p) + rows0.skip(i + 1));
                    let more = held_events(rows0.take(i + 1), p, ids@, now);
                    assert(more =~= added.push(change.event));
                    assert(self.journal() =~= first.journal() + more);
                }
                k += 1;
            } else {
                proof {
                    assert(self.rows() =~= held_where(rows0.take(i + 1), p) + rows0.skip(i + 1));
                }
            }
            i += 1;
        }
        proof {
            assert(rows0.take(len as int) =~= rows0);
            assert(self.rows() =~= held_where(rows0, p));
        }
        Ok(n)
    }

    /// Brings the validated memories of `agent` whose validation is older than
    /// `cutoff` back to the state held. The first of `ids` go to the events.
    pub fn decay_validated(
        &mut self,
        agent: AgentId,
        cutoff: Timestamp,
        ids: &Vec<MemoryEventId>,
        now: Timestamp,
    ) -> (r: Result<usize, MemoryStoreError>)
        requires
            old(self).wf(),
            old(self).rows().filter(|row: MemoryRow| stale(row, agent, cutoff)).len() <= ids@.len(),
        ensures
            final(self).wf(),
            ({
                let p = |row: MemoryRow| stale(row, agent, cutoff);
                let n = old(self).rows().filter(p).len();
                match r {
                    Ok(count) => {
                        &&& count == n
                        &&& fresh_ids(old(self).journal(), ids@.take(n as int))
                        &&& final(self).rows() == held_where(old(self).rows(), p)
                        &&& final(self).journal() == old(self).journal() + held_events(
                            old(self).rows(),
                            p,
                            ids@,
                            now,
                        )
                        &&& final(self).same_aside(*old(self))
                    },
                    Err(e) => {
                        &&& !fresh_ids(old(self).journal(), ids@.take(n as int))
                        &&& final(self).same(*old(self))
                        &&& e == MemoryStoreError::Db(DbFault::DuplicateKey)
                    },
                }
            }),
    {
        let ghost p = |row: MemoryRow| stale(row, agent, cutoff);
        let mut mask: Vec<bool> = Vec::new();
        let mut i: usize = 0;
        while i < self.rows.len()
            invariant
                i <= self.rows@.len(),
                mask@.len() == i,
                forall|j: int|
                    0 <= j < i ==> #[trigger] mask@[j] == stale(self.rows@[j], agent, cutoff),
            decreases self.rows.len() - i,
        {
            mask.push(is_stale(&self.rows[i], agent, cutoff));
            i += 1;
        }
        self.hold_marked(&mask, Ghost(p), ids, now)
    }

    /// Whether an open contradiction names the memory `id`.
    fn is_disputed(&self, id: MemoryId) -> (r: bool)
        ensures
            r == disputed(self.contradictions(), id),
    {
        let mut i: usize = 0;
        while i < self.contradictions.len()
            invariant
                i <= self.contradictions@.len(),
                forall|j: int|
                    0 <= j < i ==> !((#[trigger] self.contradictions@[j]).resolved_at is None && (
                    self.contradictions@[j].memory_a == id || self.contradictions@[j].memory_b
                        == id)),
            decreases self.contradictions.len() - i,
        {
            let c = &self.contradictions[i];
            if c.resolved_at.is_none() && (c.memory_a == id || c.memory_b == id) {
                return true;
            }
            i += 1;
        }
        false
    }

    /// Brings the tentative memories of `agent` that were written before
    /// `cutoff`, and that no open contradiction names, to the state held: nothing
    /// has refuted them. Their validation clock stays. The first of `ids` go to
    /// the events.
    pub fn mature_tentative(
        &mut self,
        agent: AgentId,
        cutoff: Timestamp,
        ids: &Vec<MemoryEventId>,
        now: Timestamp,
    ) -> (r: Result<usize, MemoryStoreError>)
        requires
            old(self).wf(),
            old(self).rows().filter(
                |row: MemoryRow|
                    mature(row, agent, cutoff) && !disputed(old(self).contradictions(), row.id),
            ).len() <= ids@.len(),
        ensures
            final(self).wf(),
            ({
                let p = |row: MemoryRow|
                    mature(row, agent, cutoff) && !disputed(old(self).contradictions(), row.id);
                let n = old(self).rows().filter(p).len();
                match r {
                    Ok(count) => {
                        &&& count == n
                        &&& fresh_ids(old(self).journal(), ids@.take(n as int))
                        &&& final(self).rows() == held_where(old(self).rows(), p)
                        &&& final(self).journal() == old(self).journal() + held_events(
                            old(self).rows(),
                            p,
                            ids@,
                            now,
                        )
                        &&& final(self).same_aside(*old(self))
                    },
                    Err(e) => {
                        &&& !fresh_ids(old(self).journal(), ids@.take(n as int))
                        &&& final(self).same(*old(self))
                        &&& e == MemoryStoreError::Db(DbFault::DuplicateKey)
                    },
                }
            }),
    {
        let ghost cs = self.contradictions();
        let ghost p = |row: MemoryRow| mature(row, agent, cutoff) && !disputed(cs, row.id);
        let mut mask: Vec<bool> = Vec::new();
        let mut i: usize = 0;
        while i < self.rows.len()
            invariant
                i <= self.rows@.len(),
                mask@.len() == i,
                cs == self.contradictions(),
                forall|j: int|
                    0 <= j < i ==> #[trigger] mask@[j] == (mature(self.rows@[j], agent, cutoff)
                        && !disputed(cs, self.rows@[j].id)),
            decreases self.rows.len() - i,
        {
            let row = &self.rows[i];
            mask.push(is_mature(row, agent, cutoff) && !self.is_disputed(row.id));
            i += 1;
        }
        self.hold_marked(&mask, Ghost(p), ids, now)
    }
}

/// A memory of `agent` that eviction may take.
pub open spec fn evictable(row: MemoryRow, agent: AgentId) -> bool {
    row.agent_id == agent && !row.pinned
}

/// The order in which memories are given up: the least trusted first, then the
/// least recently and the least often read.
pub open spec fn eviction_key(row: MemoryRow) -> SortKey {
    SortKey {
        major: row.state.rank() as i128,
        minor: row.last_accessed_at@ as i128,
        tie: row.access_count as u128,
    }
}

/// The rows of `agent` that eviction may take, as they stand in the table.
pub open spec fn candidates(rows: Seq<MemoryRow>, agent: AgentId) -> Seq<MemoryRow> {
    rows.filter(|r: MemoryRow| evictable(r, agent))
}

/// How many rows `agent` has.
pub open spec fn row_count(rows: Seq<MemoryRow>, agent: AgentId) -> nat {
    rows.filter(|r: MemoryRow| r.agent_id == agent).len()
}

/// How many rows eviction takes to bring `agent` back to `quota`, as far as
/// unpinned rows allow.
pub open spec fn overflow(rows: Seq<MemoryRow>, agent: AgentId, quota: usize) -> nat {
    let total = row_count(rows, agent);
    let open = candidates(rows, agent).len();
    if total <= quota {
        0
    } else if total - quota <= open {
        (total - quota) as nat
    } else {
        open
    }
}

/// `order` lists the positions of `rows`; the rows in that order.
pub open spec fn arranged<T>(items: Seq<T>, order: Seq<usize>) -> Seq<T> {
    Seq::new(order.len(), |k: int| items[order[k] as int])
}

/// The events that record the removal of `rows` by the librarian.
pub open spec fn removal_events(
    rows: Seq<MemoryRow>,
    ids: Seq<MemoryEventId>,
    now: Timestamp,
) -> Seq<MemoryEvent> {
    Seq::new(rows.len(), |k: int| removal(rows[k], ids[k], MutationSource::Librarian, now).event)
}

/// `rows` without those in `gone`.
pub open spec fn without_rows(rows: Seq<MemoryRow>, gone: Seq<MemoryRow>) -> Seq<MemoryRow> {
    rows.filter(|r: MemoryRow| !has_id(gone, r.id))
}

/// One of `rows` has the id.
pub open spec fn has_id(rows: Seq<MemoryRow>, id: MemoryId) -> bool {
    exists|k: int| 0 <= k < rows.len() && (#[trigger] rows[k]).id == id
}

/// `order` arranges the eviction candidates of `agent`.
pub open spec fn eviction_order(rows: Seq<MemoryRow>, agent: AgentId, order: Seq<usize>) -> bool {
    stable_order(candidates(rows, agent).map_values(|r: MemoryRow| eviction_key(r)), order)
}

/// The rows that eviction takes, in the order in which it takes them.
pub open spec fn victims(rows: Seq<MemoryRow>, agent: AgentId, quota: usize, order: Seq<usize>) -> Seq<
    MemoryRow,
> {
    arranged(candidates(rows, agent), order).take(overflow(rows, agent, quota) as int)
}

/// Chronological order: by time, then by id.
pub open spec fn row_key(row: MemoryRow) -> SortKey {
    SortKey { major: row.created_at@ as i128, minor: 0, tie: row.id.0 }
}

/// Chronological order: by time, then by id.
pub open spec fn event_key(e: MemoryEvent) -> SortKey {
    SortKey { major: e.created_at@ as i128, minor: 0, tie: e.id.0 }
}

/// The rows of `agent`, as they stand in the table.
pub open spec fn rows_of(rows: Seq<MemoryRow>, agent: AgentId) -> Seq<MemoryRow> {
    rows.filter(|r: MemoryRow| r.agent_id == agent)
}

/// The events of `agent`, in the order in which they were journaled.
pub open spec fn events_of(events: Seq<MemoryEvent>, agent: AgentId) -> Seq<MemoryEvent> {
    events.filter(|e: MemoryEvent| e.agent_id == agent)
}

/// `order` lists the rows of `agent` oldest first.
pub open spec fn row_order(rows: Seq<MemoryRow>, agent: AgentId, order: Seq<usize>) -> bool {
    stable_order(rows_of(rows, agent).map_values(|r: MemoryRow| row_key(r)), order)
}

/// `order` lists the events of `agent` oldest first.
pub open spec fn event_order(events: Seq<MemoryEvent>, agent: AgentId, order: Seq<usize>) -> bool {
    stable_order(events_of(events, agent).map_values(|e: MemoryEvent| event_key(e)), order)
}

/// What holds of an arranged row holds of a row of the table.
proof fn lemma_arranged_distinct(rows: Seq<MemoryRow>, keys: Seq<SortKey>, order: Seq<usize>)
    requires
        distinct_rows(rows),
        keys.len() == rows.len(),
        stable_order(keys, order),
    ensures
        distinct_rows(arranged(rows, order)),
{
    let a = arranged(rows, order);
    assert forall|i: int, j: int| 0 <= i < j < a.len() implies #[trigger] a[i].id
        != #[trigger] a[j].id by {
        let x = order[i] as int;
        let y = order[j] as int;
        assert(goes_before(keys, order[i] as int, order[j] as int));
        if x < y {
            assert(rows[x].id != rows[y].id);
        } else if y < x {
            assert(rows[y].id != rows[x].id);
        } else {
            assert(x == y);
            assert(false);
        }
    }
}

fn arrange_rows(rows: &Vec<MemoryRow>, order: &Vec<usize>) -> (r: Vec<MemoryRow>)
    requires
        forall|k: int| 0 <= k < order@.len() ==> #[trigger] order@[k] < rows@.len(),
    ensures
        r@ == arranged(rows@, order@),
{
    let mut out: Vec<MemoryRow> = Vec::new();
    let mut k: usize = 0;
    while k < order.len()
        invariant
            k <= order@.len(),
            forall|k: int| 0 <= k < order@.len() ==> #[trigger] order@[k] < rows@.len(),
            out@.len() == k,
            forall|j: int| 0 <= j < k ==> #[trigger] out@[j] == rows@[order@[j] as int],
        decreases order.len() - k,
    {
        out.push(rows[order[k]].clone());
        k += 1;
    }
    proof {
        assert(out@ =~= arranged(rows@, order@));
    }
    out
}

fn arrange_events(events: &Vec<MemoryEvent>, order: &Vec<usize>) -> (r: Vec<MemoryEvent>)
    requires
        forall|k: int| 0 <= k < order@.len() ==> #[trigger] order@[k] < events@.len(),
    ensures
        r@ == arranged(events@, order@),
{
    let mut out: Vec<MemoryEvent> = Vec::new();
    let mut k: usize = 0;
    while k < order.len()
        invariant
            k <= order@.len(),
            forall|k: int| 0 <= k < order@.len() ==> #[trigger] order@[k] < events@.len(),
            out@.len() == k,
            forall|j: int| 0 <= j < k ==> #[trigger] out@[j] == events@[order@[j] as int],
        decreases order.len() - k,
    {
        out.push(events[order[k]].clone());
        k += 1;
    }
    proof {
        assert(out@ =~= arranged(events@, order@));
    }
    out
}

impl MemoryTables {
    /// The rows of `agent`, as they stand in the table.
    fn select_rows(&self, agent: AgentId, unpinned_only: bool) -> (r: Vec<MemoryRow>)
        ensures
            !unpinned_only ==> r@ == rows_of(self.rows(), agent),
            unpinned_only ==> r@ == candidates(self.rows(), agent),
    {
        let ghost all = self.rows();
        let ghost p = |r: MemoryRow| r.agent_id == agent;
        let ghost q = |r: MemoryRow| evictable(r, agent);
        let mut out: Vec<MemoryRow> = Vec::new();
        let mut i: usize = 0;
        proof {
            reveal(Seq::filter);
            assert(all.take(0) =~= Seq::<MemoryRow>::empty());
        }
        while i < self.rows.len()
            invariant
                i <= self.rows@.len(),
                all == self.rows@,
                p == (|r: MemoryRow| r.agent_id == agent),
                q == (|r: MemoryRow| evictable(r, agent)),
                !unpinned_only ==> out@ == all.take(i as int).filter(p),
                unpinned_only ==> out@ == all.take(i as int).filter(q),
            decreases self.rows.len() - i,
        {
            proof {
                lemma_filter_step(all, i as int, p);
                lemma_filter_step(all, i as int, q);
            }
            let row = &self.rows[i];
            if row.agent_id == agent && !(unpinned_only && row.pinned) {
                out.push(row.clone());
            }
            i += 1;
        }
        proof {
            assert(all.take(all.len() as int) =~= all);
        }
        out
    }

    /// Every memory of `agent`, oldest first.
    pub fn list(&self, agent: AgentId) -> (r: Vec<MemoryRow>)
        requires
            row_count(self.rows(), agent) <= MAX_MEMORIES_PER_AGENT,
        ensures
            exists|order: Seq<usize>|
                #[trigger] row_order(self.rows(), agent, order) && r@ == arranged(rows_of(self.rows(), agent), order),
    {
        let mine = self.select_rows(agent, false);
        let mut keys: Vec<SortKey> = Vec::new();
        let mut i: usize = 0;
        while i < mine.len()
            invariant
                i <= mine@.len(),
                keys@ == mine@.take(i as int).map_values(|r: MemoryRow| row_key(r)),
            decreases mine.len() - i,
        {
            let r = &mine[i];
            keys.push(SortKey { major: r.created_at.micros() as i128, minor: 0, tie: r.id.0 });
            i += 1;
            proof {
                assert(keys@ =~= mine@.take(i as int).map_values(|r: MemoryRow| row_key(r)));
            }
        }
        proof {
            assert(mine@.take(mine@.len() as int) =~= mine@);
        }
        let order = sort_positions(&keys);
        proof {
            assert(row_order(self.rows(), agent, order@));
        }
        arrange_rows(&mine, &order)
    }

    /// The events of `agent`, in journal order.
    fn select_events(&self, agent: AgentId) -> (r: Vec<MemoryEvent>)
        ensures
            r@ == events_of(self.journal(), agent),
    {
        let ghost all = self.journal();
        let ghost p = |e: MemoryEvent| e.agent_id == agent;
        let mut out: Vec<MemoryEvent> = Vec::new();
        let mut i: usize = 0;
        proof {
            reveal(Seq::filter);
            assert(all.take(0) =~= Seq::<MemoryEvent>::empty());
        }
        while i < self.events.len()
            invariant
                i <= self.events@.len(),
                all == self.events@,
                p == (|e: MemoryEvent| e.agent_id == agent),
                out@ == all.take(i as int).filter(p),
            decreases self.events.len() - i,
        {
            proof {
                lemma_filter_step(all, i as int, p);
            }
            if self.events[i].agent_id == agent {
                out.push(self.events[i].clone());
            }
            i += 1;
        }
        proof {
            assert(all.take(all.len() as int) =~= all);
        }
        out
    }

    /// The events of `agent`, oldest first.
    fn chronicle(&self, agent: AgentId) -> (r: Vec<MemoryEvent>)
        ensures
            exists|order: Seq<usize>|
                #[trigger] event_order(self.journal(), agent, order) && r@ == arranged(events_of(self.journal(), agent), order),
    {
        let mine = self.select_events(agent);
        let mut keys: Vec<SortKey> = Vec::new();
        let mut i: usize = 0;
        while i < mine.len()
            invariant
                i <= mine@.len(),
                keys@ == mine@.take(i as int).map_values(|e: MemoryEvent| event_key(e)),
            decreases mine.len() - i,
        {
            let e = &mine[i];
            keys.push(SortKey { major: e.created_at.micros() as i128, minor: 0, tie: e.id.0 });
            i += 1;
            proof {
                assert(keys@ =~= mine@.take(i as int).map_values(|e: MemoryEvent| event_key(e)));
            }
        }
        proof {
            assert(mine@.take(mine@.len() as int) =~= mine@);
        }
        let order = sort_positions(&keys);
        proof {
            assert(event_order(self.journal(), agent, order@));
        }
        arrange_events(&mine, &order)
    }

    /// The first page of the journal of `agent`, oldest first.
    pub fn list_events(&self, agent: AgentId) -> (r: Vec<MemoryEvent>)
        ensures
            exists|order: Seq<usize>|
                #[trigger] event_order(self.journal(), agent, order) && r@ == first_page(arranged(events_of(self.journal(), agent), order)),
    {
        let mut all = self.chronicle(agent);
        if all.len() > MAX_EVENTS_PER_PAGE {
            all.truncate(MAX_EVENTS_PER_PAGE);
        }
        all
    }

    /// Forgets the memories of `agent` beyond `quota`: unpinned ones, the least
    /// trusted first, then the least recently and the least often read. Their ids
    /// come back in that order. The first of `ids` go to the events.
    pub fn evict_overflow(
        &mut self,
        agent: AgentId,
        quota: usize,
        ids: &Vec<MemoryEventId>,
        now: Timestamp,
    ) -> (r: Result<Vec<MemoryId>, MemoryStoreError>)
        requires
            old(self).wf(),
            overflow(old(self).rows(), agent, quota) <= ids@.len(),
        ensures
            final(self).wf(),
            ({
                let n = overflow(old(self).rows(), agent, quota);
                match r {
                    Ok(out) => exists|order: Seq<usize>|
                        #[trigger] eviction_order(old(self).rows(), agent, order) && ({
                            let gone = victims(old(self).rows(), agent, quota, order);
                            &&& fresh_ids(old(self).journal(), ids@.take(n as int))
                            &&& out@ == gone.map_values(|r: MemoryRow| r.id)
                            &&& final(self).rows() == without_rows(old(self).rows(), gone)
                            &&& final(self).journal() == old(self).journal() + removal_events(
                                gone,
                                ids@,
                                now,
                            )
                            &&& final(self).same_aside(*old(self))
                        }),
                    Err(e) => {
                        &&& !fresh_ids(old(self).journal(), ids@.take(n as int))
                        &&& final(self).same(*old(self))
                        &&& e == MemoryStoreError::Db(DbFault::DuplicateKey)
                    },
                }
            }),
    {
        let ghost first = *self;
        let ghost rows0 = self.rows();
        let total = self.select_rows(agent, false).len();
        let open = self.select_rows(agent, true);
        let mut keys: Vec<SortKey> = Vec::new();
        let mut i: usize = 0;
        while i < open.len()
            invariant
                i <= open@.len(),
                keys@ == open@.take(i as int).map_values(|r: MemoryRow| eviction_key(r)),
            decreases open.len() - i,
        {
            let r = &open[i];
            keys.push(
                SortKey {
                    major: r.state.priority() as i128,
                    minor: r.last_accessed_at.micros() as i128,
                    tie: r.access_count as u128,
                },
            );
            i += 1;
            proof {
                assert(keys@ =~= open@.take(i as int).map_values(|r: MemoryRow| eviction_key(r)));
            }
        }
        proof {
            assert(open@.take(open@.len() as int) =~= open@);
        }
        let order = sort_positions(&keys);
        let sorted = arrange_rows(&open, &order);
        let n: usize = if total <= quota {
            0
        } else if total - quota <= open.len() {
            total - quota
        } else {
            open.len()
        };
        let ghost gone = victims(rows0, agent, quota, order@);
        proof {
            assert(eviction_order(rows0, agent, order@));
            assert(n == overflow(rows0, agent, quota));
            lemma_filter_distinct(rows0, |r: MemoryRow| evictable(r, agent));
            lemma_arranged_distinct(open@, keys@, order@);
            assert(gone == sorted@.take(n as int));
        }
        if !self.can_take(ids, n) {
            return Err(MemoryStoreError::Db(DbFault::DuplicateKey));
        }
        let mut out: Vec<MemoryId> = Vec::new();
        let mut k: usize = 0;
        proof {
            lemma_filter_all(rows0, |r: MemoryRow| !has_id(gone.take(0), r.id));
            assert(removal_events(gone.take(0), ids@, now) =~= Seq::<MemoryEvent>::empty());
            assert(self.journal() =~= first.journal() + removal_events(gone.take(0), ids@, now));
            assert(out@ =~= gone.take(0).map_values(|r: MemoryRow| r.id));
        }
        while k < n
            invariant
                k <= n,
                n <= ids@.len(),
                n <= sorted@.len(),
                gone == sorted@.take(n as int),
                distinct_rows(sorted@),
                rows0 == first.rows(),
                fresh_ids(first.journal(), ids@.take(n as int)),
                self.wf(),
                self.same_aside(first),
                out@ == gone.take(k as int).map_values(|r: MemoryRow| r.id),
                self.rows() == without_rows(rows0, gone.take(k as int)),
                self.journal() == first.journal() + removal_events(
                    gone.take(k as int),
                    ids@,
                    now,
                ),
            decreases n - k,
        {
            let row = sorted[k].clone();
            let id = row.id;
            let ghost added = removal_events(gone.take(k as int), ids@, now);
            let ghost before = self.rows();
            proof {
                let part = ids@.take(n as int);
                assert(part[k as int] == ids@[k as int]);
                assert forall|j: int| 0 <= j < added.len() implies (#[trigger] added[j]).id
                    != ids@[k as int] by {
                    assert(part[j] != part[k as int]);
                }
                lemma_find_event_concat(first.journal(), added, ids@[k as int]);
            }
            let change = remove_row(row, ids[k], MutationSource::Librarian, now);
            let done = self.commit(change);
            proof {
                assert(done is Ok);
                let less = gone.take(k as int);
                let more = gone.take(k + 1);
                assert(more =~= less.push(gone[k as int]));
                let p = |r: MemoryRow| !has_id(less, r.id);
                let q = |r: MemoryRow| r.id != id;
                let both = |r: MemoryRow| !has_id(more, r.id);
                assert forall|r: MemoryRow| #[trigger] both(r) == (p(r) && q(r)) by {
                    if has_id(less, r.id) {
                        let w = choose|w: int| 0 <= w < less.len() && (#[trigger] less[w]).id
                            == r.id;
                        assert(more[w].id == r.id);
                    }
                    if r.id == id {
                        assert(more[k as int].id == r.id);
                    }
                    if has_id(more, r.id) {
                        let w = choose|w: int| 0 <= w < more.len() && (#[trigger] more[w]).id
                            == r.id;
                        if w < k {
                            assert(less[w].id == r.id);
                        }
                    }
                }
                lemma_filter_filter(rows0, p, q, both);
                assert(self.rows() == without_rows(rows0, more));
                assert(removal_events(more, ids@, now) =~= added.push(change.event));
                assert(self.journal() =~= first.journal() + removal_events(more, ids@, now));
            }
            out.push(id);
            k += 1;
            proof {
                assert(out@ =~= gone.take(k as int).map_values(|r: MemoryRow| r.id));
            }
        }
        proof {
            assert(gone.take(n as int) =~= gone);
        }
        Ok(out)
    }

    /// Counts a reading of each of the memories `ids`. Reading does not validate.
    pub fn record_access(&mut self, ids: &Vec<MemoryId>, now: Timestamp)
        requires
            ids@.len() <= MAX_MEMORIES_PER_AGENT,
            forall|i: int|
                0 <= i < old(self).rows().len() ==> (#[trigger] old(self).rows()[i]).access_count
                    < u64::MAX,
            old(self).wf(),
        ensures
            final(self).wf(),
            final(self).rows() == old(self).rows().map_values(
                |r: MemoryRow|
                    if ids@.contains(r.id) {
                        MemoryRow {
                            last_accessed_at: now,
                            access_count: (r.access_count + 1) as u64,
                            ..r
                        }
                    } else {
                        r
                    },
            ),
            final(self).journal() == old(self).journal(),
            final(self).same_aside(*old(self)),
    {
        let ghost rows0 = self.rows();
        let ghost f = |r: MemoryRow|
            if ids@.contains(r.id) {
                MemoryRow { last_accessed_at: now, access_count: (r.access_count + 1) as u64, ..r }
            } else {
                r
            };
        let len = self.rows.len();
        let mut i: usize = 0;
        while i < len
            invariant
                i <= len,
                len == rows0.len(),
                self.rows@.len() == len,
                self.events@ == old(self).journal(),
                self.contradictions@ == old(self).contradictions(),
                self.validations@ == old(self).validations(),
                f == (|r: MemoryRow|
                    if ids@.contains(r.id) {
                        MemoryRow {
                            last_accessed_at: now,
                            access_count: (r.access_count + 1) as u64,
                            ..r
                        }
                    } else {
                        r
                    }),
                forall|j: int| 0 <= j < len ==> (#[trigger] rows0[j]).access_count < u64::MAX,
                forall|j: int| 0 <= j < i ==> #[trigger] self.rows@[j] == f(rows0[j]),
                forall|j: int| i <= j < len ==> #[trigger] self.rows@[j] == rows0[j],
            decreases len - i,
        {
            let mut row = self.rows[i].clone();
            proof {
                assert(row == rows0[i as int]);
            }
            let mut hit = false;
            let mut j: usize = 0;
            while j < ids.len()
                invariant
                    j <= ids@.len(),
                    hit == ids@.take(j as int).contains(row.id),
                decreases ids.len() - j,
            {
                proof {
                    let less = ids@.take(j as int);
                    let more = ids@.take(j + 1);
                    assert(more =~= less.push(ids@[j as int]));
                    if less.contains(row.id) {
                        let w = choose|w: int| 0 <= w < less.len() && less[w] == row.id;
                        assert(more[w] == row.id);
                    }
                    if ids@[j as int] == row.id {
                        assert(more[j as int] == row.id);
                    }
                    if more.contains(row.id) {
                        let w = choose|w: int| 0 <= w < more.len() && more[w] == row.id;
                        if w < j {
                            assert(less[w] == row.id);
                        }
                    }
                }
                if ids[j] == row.id {
                    hit = true;
                }
                j += 1;
            }
            proof {
                assert(ids@.take(ids@.len() as int) =~= ids@);
            }
            if hit {
                row.last_accessed_at = now;
                row.access_count = row.access_count + 1;
                self.rows.set(i, row);
            }
            i += 1;
        }
        proof {
            assert(self.rows@ =~= rows0.map_values(f));
            assert forall|a: int, b: int| 0 <= a < b < self.rows@.len() implies #[trigger] self.rows@[a].id
                != #[trigger] self.rows@[b].id by {
                assert(rows0[a].id != rows0[b].id);
            }
        }
    }
}

/// The first page of the journal.
pub open spec fn first_page(events: Seq<MemoryEvent>) -> Seq<MemoryEvent> {
    if events.len() > MAX_EVENTS_PER_PAGE {
        events.take(MAX_EVENTS_PER_PAGE as int)
    } else {
        events
    }
}

/// The pair in canonical order: the smaller id first.
pub open spec fn canonical_pair(a: MemoryId, b: MemoryId) -> (MemoryId, MemoryId) {
    if a.0 < b.0 {
        (a, b)
    } else {
        (b, a)
    }
}

/// The open contradiction between `a` and `b` that `agent` has, if any.
pub open spec fn open_contradiction(
    cs: Seq<ContradictionEventRow>,
    agent: AgentId,
    a: MemoryId,
    b: MemoryId,
) -> Option<ContradictionEventRow>
    decreases cs.len(),
{
    if cs.len() == 0 {
        None
    } else if open_between(cs.last(), agent, a, b) {
        Some(cs.last())
    } else {
        open_contradiction(cs.drop_last(), agent, a, b)
    }
}

/// The contradiction `id`.
pub open spec fn find_contradiction(cs: Seq<ContradictionEventRow>, id: ContradictionEventId) -> Option<
    ContradictionEventRow,
>
    decreases cs.len(),
{
    if cs.len() == 0 {
        None
    } else if cs.last().id == id {
        Some(cs.last())
    } else {
        find_contradiction(cs.drop_last(), id)
    }
}

/// A contradiction closed at `now` with `outcome`.
pub open spec fn closed_row(
    c: ContradictionEventRow,
    outcome: ResolutionOutcome,
    now: Timestamp,
) -> ContradictionEventRow {
    ContradictionEventRow {
        resolved_at: Some(now),
        resolution_event_id: match outcome {
            ResolutionOutcome::Mutation(id) => Some(id),
            ResolutionOutcome::NoAction { .. } => None,
        },
        resolution_reason: match outcome {
            ResolutionOutcome::Mutation(_) => None,
            ResolutionOutcome::NoAction { reason } => Some(reason.raw()),
        },
        ..c
    }
}

/// The open contradictions of `agent`.
pub open spec fn open_contradictions(cs: Seq<ContradictionEventRow>, agent: AgentId) -> Seq<
    ContradictionEventRow,
> {
    cs.filter(|c: ContradictionEventRow| c.agent_id == agent && c.resolved_at is None)
}

/// Oldest first.
pub open spec fn contradiction_key(c: ContradictionEventRow) -> SortKey {
    SortKey { major: c.created_at@ as i128, minor: 0, tie: 0 }
}

/// `order` lists the open contradictions of `agent` oldest first.
pub open spec fn contradiction_order(
    cs: Seq<ContradictionEventRow>,
    agent: AgentId,
    order: Seq<usize>,
) -> bool {
    stable_order(
        open_contradictions(cs, agent).map_values(|c: ContradictionEventRow| contradiction_key(c)),
        order,
    )
}

/// As many contradictions as one sweep looks at.
pub open spec fn contradiction_page(cs: Seq<ContradictionEventRow>) -> Seq<ContradictionEventRow> {
    if cs.len() > MAX_SIMILAR_PAIRS_PER_AGENT {
        cs.take(MAX_SIMILAR_PAIRS_PER_AGENT as int)
    } else {
        cs
    }
}

proof fn lemma_open_contradiction(
    cs: Seq<ContradictionEventRow>,
    agent: AgentId,
    a: MemoryId,
    b: MemoryId,
)
    ensures
        match open_contradiction(cs, agent, a, b) {
            Some(c) => open_between(c, agent, a, b) && exists|i: int|
                0 <= i < cs.len() && #[trigger] cs[i] == c,
            None => forall|i: int|
                0 <= i < cs.len() ==> !open_between(#[trigger] cs[i], agent, a, b),
        },
    decreases cs.len(),
{
    if cs.len() > 0 {
        if open_between(cs.last(), agent, a, b) {
            assert(cs[cs.len() - 1] == cs.last());
        } else {
            let rest = cs.drop_last();
            lemma_open_contradiction(rest, agent, a, b);
            match open_contradiction(rest, agent, a, b) {
                Some(c) => {
                    let i = choose|i: int| 0 <= i < rest.len() && #[trigger] rest[i] == c;
                    assert(cs[i] == c);
                },
                None => {
                    assert forall|i: int| 0 <= i < cs.len() implies !open_between(
                        #[trigger] cs[i],
                        agent,
                        a,
                        b,
                    ) by {
                        if i < cs.len() - 1 {
                            assert(!open_between(rest[i], agent, a, b));
                        }
                    }
                },
            }
        }
    }
}

proof fn lemma_find_contradiction(cs: Seq<ContradictionEventRow>, id: ContradictionEventId)
    ensures
        match find_contradiction(cs, id) {
            Some(c) => c.id == id && exists|i: int| 0 <= i < cs.len() && #[trigger] cs[i] == c,
            None => forall|i: int| 0 <= i < cs.len() ==> (#[trigger] cs[i]).id != id,
        },
    decreases cs.len(),
{
    if cs.len() > 0 {
        if cs.last().id == id {
            assert(cs[cs.len() - 1] == cs.last());
        } else {
            let rest = cs.drop_last();
            lemma_find_contradiction(rest, id);
            match find_contradiction(rest, id) {
                Some(c) => {
                    let i = choose|i: int| 0 <= i < rest.len() && #[trigger] rest[i] == c;
                    assert(cs[i] == c);
                },
                None => {
                    assert forall|i: int| 0 <= i < cs.len() implies (#[trigger] cs[i]).id
                        != id by {
                        if i < cs.len() - 1 {
                            assert(rest[i].id != id);
                        }
                    }
                },
            }
        }
    }
}

impl MemoryTables {
    /// Position of the contradiction `id`.
    fn contradiction_at(&self, id: ContradictionEventId) -> (p: Option<usize>)
        ensures
            match p {
                Some(i) => i < self.contradictions().len() && find_contradiction(
                    self.contradictions(),
                    id,
                ) == Some(self.contradictions()[i as int]),
                None => find_contradiction(self.contradictions(), id) is None,
            },
    {
        let ghost cs = self.contradictions@;
        let mut i: usize = self.contradictions.len();
        proof {
            assert(cs.take(cs.len() as int) =~= cs);
        }
        while i > 0
            invariant
                i <= self.contradictions@.len(),
                cs == self.contradictions@,
                find_contradiction(cs, id) == find_contradiction(cs.take(i as int), id),
            decreases i,
        {
            proof {
                assert(cs.take(i as int).drop_last() =~= cs.take(i - 1));
                assert(cs.take(i as int).last() == cs[i - 1]);
            }
            if self.contradictions[i - 1].id == id {
                return Some(i - 1);
            }
            i -= 1;
        }
        None
    }

    /// The id of the open contradiction between `lo` and `hi`.
    fn open_pair(&self, agent: AgentId, lo: MemoryId, hi: MemoryId) -> (r: Option<
        ContradictionEventId,
    >)
        ensures
            r == (match open_contradiction(self.contradictions(), agent, lo, hi) {
                Some(c) => Some(c.id),
                None => None,
            }),
    {
        let ghost cs = self.contradictions@;
        let mut i: usize = self.contradictions.len();
        proof {
            assert(cs.take(cs.len() as int) =~= cs);
        }
        while i > 0
            invariant
                i <= self.contradictions@.len(),
                cs == self.contradictions@,
                open_contradiction(cs, agent, lo, hi) == open_contradiction(
                    cs.take(i as int),
                    agent,
                    lo,
                    hi,
                ),
            decreases i,
        {
            proof {
                assert(cs.take(i as int).drop_last() =~= cs.take(i - 1));
                assert(cs.take(i as int).last() == cs[i - 1]);
            }
            let c = &self.contradictions[i - 1];
            if c.agent_id == agent && c.memory_a == lo && c.memory_b == hi
                && c.resolved_at.is_none() {
                return Some(c.id);
            }
            i -= 1;
        }
        None
    }

    /// Flags the memories `a` and `b` of `agent` as contradicting each other. A
    /// pair that is flagged already, in either order, keeps its contradiction,
    /// whose id comes back.
    pub fn record_contradiction(
        &mut self,
        agent: AgentId,
        org: OrgId,
        a: MemoryId,
        b: MemoryId,
        reason: String,
        id: ContradictionEventId,
        now: Timestamp,
    ) -> (r: Result<ContradictionEventId, MemoryStoreError>)
        requires
            old(self).wf(),
        ensures
            final(self).wf(),
            final(self).rows() == old(self).rows(),
            final(self).journal() == old(self).journal(),
            final(self).validations() == old(self).validations(),
            ({
                let (lo, hi) = canonical_pair(a, b);
                match open_contradiction(old(self).contradictions(), agent, lo, hi) {
                    Some(c) => r == Ok::<ContradictionEventId, MemoryStoreError>(c.id) && final(
                        self).contradictions() == old(self).contradictions(),
                    None => match find_contradiction(old(self).contradictions(), id) {
                        Some(_) => r == Err::<ContradictionEventId, MemoryStoreError>(
                            MemoryStoreError::Db(DbFault::DuplicateKey),
                        ) && final(self).contradictions() == old(self).contradictions(),
                        None => r == Ok::<ContradictionEventId, MemoryStoreError>(id) && final(
                            self).contradictions() == old(self).contradictions().push(
                            ContradictionEventRow {
                                id,
                                agent_id: agent,
                                org_id: org,
                                memory_a: lo,
                                memory_b: hi,
                                reason,
                                created_at: now,
                                resolved_at: None,
                                resolution_event_id: None,
                                resolution_reason: None,
                            },
                        ),
                    },
                }
            }),
    {
        let (lo, hi) = if a.0 < b.0 {
            (a, b)
        } else {
            (b, a)
        };
        if let Some(open) = self.open_pair(agent, lo, hi) {
            return Ok(open);
        }
        let ghost cs = self.contradictions@;
        if self.contradiction_at(id).is_some() {
            return Err(MemoryStoreError::Db(DbFault::DuplicateKey));
        }
        proof {
            lemma_open_contradiction(cs, agent, lo, hi);
            lemma_find_contradiction(cs, id);
        }
        self.contradictions.push(
            ContradictionEventRow {
                id,
                agent_id: agent,
                org_id: org,
                memory_a: lo,
                memory_b: hi,
                reason,
                created_at: now,
                resolved_at: None,
                resolution_event_id: None,
                resolution_reason: None,
            },
        );
        Ok(id)
    }

    /// The contradiction `id`.
    pub fn read_contradiction(&self, id: ContradictionEventId) -> (r: Option<ContradictionEventRow>)
        ensures
            r == find_contradiction(self.contradictions(), id),
    {
        match self.contradiction_at(id) {
            Some(i) => Some(self.contradictions[i].clone()),
            None => None,
        }
    }

    /// The open contradictions of `agent`, oldest first, as many as one sweep
    /// looks at.
    pub fn unresolved_contradictions(&self, agent: AgentId) -> (r: Vec<ContradictionEventRow>)
        ensures
            exists|order: Seq<usize>|
                #[trigger] contradiction_order(self.contradictions(), agent, order) && r@
                    == contradiction_page(
                    arranged(open_contradictions(self.contradictions(), agent), order),
                ),
    {
        let ghost cs = self.contradictions();
        let ghost p = |c: ContradictionEventRow| c.agent_id == agent && c.resolved_at is None;
        let mut open: Vec<ContradictionEventRow> = Vec::new();
        let mut keys: Vec<SortKey> = Vec::new();
        let mut i: usize = 0;
        proof {
            reveal(Seq::filter);
            assert(cs.take(0) =~= Seq::<ContradictionEventRow>::empty());
            assert(keys@ =~= cs.take(0).filter(p).map_values(
                |c: ContradictionEventRow| contradiction_key(c),
            ));
        }
        while i < self.contradictions.len()
            invariant
                i <= self.contradictions@.len(),
                cs == self.contradictions@,
                p == (|c: ContradictionEventRow| c.agent_id == agent && c.resolved_at is None),
                open@ == cs.take(i as int).filter(p),
                keys@ == open@.map_values(|c: ContradictionEventRow| contradiction_key(c)),
            decreases self.contradictions.len() - i,
        {
            proof {
                lemma_filter_step(cs, i as int, p);
            }
            let c = &self.contradictions[i];
            if c.agent_id == agent && c.resolved_at.is_none() {
                open.push(c.clone());
                keys.push(SortKey { major: c.created_at.micros() as i128, minor: 0, tie: 0 });
                proof {
                    assert(keys@ =~= open@.map_values(
                        |c: ContradictionEventRow| contradiction_key(c),
                    ));
                }
            }
            i += 1;
        }
        proof {
            assert(cs.take(cs.len() as int) =~= cs);
        }
        let order = sort_positions(&keys);
        let ghost full = arranged(open@, order@);
        proof {
            assert(contradiction_order(cs, agent, order@));
        }
        let limit: usize = if order.len() > MAX_SIMILAR_PAIRS_PER_AGENT {
            MAX_SIMILAR_PAIRS_PER_AGENT
        } else {
            order.len()
        };
        let mut out: Vec<ContradictionEventRow> = Vec::new();
        let mut k: usize = 0;
        while k < limit
            invariant
                k <= limit <= order@.len(),
                forall|j: int| 0 <= j < order@.len() ==> #[trigger] order@[j] < open@.len(),
                full == arranged(open@, order@),
                out@ == full.take(k as int),
            decreases limit - k,
        {
            out.push(open[order[k]].clone());
            k += 1;
            proof {
                assert(out@ =~= full.take(k as int));
            }
        }
        proof {
            assert(full.take(full.len() as int) =~= full);
        }
        out
    }

    /// Closes the contradiction `id`. Closing one that is closed already changes
    /// nothing, so that the first resolution stands.
    pub fn resolve_contradiction(
        &mut self,
        id: ContradictionEventId,
        outcome: ResolutionOutcome,
        now: Timestamp,
    ) -> (r: Result<(), MemoryStoreError>)
        requires
            old(self).wf(),
        ensures
            final(self).wf(),
            final(self).rows() == old(self).rows(),
            final(self).journal() == old(self).journal(),
            final(self).validations() == old(self).validations(),
            match find_contradiction(old(self).contradictions(), id) {
                None => r == Err::<(), MemoryStoreError>(
                    MemoryStoreError::ContradictionNotFound(id),
                ) && final(self).contradictions() == old(self).contradictions(),
                Some(c) => r is Ok && final(self).contradictions() == (if c.resolved_at is Some {
                    old(self).contradictions()
                } else {
                    old(self).contradictions().map_values(
                        |x: ContradictionEventRow|
                            if x.id == id {
                                closed_row(x, outcome, now)
                            } else {
                                x
                            },
                    )
                }),
            },
    {
        let ghost cs = self.contradictions@;
        match self.contradiction_at(id) {
            None => Err(MemoryStoreError::ContradictionNotFound(id)),
            Some(i) => {
                proof {
                    lemma_find_contradiction(cs, id);
                }
                if self.contradictions[i].resolved_at.is_some() {
                    return Ok(());
                }
                let mut c = self.contradictions[i].clone();
                let ghost f = |x: ContradictionEventRow|
                    if x.id == id {
                        closed_row(x, outcome, now)
                    } else {
                        x
                    };
                c.resolved_at = Some(now);
                match outcome {
                    ResolutionOutcome::Mutation(event_id) => {
                        c.resolution_event_id = Some(event_id);
                        c.resolution_reason = None;
                    },
                    ResolutionOutcome::NoAction { reason } => {
                        c.resolution_event_id = None;
                        c.resolution_reason = Some(reason.into_inner());
                    },
                }
                self.contradictions.set(i, c);
                proof {
                    assert forall|j: int| 0 <= j < cs.len() implies #[trigger] self.contradictions@[j]
                        == f(cs[j]) by {
                        if j < i {
                            assert(cs[j].id != cs[i as int].id);
                        } else if i < j {
                            assert(cs[i as int].id != cs[j].id);
                        }
                    }
                    assert(self.contradictions@ =~= cs.map_values(f));
                    let now_cs = self.contradictions@;
                    assert forall|x: int, y: int| 0 <= x < y < now_cs.len() implies (
                    #[trigger] now_cs[x]).id != (#[trigger] now_cs[y]).id && !(open_between(
                        now_cs[x],
                        now_cs[y].agent_id,
                        now_cs[y].memory_a,
                        now_cs[y].memory_b,
                    ) && now_cs[y].resolved_at is None) by {
                        assert(cs[x].id != cs[y].id);
                    }
                }
                Ok(())
            },
        }
    }
}

/// The table once the event `e` is replayed on it: nothing where a write finds
/// its memory there already.
pub open spec fn replay_step(rows: Seq<MemoryRow>, e: MemoryEvent) -> Option<Seq<MemoryRow>> {
    let id = e.target_memory_id;
    match e.payload {
        MemoryEventPayload::Write { content, kind, state, pinned } => if find_row(
            rows,
            id,
        ) is Some {
            None
        } else {
            Some(
                rows.push(
                    minted_row(
                        id,
                        e.agent_id,
                        e.org_id,
                        content,
                        kind,
                        state,
                        pinned,
                        e.source,
                        e.created_at,
                    ),
                ),
            )
        },
        MemoryEventPayload::Update { after, state, pinned, .. } => Some(
            rows.map_values(
                |r: MemoryRow|
                    if r.id == id {
                        MemoryRow { content: after, state, pinned, ..r }
                    } else {
                        r
                    },
            ),
        ),
        MemoryEventPayload::Forget { .. } => Some(without_row(rows, id)),
    }
}

/// The table once `events` are replayed on it, first to last.
pub open spec fn replay(rows: Seq<MemoryRow>, events: Seq<MemoryEvent>) -> Option<Seq<MemoryRow>>
    decreases events.len(),
{
    if events.len() == 0 {
        Some(rows)
    } else {
        match replay(rows, events.drop_last()) {
            None => None,
            Some(before) => replay_step(before, events.last()),
        }
    }
}

/// Replays one journal event on the memory table. Neither the journal nor the
/// pin is consulted: what was allowed once is allowed again. `false` where a
/// write finds its memory there already.
fn apply_replay(rows: &mut Vec<MemoryRow>, e: &MemoryEvent) -> (ok: bool)
    requires
        distinct_rows(old(rows)@),
    ensures
        distinct_rows(final(rows)@),
        match replay_step(old(rows)@, *e) {
            Some(after) => ok && final(rows)@ == after,
            None => !ok && final(rows)@ == old(rows)@,
        },
{
    let ghost before = rows@;
    let id = e.target_memory_id;
    match &e.payload {
        MemoryEventPayload::Write { content, kind, state, pinned } => {
            if position_of(rows, id).is_some() {
                return false;
            }
            let row = mint_row(
                id,
                e.agent_id,
                e.org_id,
                content.clone(),
                *kind,
                *state,
                *pinned,
                e.source,
                e.created_at,
            );
            carry_out(rows, RowEffect::Insert(row));
        },
        MemoryEventPayload::Update { after, state, pinned, .. } => {
            let ghost f = |r: MemoryRow|
                if r.id == id {
                    MemoryRow { content: *after, state: *state, pinned: *pinned, ..r }
                } else {
                    r
                };
            match position_of(rows, id) {
                Some(i) => {
                    let mut next = rows[i].clone();
                    next.content = after.clone();
                    next.state = *state;
                    next.pinned = *pinned;
                    proof {
                        lemma_put_is_update(before, i as int, next);
                        lemma_effect_distinct(before, RowEffect::Put(next));
                    }
                    rows.set(i, next);
                    proof {
                        assert forall|j: int| 0 <= j < before.len() implies #[trigger] rows@[j]
                            == before.map_values(f)[j] by {
                            if j < i {
                                assert(before[j].id != before[i as int].id);
                            } else if i < j {
                                assert(before[i as int].id != before[j].id);
                            }
                        }
                        assert(rows@ =~= before.map_values(f));
                    }
                },
                None => {
                    proof {
                        lemma_find_row(before, id);
                        assert(rows@ =~= before.map_values(f));
                    }
                },
            }
        },
        MemoryEventPayload::Forget { .. } => {
            carry_out(rows, RowEffect::Remove(id));
        },
    }
    true
}

/// The rows of the other agents, with the journal of `agent` replayed on them in
/// the order `order`.
pub open spec fn rebuilt(t: MemoryTables, agent: AgentId, order: Seq<usize>) -> Option<
    Seq<MemoryRow>,
> {
    replay(
        t.rows().filter(|r: MemoryRow| r.agent_id != agent),
        arranged(events_of(t.journal(), agent), order),
    )
}

impl MemoryTables {
    /// Rebuilds the memories of `agent` by replaying its journal, oldest event
    /// first, end to end.
    pub fn rebuild_materialized(&mut self, agent: AgentId) -> (r: Result<(), MemoryStoreError>)
        requires
            old(self).wf(),
        ensures
            final(self).wf(),
            final(self).journal() == old(self).journal(),
            final(self).same_aside(*old(self)),
            exists|order: Seq<usize>| #[trigger]
                event_order(old(self).journal(), agent, order) && match rebuilt(
                    *old(self),
                    agent,
                    order,
                ) {
                    Some(rows) => r is Ok && final(self).rows() == rows,
                    None => r == Err::<(), MemoryStoreError>(
                        MemoryStoreError::Db(DbFault::DuplicateKey),
                    ) && final(self).rows() == old(self).rows(),
                },
    {
        let ghost rows0 = self.rows();
        let ghost p = |r: MemoryRow| r.agent_id != agent;
        let events = self.chronicle(agent);
        let ghost order = choose|order: Seq<usize>| #[trigger]
            event_order(self.journal(), agent, order) && events@ == arranged(
                events_of(self.journal(), agent),
                order,
            );
        let mut rows: Vec<MemoryRow> = Vec::new();
        let mut i: usize = 0;
        proof {
            reveal(Seq::filter);
            assert(rows0.take(0) =~= Seq::<MemoryRow>::empty());
        }
        while i < self.rows.len()
            invariant
                i <= self.rows@.len(),
                rows0 == self.rows@,
                p == (|r: MemoryRow| r.agent_id != agent),
                rows@ == rows0.take(i as int).filter(p),
            decreases self.rows.len() - i,
        {
            proof {
                lemma_filter_step(rows0, i as int, p);
            }
            if self.rows[i].agent_id != agent {
                rows.push(self.rows[i].clone());
            }
            i += 1;
        }
        proof {
            assert(rows0.take(rows0.len() as int) =~= rows0);
            lemma_filter_distinct(rows0, p);
        }
        let ghost others = rows@;
        let mut ok = true;
        let mut k: usize = 0;
        while k < events.len() && ok
            invariant
                k <= events@.len(),
                distinct_rows(rows@),
                match replay(others, events@.take(k as int)) {
                    Some(after) => ok && rows@ == after,
                    None => !ok,
                },
            decreases events.len() - k,
        {
            proof {
                assert(events@.take(k + 1).drop_last() =~= events@.take(k as int));
                assert(events@.take(k + 1).last() == events@[k as int]);
            }
            ok = apply_replay(&mut rows, &events[k]);
            k += 1;
        }
        if !ok {
            proof {
                lemma_replay_stuck(others, events@, k as int);
            }
            return Err(MemoryStoreError::Db(DbFault::DuplicateKey));
        }
        proof {
            assert(events@.take(events@.len() as int) =~= events@);
        }
        self.rows = rows;
        Ok(())
    }
}

/// A replay that is stuck after some events stays stuck.
proof fn lemma_replay_stuck(rows: Seq<MemoryRow>, events: Seq<MemoryEvent>, k: int)
    requires
        0 <= k <= events.len(),
        replay(rows, events.take(k)) is None,
    ensures
        replay(rows, events) is None,
    decreases events.len() - k,
{
    if k == events.len() {
        assert(events.take(k) =~= events);
    } else {
        assert(events.take(k + 1).drop_last() =~= events.take(k));
        lemma_replay_stuck(rows, events, k + 1);
    }
}

} // verus!
