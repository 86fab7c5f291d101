use relay::ids::{
    AgentId, ContradictionEventId, MemoryEventId, MemoryId, OrgId, PromptRequestId,
    ValidationEventId,
};
use relay::memory::columns::{decode_memory_event, insert_event};
use relay::memory::store::{
    MemoryEvent, MemoryEventPayload, MemoryMutation, MemoryRow, MemoryStoreError, MutationSource,
    ResolutionOutcome, ResolutionReason, ValidationOrigin,
};
use relay::memory::tables::MemoryTables;
use relay::memory::types::{MemoryContent, MemoryKind, MemoryState, MutationKind};
use relay::time::Timestamp;

fn at(secs: i64) -> Timestamp {
    Timestamp::from_secs(secs).expect("in the calendar")
}

fn content(s: &str) -> MemoryContent {
    MemoryContent::try_from(s).expect("valid")
}

fn turn() -> MutationSource {
    MutationSource::Turn(PromptRequestId::new())
}

fn ids(n: usize) -> Vec<MemoryEventId> {
    (0..n).map(|_| MemoryEventId::new()).collect()
}

struct Desk {
    tables: MemoryTables,
    agent: AgentId,
    org: OrgId,
}

impl Desk {
    fn new() -> Desk {
        Desk { tables: MemoryTables::new(), agent: AgentId::new(), org: OrgId::new() }
    }

    fn write(&mut self, text: &str, state: MemoryState, pinned: bool, secs: i64) -> MemoryRow {
        let outcome = self
            .tables
            .apply(
                MemoryMutation::Write {
                    agent: self.agent,
                    kind: MemoryKind::Other,
                    content: content(text),
                    state,
                    pinned,
                    source: turn(),
                },
                self.org,
                at(secs),
            )
            .expect("a write succeeds");
        outcome.row.expect("a write gives the row")
    }

    fn contents(&self) -> Vec<String> {
        self.tables.list(self.agent).iter().map(|r| r.content.as_str().to_owned()).collect()
    }
}

#[test]
fn a_write_is_there_and_in_the_journal() {
    let mut d = Desk::new();
    let row = d.write("likes tea", MemoryState::Tentative, false, 10);
    assert_eq!(d.tables.get(row.id).map(|r| r.id), Some(row.id));
    let events = d.tables.list_events(d.agent);
    assert_eq!(events.len(), 1);
    assert_eq!(events[0].mutation_kind(), MutationKind::Write);
    assert_eq!(events[0].target_memory_id, row.id);
}

#[test]
fn an_update_replaces_content_and_state() {
    let mut d = Desk::new();
    let row = d.write("likes tea", MemoryState::Held, false, 10);
    let outcome = d
        .tables
        .apply(
            MemoryMutation::Update {
                agent: d.agent,
                target: row.id,
                content: content("likes coffee"),
                state: MemoryState::Tentative,
                source: turn(),
            },
            d.org,
            at(11),
        )
        .expect("an update succeeds");
    let after = outcome.row.expect("the row");
    assert_eq!(after.content.as_str(), "likes coffee");
    assert_eq!(after.state, MemoryState::Tentative);
    assert_eq!(after.created_at, row.created_at);
}

#[test]
fn a_missing_memory_cannot_be_changed() {
    let mut d = Desk::new();
    let missing = MemoryId::new();
    let err = d
        .tables
        .apply(
            MemoryMutation::Forget { agent: d.agent, target: missing, source: turn() },
            d.org,
            at(1),
        )
        .expect_err("missing");
    assert!(matches!(err, MemoryStoreError::NotFound { id } if id == missing));
}

#[test]
fn memory_is_private_to_its_agent() {
    let mut d = Desk::new();
    let row = d.write("a secret", MemoryState::Held, false, 1);
    let other = AgentId::new();
    for source in [turn(), MutationSource::Operator, MutationSource::Librarian] {
        let err = d
            .tables
            .apply(
                MemoryMutation::Forget { agent: other, target: row.id, source },
                d.org,
                at(2),
            )
            .expect_err("another agent");
        assert!(matches!(err, MemoryStoreError::WrongAgent { id, agent } if id == row.id && agent == other));
    }
    assert!(d.tables.list(other).is_empty());
    assert!(d.tables.list_events(other).is_empty());
}

#[test]
fn only_an_operator_touches_a_pinned_memory() {
    let mut d = Desk::new();
    let row = d.write("core fact", MemoryState::Core, true, 1);
    let forget = |source| MemoryMutation::Forget { agent: row.agent_id, target: row.id, source };
    for source in [turn(), MutationSource::Librarian] {
        let err = d.tables.apply(forget(source), d.org, at(2)).expect_err("pinned");
        assert!(matches!(err, MemoryStoreError::PinnedImmutable { id } if id == row.id));
    }
    let outcome = d.tables.apply(forget(MutationSource::Operator), d.org, at(3)).expect("operator");
    assert!(outcome.row.is_none());
    assert!(d.tables.get(row.id).is_none());
}

#[test]
fn undoing_a_write_removes_the_memory() {
    let mut d = Desk::new();
    let row = d.write("wrong", MemoryState::Held, false, 1);
    let event = d.tables.list_events(d.agent)[0].id;
    let after = d
        .tables
        .revert_event(d.agent, event, MemoryEventId::new(), at(2))
        .expect("undone");
    assert!(after.is_none());
    assert!(d.tables.get(row.id).is_none());
    assert_eq!(d.tables.list_events(d.agent).len(), 2);
}

#[test]
fn undoing_an_update_brings_the_content_back() {
    let mut d = Desk::new();
    let row = d.write("old", MemoryState::Held, false, 1);
    let outcome = d
        .tables
        .apply(
            MemoryMutation::Update {
                agent: d.agent,
                target: row.id,
                content: content("new"),
                state: MemoryState::Held,
                source: turn(),
            },
            d.org,
            at(2),
        )
        .expect("updated");
    let after = d
        .tables
        .revert_event(d.agent, outcome.event_id, MemoryEventId::new(), at(3))
        .expect("undone")
        .expect("still there");
    assert_eq!(after.content.as_str(), "old");
}

#[test]
fn undoing_a_pin_unpins() {
    let mut d = Desk::new();
    let row = d.write("fact", MemoryState::Held, false, 1);
    let pin = MemoryEventId::new();
    d.tables.set_pinned(d.agent, row.id, true, pin, at(2)).expect("pinned");
    let after = d
        .tables
        .revert_event(d.agent, pin, MemoryEventId::new(), at(3))
        .expect("undone")
        .expect("still there");
    assert!(!after.pinned);
    assert_eq!((after.content.as_str(), after.state), ("fact", MemoryState::Held));
    let last = d.tables.list_events(d.agent).pop().expect("journaled");
    assert_eq!(last.source, MutationSource::Operator);
    assert_eq!(last.mutation_kind(), MutationKind::Update);
}

#[test]
fn undoing_an_old_update_goes_back_to_before_it() {
    let mut d = Desk::new();
    let row = d.write("first", MemoryState::Tentative, false, 1);
    let mut update = |text: &str, state, secs| {
        let m = MemoryMutation::Update {
            agent: row.agent_id,
            target: row.id,
            content: content(text),
            state,
            source: turn(),
        };
        d.tables.apply(m, row.org_id, at(secs)).expect("updated").event_id
    };
    let second = update("second", MemoryState::Held, 2);
    update("third", MemoryState::Validated, 3);
    let after = d
        .tables
        .revert_event(d.agent, second, MemoryEventId::new(), at(4))
        .expect("undone")
        .expect("still there");
    assert_eq!((after.content.as_str(), after.state), ("first", MemoryState::Tentative));
    let last = d.tables.list_events(d.agent).pop().expect("journaled");
    assert!(matches!(
        last.payload,
        MemoryEventPayload::Update { before, after, .. }
            if before.as_str() == "third" && after.as_str() == "first"
    ));
}

#[test]
fn undoing_a_removal_brings_the_memory_back() {
    let mut d = Desk::new();
    let row = d.write("kept", MemoryState::Validated, false, 1);
    let outcome = d
        .tables
        .apply(
            MemoryMutation::Forget { agent: d.agent, target: row.id, source: turn() },
            d.org,
            at(2),
        )
        .expect("forgotten");
    let after = d
        .tables
        .revert_event(d.agent, outcome.event_id, MemoryEventId::new(), at(3))
        .expect("undone")
        .expect("back");
    assert_eq!(after.id, row.id);
    assert_eq!(after.content.as_str(), "kept");
    assert_eq!(after.kind, row.kind);
    assert_eq!(after.state, MemoryState::Validated);
    assert!(!after.pinned);
}

#[test]
fn an_event_of_another_agent_cannot_be_undone() {
    let mut d = Desk::new();
    d.write("mine", MemoryState::Held, false, 1);
    let event = d.tables.list_events(d.agent)[0].id;
    let err = d
        .tables
        .revert_event(AgentId::new(), event, MemoryEventId::new(), at(2))
        .expect_err("not theirs");
    assert!(matches!(err, MemoryStoreError::EventNotFound { id } if id == event));
}

#[test]
fn the_view_is_what_the_journal_says() {
    let mut d = Desk::new();
    let a = d.write("first", MemoryState::Held, false, 1);
    d.write("second", MemoryState::Core, true, 2);
    d.tables
        .apply(
            MemoryMutation::Update {
                agent: d.agent,
                target: a.id,
                content: content("first, corrected"),
                state: MemoryState::Validated,
                source: MutationSource::Operator,
            },
            d.org,
            at(3),
        )
        .expect("updated");
    let third = d.write("third", MemoryState::Tentative, false, 4);
    d.tables
        .apply(
            MemoryMutation::Forget { agent: d.agent, target: third.id, source: turn() },
            d.org,
            at(5),
        )
        .expect("forgotten");
    d.tables.set_pinned(d.agent, a.id, true, MemoryEventId::new(), at(6)).expect("pinned");
    let before: Vec<(MemoryId, String, MemoryState, bool)> = d
        .tables
        .list(d.agent)
        .iter()
        .map(|r| (r.id, r.content.as_str().to_owned(), r.state, r.pinned))
        .collect();
    d.tables.rebuild_materialized(d.agent).expect("rebuilt");
    let mut after: Vec<(MemoryId, String, MemoryState, bool)> = d
        .tables
        .list(d.agent)
        .iter()
        .map(|r| (r.id, r.content.as_str().to_owned(), r.state, r.pinned))
        .collect();
    let mut sorted = before.clone();
    sorted.sort_by_key(|r| r.0 .0);
    after.sort_by_key(|r| r.0 .0);
    assert_eq!(after, sorted);
    assert_eq!(after.len(), 2);
}

#[test]
fn two_validations_make_a_tentative_memory_validated() {
    let mut d = Desk::new();
    let row = d.write("maybe", MemoryState::Tentative, false, 1);
    let mut states = Vec::new();
    for i in 0..3 {
        let after = d
            .tables
            .record_validation(
                d.agent,
                row.id,
                ValidationOrigin::Agent(PromptRequestId::new()),
                None,
                ValidationEventId::new(),
                MemoryEventId::new(),
                at(2 + i),
            )
            .expect("validated");
        states.push(after.state);
        assert_eq!(after.last_validated_at, at(2 + i));
    }
    assert_eq!(states, vec![MemoryState::Held, MemoryState::Validated, MemoryState::Validated]);
}

#[test]
fn stale_validations_are_held_again_and_nothing_else() {
    let mut d = Desk::new();
    d.write("old", MemoryState::Validated, false, 10);
    d.write("new", MemoryState::Validated, false, 30);
    d.write("pinned", MemoryState::Validated, true, 10);
    d.write("held", MemoryState::Held, false, 10);
    let n = d.tables.decay_validated(d.agent, at(20), &ids(4), at(40)).expect("decayed");
    assert_eq!(n, 1);
    let states: Vec<(String, MemoryState)> = d
        .tables
        .list(d.agent)
        .iter()
        .map(|r| (r.content.as_str().to_owned(), r.state))
        .collect();
    assert!(states.contains(&("old".to_owned(), MemoryState::Held)));
    assert!(states.contains(&("new".to_owned(), MemoryState::Validated)));
    assert!(states.contains(&("pinned".to_owned(), MemoryState::Validated)));
}

#[test]
fn tentative_memories_mature() {
    let mut d = Desk::new();
    d.write("old", MemoryState::Tentative, false, 10);
    d.write("new", MemoryState::Tentative, false, 30);
    let n = d.tables.mature_tentative(d.agent, at(20), &ids(2), at(40)).expect("matured");
    assert_eq!(n, 1);
    let held: Vec<String> = d
        .tables
        .list(d.agent)
        .iter()
        .filter(|r| r.state == MemoryState::Held)
        .map(|r| r.content.as_str().to_owned())
        .collect();
    assert_eq!(held, vec!["old".to_owned()]);
}

#[test]
fn eviction_meets_the_quota_with_the_least_valuable() {
    let mut d = Desk::new();
    d.write("tentative", MemoryState::Tentative, false, 50);
    d.write("held", MemoryState::Held, false, 40);
    d.write("validated", MemoryState::Validated, false, 10);
    d.write("pinned", MemoryState::Tentative, true, 1);
    let gone = d.tables.evict_overflow(d.agent, 2, &ids(4), at(60)).expect("evicted");
    assert_eq!(gone.len(), 2);
    let left = d.contents();
    assert_eq!(left.len(), 2);
    assert!(left.contains(&"validated".to_owned()));
    assert!(left.contains(&"pinned".to_owned()));
    assert!(d.tables.evict_overflow(d.agent, 2, &ids(2), at(61)).expect("none").is_empty());
}

#[test]
fn reading_a_memory_is_counted() {
    let mut d = Desk::new();
    let row = d.write("read me", MemoryState::Held, false, 1);
    d.tables.record_access(&vec![row.id, MemoryId::new()], at(9));
    let after = d.tables.get(row.id).expect("there");
    assert_eq!(after.access_count, row.access_count + 1);
    assert_eq!(after.last_accessed_at, at(9));
}

#[test]
fn a_pair_is_flagged_once_in_either_order() {
    let mut d = Desk::new();
    let a = d.write("yes", MemoryState::Held, false, 1).id;
    let b = d.write("no", MemoryState::Held, false, 2).id;
    let first = d
        .tables
        .record_contradiction(
            d.agent,
            d.org,
            a,
            b,
            "opposed".to_owned(),
            ContradictionEventId::new(),
            at(3),
        )
        .expect("flagged");
    let again = d
        .tables
        .record_contradiction(
            d.agent,
            d.org,
            b,
            a,
            "again".to_owned(),
            ContradictionEventId::new(),
            at(4),
        )
        .expect("known");
    assert_eq!(first, again);
    assert_eq!(d.tables.unresolved_contradictions(d.agent).len(), 1);
    assert_eq!(
        d.tables.read_contradiction(first).map(|c| c.reason),
        Some("opposed".to_owned())
    );
}

#[test]
fn the_first_resolution_stands() {
    let mut d = Desk::new();
    let a = d.write("yes", MemoryState::Held, false, 1).id;
    let b = d.write("no", MemoryState::Held, false, 2).id;
    let id = d
        .tables
        .record_contradiction(
            d.agent,
            d.org,
            a,
            b,
            "opposed".to_owned(),
            ContradictionEventId::new(),
            at(3),
        )
        .expect("flagged");
    let reason = |s: &str| ResolutionOutcome::NoAction {
        reason: ResolutionReason::try_from(s.to_owned()).expect("valid"),
    };
    d.tables.resolve_contradiction(id, reason("both hold"), at(4)).expect("resolved");
    d.tables.resolve_contradiction(id, reason("too late"), at(5)).expect("nothing to do");
    let row = d.tables.read_contradiction(id).expect("there");
    assert_eq!(row.resolution_reason.as_deref(), Some("both hold"));
    assert_eq!(row.resolved_at, Some(at(4)));
    assert!(d.tables.unresolved_contradictions(d.agent).is_empty());
    let missing = ContradictionEventId::new();
    let err = d.tables.resolve_contradiction(missing, reason("x"), at(6)).expect_err("missing");
    assert!(matches!(err, MemoryStoreError::ContradictionNotFound(id) if id == missing));
}

#[test]
fn events_survive_their_columns() {
    let payloads = vec![
        MemoryEventPayload::Write {
            content: content("w"),
            kind: MemoryKind::Procedure,
            state: MemoryState::Held,
            pinned: true,
        },
        MemoryEventPayload::Update {
            before: content("b"),
            after: content("a"),
            kind: MemoryKind::Open,
            state: MemoryState::Core,
            pinned: false,
        },
        MemoryEventPayload::Forget { before: content("f") },
    ];
    for (i, payload) in payloads.into_iter().enumerate() {
        let source = [turn(), MutationSource::Operator, MutationSource::Librarian][i];
        let event = MemoryEvent {
            id: MemoryEventId::new(),
            agent_id: AgentId::new(),
            org_id: OrgId::new(),
            target_memory_id: MemoryId::new(),
            source,
            created_at: at(7),
            payload,
        };
        let back = decode_memory_event(insert_event(&event)).expect("readable");
        assert_eq!(format!("{back:?}"), format!("{event:?}"));
    }
}

#[test]
fn an_event_with_unreadable_content_is_refused() {
    let event = MemoryEvent {
        id: MemoryEventId::new(),
        agent_id: AgentId::new(),
        org_id: OrgId::new(),
        target_memory_id: MemoryId::new(),
        source: MutationSource::Operator,
        created_at: at(7),
        payload: MemoryEventPayload::Forget { before: content("f") },
    };
    let mut columns = insert_event(&event);
    columns.content_before = Some("  ".to_owned());
    let err = decode_memory_event(columns).expect_err("blank");
    assert!(matches!(err, MemoryStoreError::Parse(_)));
}
