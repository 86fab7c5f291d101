use relay::ids::{AgentId, OrgId, PromptRequestId, SessionId};
use relay::memory::reflection::{find_candidates, SessionActivity};
use relay::memory::store::{
    MemoryMutation, MemoryRow, MemoryStoreError, MutationSource, PairCandidate, Similarity,
};
use relay::memory::sweep::run_librarian_sweep;
use relay::memory::tables::MemoryTables;
use relay::memory::types::{MemoryContent, MemoryKind, MemoryState};
use relay::types::RequestKind;
use relay::time::Timestamp;

fn at(secs: i64) -> Timestamp {
    Timestamp::from_secs(secs).expect("in the calendar")
}

struct Desk {
    tables: MemoryTables,
    agent: AgentId,
    org: OrgId,
}

impl Desk {
    fn new() -> Desk {
        Desk { tables: MemoryTables::new(), agent: AgentId::new(), org: OrgId::new() }
    }

    fn write(&mut self, text: &str, state: MemoryState, pinned: bool, secs: i64) -> MemoryRow {
        self.tables
            .apply(
                MemoryMutation::Write {
                    agent: self.agent,
                    kind: MemoryKind::Other,
                    content: MemoryContent::try_from(text).expect("valid"),
                    state,
                    pinned,
                    source: MutationSource::Turn(PromptRequestId::new()),
                },
                self.org,
                at(secs),
            )
            .expect("a write succeeds")
            .row
            .expect("a write gives the row")
    }
}

fn pair(a: &MemoryRow, b: &MemoryRow, text: &str, duplicate: bool) -> PairCandidate {
    PairCandidate {
        a: a.clone(),
        b: b.clone(),
        similarity: Similarity { text: text.to_owned(), duplicate },
    }
}

const DAY: i64 = 86_400;

#[test]
fn a_sweep_merges_decays_and_flags() {
    let mut d = Desk::new();
    let now = 200 * DAY;
    let keep = d.write("likes tea", MemoryState::Held, false, now - 20);
    let copy = d.write("likes tea a lot", MemoryState::Tentative, false, now - 10);
    let stale = d.write("works at night", MemoryState::Validated, false, DAY);
    let yes = d.write("eats fish", MemoryState::Held, false, now - 9);
    let no = d.write("does not eat fish", MemoryState::Held, false, now - 8);
    let report = run_librarian_sweep(
        &mut d.tables,
        d.agent,
        d.org,
        at(now),
        vec![pair(&keep, &copy, "0.970", true)],
        vec![pair(&yes, &no, "0.850", false), pair(&keep, &copy, "0.970", true)],
    )
    .expect("the sweep is through");
    assert_eq!(
        (report.deduped, report.demoted, report.evicted, report.contradictions_flagged),
        (1, 1, 0, 1)
    );
    assert!(d.tables.get(copy.id).is_none());
    let kept = d.tables.get(keep.id).expect("the winner stays");
    assert_eq!(kept.state, MemoryState::Validated);
    assert_eq!(kept.last_validated_at, at(now));
    assert_eq!(d.tables.get(stale.id).map(|r| r.state), Some(MemoryState::Held));
    let open = d.tables.unresolved_contradictions(d.agent);
    assert_eq!(open.len(), 1);
    assert_eq!(
        open[0].reason,
        "high embedding similarity (0.850) with opposing textual cues"
    );
    let librarian = d
        .tables
        .list_events(d.agent)
        .iter()
        .filter(|e| e.source == MutationSource::Librarian)
        .count();
    assert_eq!(librarian, 3);
}

#[test]
fn a_sweep_spares_pinned_memories_and_other_agents() {
    let mut d = Desk::new();
    let now = 200 * DAY;
    let pinned = d.write("works at night", MemoryState::Validated, true, DAY);
    let own = d.agent;
    d.agent = AgentId::new();
    let other = d.write("works at night", MemoryState::Validated, false, DAY);
    d.agent = own;
    let report =
        run_librarian_sweep(&mut d.tables, d.agent, d.org, at(now), Vec::new(), Vec::new())
            .expect("nothing to do");
    assert_eq!(report.demoted, 0);
    assert_eq!(d.tables.get(pinned.id).map(|r| r.state), Some(MemoryState::Validated));
    assert_eq!(d.tables.get(other.id).map(|r| r.state), Some(MemoryState::Validated));
}

#[test]
fn a_sweep_that_is_run_again_finds_nothing_to_do() {
    let mut d = Desk::new();
    let now = at(200 * DAY);
    d.write("works at night", MemoryState::Validated, false, DAY);
    let first = run_librarian_sweep(&mut d.tables, d.agent, d.org, now, Vec::new(), Vec::new())
        .expect("the sweep is through");
    let journal = d.tables.list_events(d.agent).len();
    let second = run_librarian_sweep(&mut d.tables, d.agent, d.org, now, Vec::new(), Vec::new())
        .expect("the sweep is through");
    assert_eq!((first.demoted, second.demoted), (1, 0));
    assert_eq!(d.tables.list_events(d.agent).len(), journal);
}

#[test]
fn a_sweep_ends_at_a_memory_that_is_gone() {
    let mut d = Desk::new();
    let now = 200 * DAY;
    let a = d.write("likes tea", MemoryState::Held, false, now - 20);
    let mut b = d.write("likes tea a lot", MemoryState::Tentative, false, now - 10);
    b.source_turn_id = a.source_turn_id;
    let pairs = || vec![pair(&a, &b, "0.970", true)];
    run_librarian_sweep(&mut d.tables, d.agent, d.org, at(now), pairs(), Vec::new())
        .expect("the first sweep merges");
    let err = run_librarian_sweep(&mut d.tables, d.agent, d.org, at(now), pairs(), Vec::new())
        .expect_err("the copy is gone");
    assert!(matches!(err, MemoryStoreError::NotFound { id } if id == b.id));
    assert!(d.tables.get(a.id).is_some());
}

#[test]
fn a_sweep_does_not_begin_with_a_pinned_winner() {
    let mut d = Desk::new();
    let now = 200 * DAY;
    let pinned = d.write("likes tea", MemoryState::Core, true, now - 20);
    let copy = d.write("likes tea a lot", MemoryState::Held, false, now - 10);
    let pairs = vec![pair(&pinned, &copy, "0.970", true)];
    let err = run_librarian_sweep(&mut d.tables, d.agent, d.org, at(now), pairs, Vec::new())
        .expect_err("the winner is pinned");
    assert!(matches!(err, MemoryStoreError::PinnedImmutable { id } if id == pinned.id));
    assert!(d.tables.get(copy.id).is_some());
    assert_eq!(d.tables.list_events(d.agent).len(), 2);
}

#[test]
fn pairs_that_call_for_nothing_end_no_sweep() {
    let mut d = Desk::new();
    let now = 200 * DAY;
    let a = d.write("likes tea", MemoryState::Core, true, now - 20);
    let mut b = d.write("likes tea a lot", MemoryState::Held, true, now - 10);
    b.source_turn_id = a.source_turn_id;
    let same = vec![pair(&a, &b, "0.970", true)];
    let agree = vec![pair(&a, &b, "0.850", false)];
    let report = run_librarian_sweep(&mut d.tables, d.agent, d.org, at(now), same, agree)
        .expect("nothing to do");
    assert_eq!((report.deduped, report.contradictions_flagged), (0, 0));
}

fn session(latest: i64) -> SessionActivity {
    SessionActivity {
        agent_id: AgentId::new(),
        session_id: SessionId::new(),
        last_turn_id: PromptRequestId::new(),
        latest_at: at(latest),
        checkpoint_turn_id: None,
        checkpoint_at: None,
        opened_for: Some(RequestKind::Normal),
        in_flight: false,
    }
}

#[test]
fn idle_conversations_are_looked_back_on_oldest_first() {
    let mut seen = session(60);
    seen.checkpoint_turn_id = Some(PromptRequestId::new());
    seen.checkpoint_at = Some(at(60));
    let mut moved_on = session(70);
    moved_on.checkpoint_turn_id = Some(PromptRequestId::new());
    moved_on.checkpoint_at = Some(at(69));
    let mut running = session(50);
    running.in_flight = true;
    let mut reflection = session(40);
    reflection.opened_for = Some(RequestKind::Reflection);
    let mut unknown = session(30);
    unknown.opened_for = None;
    let (cursor, last) = (moved_on.checkpoint_turn_id, moved_on.last_turn_id);
    let (at_cutoff, busy) = (session(100), session(101));
    let expected = vec![unknown.session_id, moved_on.session_id, at_cutoff.session_id];
    let all = vec![at_cutoff, busy, seen, moved_on, running, reflection, unknown];
    let found = find_candidates(&all, at(100));
    assert_eq!(found.iter().map(|c| c.session_id).collect::<Vec<_>>(), expected);
    assert_eq!(found[1].previous_cursor, cursor);
    assert_eq!(found[1].last_turn_id, last);
    assert_eq!(found[0].previous_cursor, None);
}

#[test]
fn one_round_looks_back_on_so_many_conversations() {
    let all: Vec<SessionActivity> = (0..40).map(|i| session(100 - i)).collect();
    let found = find_candidates(&all, at(1000));
    assert_eq!(found.len(), 32);
    assert_eq!(found[0].session_id, all[39].session_id);
    assert_eq!(found[31].session_id, all[8].session_id);
}
