use relay::ids::{AgentId, ContradictionEventId, MemoryId, OrgId, PromptRequestId};
use relay::memory::librarian::{
    build_resolution_prompt, flag_reason, pick_dedup_winner, plan_flags, plan_merges,
    resolution_request, LibrarianSweep, SweepAction, SweepReply,
};
use relay::memory::limits::{MAX_MEMORIES_PER_AGENT, VALIDATION_DECAY_MICROS};
use relay::memory::store::{ContradictionEventRow, MemoryRow, PairCandidate, Similarity};
use relay::memory::types::{MemoryContent, MemoryKind, MemoryState};
use relay::time::Timestamp;
use relay::types::{Participant, RequestKindPayload};

fn at(secs: i64) -> Timestamp {
    Timestamp::from_secs(secs).expect("in the calendar")
}

fn fixture_row(id: MemoryId, content: &str, kind: MemoryKind, state: MemoryState) -> MemoryRow {
    MemoryRow {
        id,
        agent_id: AgentId::new(),
        org_id: OrgId::new(),
        kind,
        content: MemoryContent::try_from(content).expect("valid"),
        state,
        pinned: false,
        source_turn_id: None,
        created_at: at(1_700_000_000),
        last_validated_at: at(1_700_000_000),
        last_accessed_at: at(1_700_000_000),
        access_count: 3,
    }
}

fn fixture_event(a: MemoryId, b: MemoryId, reason: &str) -> ContradictionEventRow {
    ContradictionEventRow {
        id: ContradictionEventId::new(),
        agent_id: AgentId::new(),
        org_id: OrgId::new(),
        memory_a: a,
        memory_b: b,
        reason: reason.into(),
        created_at: at(1_700_000_000),
        resolved_at: None,
        resolution_event_id: None,
        resolution_reason: None,
    }
}

#[test]
fn resolution_prompt_renders_both_memories_with_provenance() {
    let a = MemoryId::new();
    let b = MemoryId::new();
    let row_a = fixture_row(a, "ship on Friday", MemoryKind::Procedure, MemoryState::Held);
    let row_b = fixture_row(
        b,
        "don't ship on Friday",
        MemoryKind::Procedure,
        MemoryState::Tentative,
    );
    let ev = fixture_event(a, b, "high similarity with opposing cues");

    let prompt = build_resolution_prompt(&ev, Some(&row_a), Some(&row_b));
    let s = prompt.as_str();

    assert!(s.contains("Reason flagged: high similarity"));
    assert!(s.contains("Memory A (M-1):"));
    assert!(s.contains("Memory B (M-2):"));
    assert!(s.contains("ship on Friday"));
    assert!(s.contains("don't ship on Friday"));
    assert!(s.contains("Kind: procedure"));
    assert!(s.contains("State: held"));
    assert!(s.contains("State: tentative"));
    assert!(s.contains("Source turn: (operator note or librarian merge)"));
}

#[test]
fn resolution_prompt_degrades_when_memory_missing() {
    let a = MemoryId::new();
    let b = MemoryId::new();
    let row_a = fixture_row(a, "still here", MemoryKind::Other, MemoryState::Held);
    let ev = fixture_event(a, b, "flagged");

    let prompt = build_resolution_prompt(&ev, Some(&row_a), None);
    let s = prompt.as_str();
    assert!(s.contains("Memory A (M-1):"));
    assert!(s.contains("Memory B (M-2):"));
    assert!(s.contains("still here"));
    assert!(
        s.contains("[no longer exists"),
        "missing memory placeholder rendered: {s}"
    );
}

fn pair(a: MemoryRow, b: MemoryRow, duplicate: bool) -> PairCandidate {
    PairCandidate { a, b, similarity: Similarity { text: "0.97".to_owned(), duplicate } }
}

fn memory(content: &str, state: MemoryState) -> MemoryRow {
    fixture_row(MemoryId::new(), content, MemoryKind::Other, state)
}

#[test]
fn the_winner_of_a_pair_does_not_depend_on_its_order() {
    let a = memory("same", MemoryState::Validated);
    let b = memory("same", MemoryState::Held);
    let one = pair(a.clone(), b.clone(), true);
    let other = pair(b.clone(), a.clone(), true);
    assert_eq!(pick_dedup_winner(&one).0.id, a.id);
    assert_eq!(pick_dedup_winner(&other).0.id, a.id);
    assert_eq!(pick_dedup_winner(&one).1.id, b.id);
    assert_eq!(pick_dedup_winner(&other).1.id, b.id);
}

#[test]
fn merging_forgets_each_memory_once_and_spares_pinned_ones() {
    let keep = memory("same", MemoryState::Core);
    let gone = memory("same", MemoryState::Held);
    let mut pinned = memory("same", MemoryState::Tentative);
    pinned.pinned = true;
    let pairs = vec![
        pair(keep.clone(), gone.clone(), true),
        pair(gone.clone(), keep.clone(), true),
        pair(keep.clone(), pinned.clone(), true),
    ];
    let (actions, forgotten) = plan_merges(&pairs);
    assert_eq!(forgotten, vec![gone.id]);
    assert_eq!(actions.len(), 1);
    assert!(matches!(actions[0], SweepAction::Forget { memory } if memory == gone.id));
}

#[test]
fn a_copy_of_another_turn_confirms_what_stays() {
    let mut keep = memory("same", MemoryState::Held);
    keep.source_turn_id = Some(PromptRequestId::new());
    let mut copy = memory("same", MemoryState::Tentative);
    copy.source_turn_id = Some(PromptRequestId::new());
    let (actions, _) = plan_merges(&vec![pair(keep.clone(), copy.clone(), true)]);
    assert!(matches!(actions[0], SweepAction::Validate { memory } if memory == keep.id));
    assert!(matches!(actions[1], SweepAction::Forget { memory } if memory == copy.id));
}

#[test]
fn only_opposed_memories_that_are_still_there_are_flagged() {
    let yes = memory("ship on Friday", MemoryState::Held);
    let no = memory("don't ship on Friday", MemoryState::Held);
    let pairs = vec![pair(yes.clone(), no.clone(), false)];
    assert_eq!(plan_flags(&pairs, &vec![]).len(), 1);
    assert!(plan_flags(&pairs, &vec![no.id]).is_empty());
    assert!(plan_flags(&vec![pair(yes.clone(), no.clone(), true)], &vec![]).is_empty());
    assert!(plan_flags(&vec![pair(yes.clone(), yes.clone(), false)], &vec![]).is_empty());
}

#[test]
fn a_sweep_merges_decays_evicts_and_flags() {
    let now = at(1_700_000_000);
    let mut sweep = LibrarianSweep::start(now).expect("in the calendar");
    let keep = memory("ship on Friday", MemoryState::Core);
    let gone = memory("ship on Friday", MemoryState::Held);
    let no = memory("don't ship on Friday", MemoryState::Held);
    assert!(matches!(sweep.next_action(), SweepAction::FindDuplicates));
    sweep.advance(SweepReply::Pairs(vec![pair(keep.clone(), gone.clone(), true)]));
    assert!(matches!(sweep.next_action(), SweepAction::Forget { memory } if memory == gone.id));
    sweep.advance(SweepReply::Done);
    match sweep.next_action() {
        SweepAction::Decay { cutoff } => {
            assert_eq!(cutoff.micros(), now.micros() - VALIDATION_DECAY_MICROS)
        }
        other => panic!("expected a decay, got {other:?}"),
    }
    sweep.advance(SweepReply::Count(2));
    assert!(
        matches!(sweep.next_action(), SweepAction::Evict { quota } if quota == MAX_MEMORIES_PER_AGENT)
    );
    sweep.advance(SweepReply::Count(1));
    assert!(matches!(sweep.next_action(), SweepAction::FindContradictions));
    sweep.advance(SweepReply::Pairs(vec![
        pair(gone.clone(), no.clone(), false),
        pair(keep.clone(), no.clone(), false),
    ]));
    match sweep.next_action() {
        SweepAction::Flag { a, b, similarity } => {
            assert_eq!((a, b, similarity.as_str()), (keep.id, no.id, "0.97"))
        }
        other => panic!("expected a flag, got {other:?}"),
    }
    sweep.advance(SweepReply::Done);
    match sweep.next_action() {
        SweepAction::Finish(report) => {
            assert_eq!(report.deduped, 1);
            assert_eq!(report.demoted, 2);
            assert_eq!(report.evicted, 1);
            assert_eq!(report.contradictions_flagged, 1);
        }
        other => panic!("expected the end, got {other:?}"),
    }
}

#[test]
fn flags_say_how_similar_the_memories_are() {
    assert!(flag_reason("0.91").contains("0.91"));
}

#[test]
fn a_contradiction_is_settled_in_a_conversation_of_its_own() {
    let a = MemoryId::new();
    let b = MemoryId::new();
    let ev = fixture_event(a, b, "flagged");
    let r = resolution_request(ev.agent_id, &ev, None, None);
    assert_eq!(r.session, None);
    assert_eq!(r.parent_session, None);
    assert_eq!(r.receiver_agent_id, ev.agent_id);
    assert_eq!(r.sender, Participant::Agent { agent_id: ev.agent_id });
    assert!(matches!(
        r.kind_payload,
        RequestKindPayload::Resolution { contradiction_event_id } if contradiction_event_id == ev.id
    ));
}
