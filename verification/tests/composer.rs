use relay::ids::{AgentId, MemoryId, OrgId};
use relay::memory::composer::{
    compose_memory_section, MEMORY_TAG_CLOSE, MEMORY_TAG_OPEN,
};
use relay::memory::limits::{
    CONTEXTUAL_LAYER_MAX_BYTES, RENDER_LINE_OVERHEAD_BYTES, STABLE_LAYER_MAX_BYTES,
};
use relay::memory::store::MemoryRow;
use relay::memory::types::{MemoryContent, MemoryHandle, MemoryKind, MemoryState};
use relay::time::Timestamp;

fn row(
    ix: u8,
    kind: MemoryKind,
    content: &str,
    state: MemoryState,
    pinned: bool,
    ts_secs: i64,
) -> MemoryRow {
    let at = Timestamp::from_secs(ts_secs).expect("in the calendar");
    MemoryRow {
        id: MemoryId::new(),
        agent_id: AgentId::new(),
        org_id: OrgId::new(),
        kind,
        content: MemoryContent::try_from(content).expect("valid"),
        state,
        pinned,
        source_turn_id: None,
        created_at: at,
        last_validated_at: at,
        last_accessed_at: at,
        access_count: u64::from(ix),
    }
}

#[test]
fn empty_input_renders_empty_section() {
    let section = compose_memory_section(&[], &[], &[]);
    assert!(section.is_empty());
    assert!(section.is_empty());
}

#[test]
fn stable_layer_filters_to_pinned_or_self() {
    let rows = vec![
        row(1, MemoryKind::Identity, "self memory", MemoryState::Held, false, 100),
        row(2, MemoryKind::Other, "other memory", MemoryState::Held, false, 200),
        row(3, MemoryKind::Procedure, "pinned proc", MemoryState::Core, true, 300),
    ];
    let section = compose_memory_section(&rows, &[], &[]);
    let txt = section.text();
    assert!(txt.contains("self memory"), "Self kind included: {txt}");
    assert!(txt.contains("pinned proc"), "pinned non-Self included: {txt}");
    assert!(!txt.contains("other memory"), "non-pinned non-Self excluded: {txt}");
}

#[test]
fn stable_layer_sorted_by_state_then_recency() {
    let rows = vec![
        row(1, MemoryKind::Identity, "tentative-old", MemoryState::Tentative, false, 100),
        row(2, MemoryKind::Identity, "validated-old", MemoryState::Validated, false, 100),
        row(3, MemoryKind::Identity, "held-new", MemoryState::Held, false, 999),
        row(4, MemoryKind::Identity, "validated-new", MemoryState::Validated, false, 500),
    ];
    let section = compose_memory_section(&rows, &[], &[]);
    let txt = section.text();
    let pos = |s: &str| txt.find(s).expect("present");
    assert!(pos("validated-new") < pos("validated-old"));
    assert!(pos("validated-old") < pos("held-new"));
    assert!(pos("held-new") < pos("tentative-old"));
}

#[test]
fn handle_map_round_trips_to_memory_id() {
    let rows = vec![row(1, MemoryKind::Identity, "first", MemoryState::Held, false, 100)];
    let section = compose_memory_section(&rows, &[], &[]);
    let id = rows[0].id;
    let handle = MemoryHandle::try_from(1u32).expect("valid");
    assert_eq!(section.resolve_handle(handle), Some(id));
    assert!(section.text().contains("M-1"));
}

#[test]
fn render_uses_state_label_and_handle() {
    let rows = vec![row(
        1,
        MemoryKind::Identity,
        "terse replies",
        MemoryState::Validated,
        false,
        100,
    )];
    let section = compose_memory_section(&rows, &[], &[]);
    assert!(
        section.text().contains("- [M-1, validated] terse replies"),
        "render shape: {}",
        section.text()
    );
    assert!(section.text().contains("### Self"));
    assert!(
        section.text().starts_with(MEMORY_TAG_OPEN),
        "wrapped in <memory>: {}",
        section.text()
    );
    assert!(section.text().ends_with(MEMORY_TAG_CLOSE));
}

#[test]
fn trim_drops_overflow_past_budget() {
    let big_content = "x".repeat(STABLE_LAYER_MAX_BYTES / 4);
    let rows: Vec<MemoryRow> = (0..10)
        .map(|i| {
            row(
                i,
                MemoryKind::Identity,
                big_content.as_str(),
                MemoryState::Held,
                false,
                i64::from(i),
            )
        })
        .collect();
    let section = compose_memory_section(&rows, &[], &[]);
    let count = section.text().matches("- [M-").count();
    assert!(count >= 1, "at least one row kept");
    assert!(count < rows.len(), "trimmed below row count");
}

#[test]
fn kinds_render_in_fixed_order() {
    let rows = vec![
        row(1, MemoryKind::Procedure, "pin-proc", MemoryState::Core, true, 100),
        row(2, MemoryKind::Other, "pin-other", MemoryState::Core, true, 200),
    ];
    let section = compose_memory_section(&rows, &[], &[]);
    let txt = section.text();
    let other = txt.find("### Other").expect("### Other present");
    let proc = txt.find("### Procedure").expect("### Procedure present");
    assert!(other < proc, "Other section precedes Procedure: {txt}");
}

#[test]
fn reserved_handles_bind_without_rendering_pair() {
    let pair_a = MemoryId::new();
    let pair_b = MemoryId::new();
    let section = compose_memory_section(&[], &[], &[pair_a, pair_b]);
    assert_eq!(section.text(), "", "no text when only reserved handles");
    assert!(section.is_empty());
    let h1 = MemoryHandle::try_from(1u32).expect("M-1");
    let h2 = MemoryHandle::try_from(2u32).expect("M-2");
    assert_eq!(section.resolve_handle(h1), Some(pair_a));
    assert_eq!(section.resolve_handle(h2), Some(pair_b));
}

#[test]
fn reserved_pair_dedups_from_layered_text_and_offsets_handles() {
    let pair_a = row(1, MemoryKind::Identity, "pair-a", MemoryState::Held, false, 100);
    let pair_a_id = pair_a.id;
    let pair_b = MemoryId::new();
    let other = row(2, MemoryKind::Identity, "other-self", MemoryState::Held, false, 200);
    let other_id = other.id;
    let rows = vec![pair_a, other];

    let section = compose_memory_section(&rows, &[], &[pair_a_id, pair_b]);
    let txt = section.text();
    assert!(!txt.contains("pair-a"), "pair-side row not rendered: {txt}");
    assert!(txt.contains("other-self"), "non-pair row rendered: {txt}");
    assert!(
        txt.contains("- [M-3, held] other-self"),
        "layered row offset to M-3: {txt}"
    );
    let h1 = MemoryHandle::try_from(1u32).expect("M-1");
    let h2 = MemoryHandle::try_from(2u32).expect("M-2");
    let h3 = MemoryHandle::try_from(3u32).expect("M-3");
    assert_eq!(section.resolve_handle(h1), Some(pair_a_id));
    assert_eq!(section.resolve_handle(h2), Some(pair_b));
    assert_eq!(section.resolve_handle(h3), Some(other_id));
}

#[test]
fn a_memory_in_both_layers_is_rendered_once() {
    let shared = row(1, MemoryKind::Identity, "shared", MemoryState::Held, false, 100);
    let found = vec![
        shared.clone(),
        row(2, MemoryKind::Other, "found", MemoryState::Held, false, 50),
    ];
    let section = compose_memory_section(&[shared], &found, &[]);
    assert_eq!(section.text().matches("shared").count(), 1);
    assert_eq!(section.text().matches("found").count(), 1);
}

#[test]
fn each_layer_stays_within_its_budget() {
    let size = CONTEXTUAL_LAYER_MAX_BYTES / 2 - RENDER_LINE_OVERHEAD_BYTES;
    let found: Vec<MemoryRow> = (0..3)
        .map(|i| {
            row(i, MemoryKind::Other, &"y".repeat(size), MemoryState::Held, false, i64::from(i))
        })
        .collect();
    let section = compose_memory_section(&[], &found, &[]);
    assert_eq!(section.text().matches("- [M-").count(), 2);
}

#[test]
fn handles_are_bound_in_order_and_no_others() {
    let rows: Vec<MemoryRow> = (0..3)
        .map(|i| {
            let content = format!("memory {i}");
            row(i, MemoryKind::Identity, &content, MemoryState::Held, false, i64::from(i))
        })
        .collect();
    let section = compose_memory_section(&rows, &[], &[]);
    let handle = |n: u32| MemoryHandle::try_from(n).expect("valid");
    assert_eq!(section.resolve_handle(handle(1)), Some(rows[2].id));
    assert_eq!(section.resolve_handle(handle(2)), Some(rows[1].id));
    assert_eq!(section.resolve_handle(handle(3)), Some(rows[0].id));
    assert_eq!(section.resolve_handle(handle(4)), None);
}
