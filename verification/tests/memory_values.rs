use relay::memory::librarian::{contradicts, has_negation};
use relay::memory::limits::MEMORY_CONTENT_MAX_BYTES;
use relay::memory::types::{
    MemoryContent, MemoryHandle, MemoryKind, MemoryState, MEMORY_HANDLE_MAX,
};
use relay::types::ParseError;

#[test]
fn memory_content_rejects_empty_and_oversize() {
    assert!(MemoryContent::try_from("").is_err());
    assert!(MemoryContent::try_from("   \n\t").is_err());
    let big = "a".repeat(MEMORY_CONTENT_MAX_BYTES + 1);
    assert!(MemoryContent::try_from(big.as_str()).is_err());
}

#[test]
fn memory_content_accepts_normal() {
    let c = MemoryContent::try_from("I default to terse replies.").expect("valid");
    assert_eq!(c.as_str(), "I default to terse replies.");
}

#[test]
fn memory_handle_round_trips() {
    let h = MemoryHandle::try_from(12u32).expect("valid");
    let s = h.text();
    assert_eq!(s, "M-12");
    let parsed = MemoryHandle::try_from(s.as_str()).expect("parse");
    assert_eq!(parsed, h);
}

#[test]
fn memory_handle_rejects_zero_and_overflow() {
    assert!(MemoryHandle::try_from(0u32).is_err());
    assert!(MemoryHandle::try_from(MEMORY_HANDLE_MAX + 1).is_err());
}

#[test]
fn memory_handle_rejects_malformed_strings() {
    assert!(MemoryHandle::try_from("12").is_err());
    assert!(MemoryHandle::try_from("M-").is_err());
    assert!(MemoryHandle::try_from("M-abc").is_err());
    assert!(MemoryHandle::try_from("X-12").is_err());
}

#[test]
fn memory_kind_round_trips_every_variant() {
    for k in MemoryKind::all().iter().copied() {
        assert_eq!(MemoryKind::parse(k.as_str()), Some(k));
    }
    assert_eq!(MemoryKind::parse("nope"), None);
    assert_eq!(MemoryKind::Identity.as_str(), "self");
}

#[test]
fn memory_state_round_trips_every_variant() {
    for s in MemoryState::all().iter().copied() {
        assert_eq!(MemoryState::parse(s.as_str()), Some(s));
    }
}

#[test]
fn negation_detection() {
    assert!(has_negation("don't ship on Friday"));
    assert!(has_negation("never push to main"));
    assert!(!has_negation("ship on Friday"));
    assert!(!has_negation("push to main"));
}

#[test]
fn contradicts_only_when_one_side_negates() {
    assert!(contradicts("ship on Friday", "don't ship on Friday"));
    assert!(!contradicts("ship on Friday", "ship on Friday"));
    assert!(!contradicts("never ship on Friday", "don't ship on Friday"));
}

#[test]
fn a_handle_is_read_in_its_own_form_only() {
    assert_eq!(MemoryHandle::try_from("M-12").expect("canonical").get(), 12);
    for raw in ["M-+12", "M-012", "M-00012", "M-+", "m-12", "M-12 ", "12"] {
        assert!(matches!(
            MemoryHandle::try_from(raw),
            Err(ParseError::Malformed { field: "memory_handle", .. })
        ));
    }
    for raw in ["M-0", "M-10000"] {
        assert!(matches!(
            MemoryHandle::try_from(raw),
            Err(ParseError::OutOfRange { field: "memory_handle", .. })
        ));
    }
}
