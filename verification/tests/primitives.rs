use relay::cache::TtlCache;
use relay::ids::{MemoryId, OrgId};
use relay::memory::agent::{AgentMemory, ModeCores};
use relay::memory::columns::{aliased_columns, col_with_suffix};
use relay::memory::composer::compose_memory_section;
use relay::memory::loader::{contextual_query, load_section, plan_search};
use relay::memory::session_cache::SessionMemoryCache;
use relay::memory::store::SearchFilter;
use relay::memory::traits::{Memory, MemoryError, StaticMemory};
use relay::memory::types::{MemoryKind, MemoryState};
use relay::chat::{ChatMessage, UserContent};
use relay::ids::{AgentId, PromptRequestId, SessionId};
use relay::sort::{sort_positions, SortKey};
use relay::text::{
    join, parse_u32, split_words, text_before, truncate_from_start, truncate_to_char_boundary,
};
use relay::time::Timestamp;
use relay::types::{
    IdempotencyKey, ParseError, Participant, Prompt, RequestKindPayload, SecretString, ToolName,
    PROMPT_MAX_BYTES, SECRET_MAX_BYTES, TOOL_NAME_MAX_CHARS,
};

#[test]
fn identifiers_read_as_hyphenated_hex() {
    assert_eq!(MemoryId(0).text(), "00000000-0000-0000-0000-000000000000");
    assert_eq!(
        OrgId(0x0123_4567_89ab_cdef_0123_4567_89ab_cdef).text(),
        "01234567-89ab-cdef-0123-456789abcdef"
    );
    assert_ne!(MemoryId::new(), MemoryId::new());
}

#[test]
fn instants_read_as_rfc_3339() {
    let t = Timestamp::from_secs(1_700_000_000).expect("in the calendar");
    assert_eq!(t.to_rfc3339(), "2023-11-14T22:13:20+00:00");
    assert_eq!(Timestamp::from_micros(i64::MAX), None);
    assert_eq!(t.plus_micros(1).map(|u| u.micros()), Some(1_700_000_000_000_001));
}

#[test]
fn text_is_cut_between_characters() {
    assert_eq!(truncate_to_char_boundary("a\u{e9}b", 2), "a");
    assert_eq!(truncate_to_char_boundary("a\u{e9}b", 3), "a\u{e9}");
    assert_eq!(truncate_from_start("a\u{e9}b", 2), "b");
    assert_eq!(truncate_from_start("a\u{e9}b", 3), "\u{e9}b");
    assert_eq!(truncate_to_char_boundary("abc", 9), "abc");
}

#[test]
fn words_are_split_at_white_space() {
    assert_eq!(split_words("  read\twrite \n all "), vec!["read", "write", "all"]);
    assert!(split_words(" \u{3000} ").is_empty());
    assert_eq!(split_words("one"), vec!["one"]);
}

#[test]
fn texts_are_ordered_like_strings() {
    for (a, b) in [("a", "b"), ("", "a"), ("ab", "abc"), ("B", "a"), ("a", "a"), ("z", "\u{e9}")] {
        assert_eq!(text_before(a, b), a < b);
        assert_eq!(text_before(b, a), b < a);
    }
}

#[test]
fn numbers_are_parsed_like_the_standard_library_does() {
    for s in ["0", "12", "+7", "4294967295", "4294967296", "", "+", "-1", " 1", "1a", "007"] {
        assert_eq!(parse_u32(s), s.parse::<u32>().ok(), "{s}");
    }
}

#[test]
fn parts_are_joined() {
    assert_eq!(join(&vec!["a".to_owned(), "b".to_owned()], ", "), "a, b");
    assert_eq!(join(&vec![], ", "), "");
}

#[test]
fn sorting_is_by_key_and_stable() {
    let key = |major: i128, minor: i128, tie: u128| SortKey { major, minor, tie };
    let keys = vec![key(2, 0, 0), key(1, 5, 9), key(1, 5, 9), key(1, 4, 0)];
    assert_eq!(sort_positions(&keys), vec![3, 1, 2, 0]);
}

#[test]
fn a_full_cache_is_emptied() {
    let mut c: TtlCache<u8> = TtlCache::new(1, 10);
    c.insert((1, 1), 5, 0);
    c.insert((2, 2), 6, 0);
    assert_eq!(c.get((1, 1), 0), None);
    assert_eq!(c.get((2, 2), 9), Some(&6));
    assert_eq!(c.get((2, 2), 10), None);
}

#[test]
fn values_say_why_they_are_refused() {
    assert_eq!(
        Prompt::try_from(" ").expect_err("blank").message(),
        "prompt must not be empty"
    );
    let long = "a".repeat(PROMPT_MAX_BYTES + 1);
    assert_eq!(
        Prompt::try_from(long).expect_err("long").message(),
        "prompt is too long: 65537 bytes, at most 65536"
    );
    assert!(matches!(
        IdempotencyKey::try_from(""),
        Err(ParseError::Empty { field: "idempotency_key" })
    ));
    assert!(matches!(ToolName::try_from("a b"), Err(ParseError::Malformed { .. })));
    assert!(ToolName::try_from("a".repeat(TOOL_NAME_MAX_CHARS + 1).as_str()).is_err());
    assert!(SecretString::try_from("").is_err());
    assert!(SecretString::try_from("s".repeat(SECRET_MAX_BYTES).as_str()).is_ok());
}

#[test]
fn the_parts_of_a_system_prompt_stand_in_their_order() {
    let memory = AgentMemory::new(ModeCores {
        normal: "be kind".to_owned(),
        reflection: "look back".to_owned(),
        resolution: "settle".to_owned(),
    });
    let agent = Participant::Agent { agent_id: AgentId::new() };
    let empty = compose_memory_section(&[], &[], &[]);
    let prompt = memory
        .system_prompt(agent, &RequestKindPayload::Normal, "a helper", "", &empty)
        .expect("an agent");
    assert!(prompt.contains("be kind"));
    assert!(prompt.find("be kind") < prompt.find("a helper"));
    let reflection = RequestKindPayload::Reflection {
        session_id: SessionId::new(),
        up_to_turn_id: PromptRequestId::new(),
    };
    let prompt = memory
        .system_prompt(agent, &reflection, "a helper", "<agents/>", &empty)
        .expect("an agent");
    assert!(prompt.contains("look back"));
    assert!(prompt.find("<agents/>\n") < prompt.find("a helper"));
    let err = memory
        .system_prompt(Participant::Human, &reflection, "", "", &empty)
        .expect_err("no agent");
    assert!(matches!(err, MemoryError::Backend(_)));
}

#[test]
fn a_static_memory_is_the_same_for_everybody() {
    let m = StaticMemory::new("hello".to_owned());
    let prompt = m
        .system_prompt(SessionId::new(), Participant::Human, &RequestKindPayload::Normal)
        .expect("always");
    assert_eq!(prompt, "hello");
}

#[test]
fn a_section_is_cached_for_its_session_and_agent() {
    let mut cache = SessionMemoryCache::new(4, 100);
    let (session, agent) = (SessionId::new(), AgentId::new());
    assert!(cache.lookup(session, agent, 0).is_none());
    cache.store(session, agent, load_section(&[], &[], None), 0);
    assert!(cache.lookup(session, agent, 99).is_some());
    assert!(cache.lookup(session, agent, 100).is_none());
    assert!(cache.lookup(session, AgentId::new(), 0).is_none());
}

#[test]
fn searches_are_bounded() {
    let filter = SearchFilter {
        kinds: Some(vec![MemoryKind::Other, MemoryKind::Identity]),
        min_state: Some(MemoryState::Held),
    };
    assert!(plan_search(0, 5, &filter).is_none());
    assert!(plan_search(3, 0, &filter).is_none());
    let args = plan_search(3, 1_000_000, &filter).expect("a search");
    assert_eq!(args.limit, 1024);
    assert_eq!(args.kinds, Some(vec!["other".to_owned(), "self".to_owned()]));
    let all = plan_search(3, 2, &SearchFilter { kinds: Some(vec![]), min_state: None });
    let all = all.expect("a search");
    assert_eq!((all.limit, all.kinds, all.min_rank), (2, None, None));
}

#[test]
fn the_opening_of_a_conversation_is_what_is_searched_for() {
    let messages = vec![ChatMessage::User(vec![UserContent::Text("about tea".into())])];
    assert_eq!(contextual_query(Some(&messages)), Some("about tea".to_owned()));
    assert_eq!(contextual_query(None), None);
}

#[test]
fn columns_carry_their_suffix() {
    assert_eq!(col_with_suffix("id", "a"), "id_a");
    assert!(aliased_columns("m", "a").starts_with("m.id AS id_a"));
}
