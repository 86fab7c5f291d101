use relay::chat::{
    first_user_text, map_for_viewer, render_chat_message, AssistantContent, ChatMessage, ToolCall,
    ToolInput, ToolResult, UserContent,
};
use relay::memory::reflection::build_reflection_prompt;
use relay::types::{ToolCallId, ToolName};

fn tool_call_id(s: &str) -> ToolCallId {
    ToolCallId::try_from(s).expect("literal tool-call id is valid")
}

fn tool_name(s: &str) -> ToolName {
    ToolName::try_from(s).expect("literal tool name is valid")
}

fn json(s: &str) -> ToolInput {
    ToolInput::from_json(s).expect("literal is JSON")
}

#[test]
fn tool_result_body_dropped_from_self_user_block() {
    let big = "x".repeat(100_000);
    let msg = ChatMessage::User(vec![UserContent::ToolResult(ToolResult {
        call_id: tool_call_id("call-1"),
        output: big.clone(),
        is_error: false,
    })]);
    let mut out = String::new();
    render_chat_message(&msg, &mut out);
    assert!(out.contains("[tool-result call-1: ok]"));
    assert!(!out.contains(&big));
    assert!(out.len() < 200);
}

#[test]
fn tool_result_body_dropped_from_other_assistant_block() {
    let big = "x".repeat(100_000);
    let stored = ChatMessage::User(vec![UserContent::ToolResult(ToolResult {
        call_id: tool_call_id("call-2"),
        output: big.clone(),
        is_error: false,
    })]);
    let flipped = map_for_viewer(stored, false);
    let mut out = String::new();
    render_chat_message(&flipped, &mut out);
    assert!(out.contains("[tool-result call-2: ok]"));
    assert!(!out.contains(&big));
    assert!(out.len() < 200);
}

#[test]
fn tool_result_error_marker() {
    let msg = ChatMessage::User(vec![UserContent::ToolResult(ToolResult {
        call_id: tool_call_id("call-3"),
        output: "boom".into(),
        is_error: true,
    })]);
    let mut self_out = String::new();
    render_chat_message(&msg, &mut self_out);
    assert!(self_out.contains("[tool-result call-3: err]"));
    assert!(!self_out.contains("boom"));

    let flipped = map_for_viewer(msg, false);
    let mut other_out = String::new();
    render_chat_message(&flipped, &mut other_out);
    assert!(other_out.contains("[tool-result call-3: err]"));
    assert!(!other_out.contains("boom"));
}

#[test]
fn reasoning_and_tool_call_args_preserved_verbatim() {
    let assistant = ChatMessage::Assistant(vec![
        AssistantContent::Reasoning("digested findings".into()),
        AssistantContent::ToolCall(ToolCall {
            id: tool_call_id("call-4"),
            name: tool_name("send_message"),
            input: json("{\"text\": \"report\"}"),
        }),
    ]);

    let mut self_out = String::new();
    render_chat_message(&assistant, &mut self_out);
    assert!(self_out.contains("digested findings"));
    assert!(self_out.contains("[tool-call send_message("));
    assert!(self_out.contains(r#""text":"report""#));

    let flipped = map_for_viewer(assistant, false);
    let mut other_out = String::new();
    render_chat_message(&flipped, &mut other_out);
    assert!(other_out.contains("digested findings"));
    assert!(other_out.contains("[tool-call send_message("));
    assert!(other_out.contains(r#""text":"report""#));
}

#[test]
fn large_web_fetch_no_longer_triggers_truncation_notice() {
    let huge = "x".repeat(200_000);
    let slice = vec![
        ChatMessage::User(vec![UserContent::Text("Produce the daily report".into())]),
        ChatMessage::Assistant(vec![
            AssistantContent::Reasoning("Let me fetch the index page.".into()),
            AssistantContent::ToolCall(ToolCall {
                id: tool_call_id("call-5"),
                name: tool_name("web_fetch"),
                input: json("{\"url\": \"https://example.com\"}"),
            }),
        ]),
        ChatMessage::User(vec![UserContent::ToolResult(ToolResult {
            call_id: tool_call_id("call-5"),
            output: huge.clone(),
            is_error: false,
        })]),
        ChatMessage::Assistant(vec![AssistantContent::Text("Done.".into())]),
    ];

    let prompt = build_reflection_prompt(&slice);
    let body = prompt.as_str();
    assert!(
        !body.contains("[earlier turns truncated to fit prompt cap]"),
        "prompt unexpectedly head-trimmed: {} bytes",
        body.len()
    );
    assert!(body.contains("[tool-result call-5: ok]"));
    assert!(!body.contains(&huge));
}

#[test]
fn a_long_transcript_loses_its_beginning() {
    let slice = vec![
        ChatMessage::User(vec![UserContent::Text(format!("first {}", "a".repeat(70_000)))]),
        ChatMessage::Assistant(vec![AssistantContent::Text("the end".into())]),
    ];
    let prompt = build_reflection_prompt(&slice);
    assert!(prompt.as_str().contains("[earlier turns truncated to fit prompt cap]"));
    assert!(prompt.as_str().contains("the end"));
    assert!(!prompt.as_str().contains("first a"));
}

#[test]
fn only_the_first_message_of_the_user_opens_a_conversation() {
    let messages = vec![
        ChatMessage::Assistant(vec![AssistantContent::Text("hello".into())]),
        ChatMessage::User(vec![UserContent::Text("one".into()), UserContent::Text("two".into())]),
        ChatMessage::User(vec![UserContent::Text("three".into())]),
    ];
    assert_eq!(first_user_text(&messages), Some("one\ntwo".to_owned()));
    assert_eq!(first_user_text(&vec![]), None);
}

#[test]
fn tool_input_is_kept_in_compact_form() {
    assert_eq!(json(" { \"b\" : [ 1 , 2 ] } ").as_str(), "{\"b\":[1,2]}");
    assert!(ToolInput::from_json("{").is_none());
    assert!(ToolInput::from_json("1 2").is_none());
}
