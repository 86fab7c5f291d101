use relay::ids::McpServerId;
use relay::mcp::error::McpError;
use relay::mcp::limits::MCP_RESULT_RENDER_CAP;
use relay::mcp::tool::{render_result, McpTool, ToolContent, ToolOutcome};
use relay::tools::ToolError;
use relay::types::ToolName;

fn text_block(s: &str) -> ToolContent {
    ToolContent::Text(s.to_owned())
}

fn image_block() -> ToolContent {
    ToolContent::Image { data: "ZmFrZQ==".to_owned(), mime_type: "image/png".to_owned() }
}

fn audio_block() -> ToolContent {
    ToolContent::Audio { data: "ZmFrZQ==".to_owned(), mime_type: "audio/wav".to_owned() }
}

fn text_resource(uri: &str, text: &str) -> ToolContent {
    ToolContent::TextResource { uri: uri.to_owned(), text: text.to_owned() }
}

fn make_result(content: Vec<ToolContent>, is_error: Option<bool>) -> ToolOutcome {
    ToolOutcome { content, is_error }
}

#[test]
fn text_blocks_are_concatenated() {
    let r = make_result(vec![text_block("hello"), text_block("world")], None);
    let s = render_result(&r);
    assert!(s.contains("hello"));
    assert!(s.contains("world"));
    assert_eq!(s, "hello\nworld");
}

#[test]
fn images_are_blocked_with_placeholder() {
    let r = make_result(vec![image_block()], None);
    let s = render_result(&r);
    assert!(s.contains("[image content blocked"));
    assert!(s.contains("image/png"));
    assert_eq!(s, "[image content blocked: image/png, 8B]");
}

#[test]
fn audio_is_blocked_with_placeholder() {
    let r = make_result(vec![audio_block()], None);
    let s = render_result(&r);
    assert!(s.contains("[audio content blocked"));
    assert_eq!(s, "[audio content blocked: audio/wav, 8B]");
}

#[test]
fn text_resource_includes_uri_and_body() {
    let r = make_result(vec![text_resource("file:///x.txt", "body")], None);
    let s = render_result(&r);
    assert!(s.contains("file:///x.txt"));
    assert!(s.contains("body"));
    assert_eq!(s, "[resource file:///x.txt]\nbody");
}

#[test]
fn empty_content_renders_explicit_message() {
    let r = make_result(vec![], None);
    let s = render_result(&r);
    assert!(s.contains("no content"));
}

#[test]
fn is_error_marks_output() {
    let r = make_result(vec![text_block("oops")], Some(true));
    let s = render_result(&r);
    assert!(s.contains("isError=true"));
    assert_eq!(s, "[mcp tool returned isError=true]\noops");
}

#[test]
fn links_and_blobs_are_named_only() {
    let r = make_result(
        vec![
            ToolContent::ResourceLink { uri: "file:///a".to_owned() },
            ToolContent::BlobResource {
                uri: "file:///b".to_owned(),
                blob: "AAAA".to_owned(),
                mime_type: None,
            },
            ToolContent::BlobResource {
                uri: "file:///c".to_owned(),
                blob: String::new(),
                mime_type: Some("image/gif".to_owned()),
            },
        ],
        Some(false),
    );
    assert_eq!(
        render_result(&r),
        "[resource link: file:///a]\n\
         [resource file:///b: application/octet-stream, 4B blocked]\n\
         [resource file:///c: image/gif, 0B blocked]"
    );
}

#[test]
fn a_block_that_ends_its_line_gets_no_other_line_break() {
    let r = make_result(vec![text_block("a\n"), text_block("b")], None);
    assert_eq!(render_result(&r), "a\nb");
}

#[test]
fn an_empty_text_block_is_no_content() {
    let r = make_result(vec![text_block("")], None);
    assert_eq!(render_result(&r), "[mcp tool returned no content]");
}

#[test]
fn a_long_answer_is_cut_between_characters() {
    let mut long = "a".repeat(MCP_RESULT_RENDER_CAP - 1);
    long.push('\u{e9}');
    let r = make_result(vec![text_block(&long), text_block("never seen")], None);
    let s = render_result(&r);
    assert_eq!(s.len(), MCP_RESULT_RENDER_CAP - 1 + "\n[truncated]".len());
    assert!(s.ends_with("a\n[truncated]"));
    assert!(!s.contains("never seen"));
}

#[test]
fn an_answer_of_exactly_the_cap_is_said_to_be_cut() {
    let r = make_result(vec![text_block(&"a".repeat(MCP_RESULT_RENDER_CAP))], None);
    assert!(render_result(&r).ends_with("a\n[truncated]"));
    let r = make_result(vec![text_block(&"a".repeat(MCP_RESULT_RENDER_CAP - 1))], None);
    assert!(!render_result(&r).contains("truncated"));
}

#[test]
fn failed_calls_are_reported_as_upstream_errors() {
    let server = McpServerId::new();
    let tool = McpTool::new(
        ToolName::try_from("mcp_one_fetch").expect("valid"),
        "fetch".to_owned(),
        "fetches".to_owned(),
        "{}".to_owned(),
        server,
    );
    assert_eq!(tool.name().as_str(), "mcp_one_fetch");
    assert_eq!(tool.description(), "fetches");
    assert_eq!(tool.input_schema(), "{}");
    assert_eq!(tool.server(), server);
    let answer = tool.settle(Ok(make_result(vec![text_block("ok")], None)));
    assert!(matches!(answer, Ok(s) if s == "ok"));
    let ToolError::Upstream { status, body } =
        tool.settle(Err(McpError::CallTimeout)).expect_err("timeout");
    assert_eq!((status, body.as_str()), (0, "mcp tool `fetch` timed out"));
    let ToolError::Upstream { status, body } =
        tool.settle(Err(McpError::Call("gone".to_owned()))).expect_err("failure");
    assert_eq!(
        (status, body.as_str()),
        (0, "mcp call error: mcp tool call failed: gone")
    );
}
