//! A tool of an MCP server, and what its answers look like to a model.

use crate::ids::McpServerId;
use crate::mcp::error::McpError;
use crate::mcp::limits::MCP_RESULT_RENDER_CAP;
use crate::text::{
    byte_len, chars_of, decimal, has_substring, law_longest_prefix_is_longest, lemma_ascii_len,
    lemma_longest_prefix, lemma_utf8_len_at_least_chars, lemma_utf8_len_concat, lemma_utf8_len_push,
    longest_prefix, occurs_at, push_decimal, text2, text3, truncate_to_char_boundary, utf8_len,
};
use crate::tools::ToolError;
use crate::types::ToolName;
use vstd::prelude::*;

verus! {

/// One block of a tool's answer.
#[allow(inconsistent_fields)]
#[derive(Debug)]
pub enum ToolContent {
    Text(String),
    /// An image, encoded.
    Image { data: String, mime_type: String },
    /// A sound, encoded.
    Audio { data: String, mime_type: String },
    /// A resource that is text.
    TextResource { uri: String, text: String },
    /// A resource that is not, encoded.
    BlobResource { uri: String, blob: String, mime_type: Option<String> },
    /// A resource that is only named.
    ResourceLink { uri: String },
}

/// A tool's answer.
#[derive(Debug)]
pub struct ToolOutcome {
    pub content: Vec<ToolContent>,
    pub is_error: Option<bool>,
}

/// What a model sees of a block. Text is shown as it is; of images, sounds and
/// encoded resources only the kind and the number of bytes.
pub open spec fn block_text(block: ToolContent) -> Seq<char> {
    match block {
        ToolContent::Text(text) => text@,
        ToolContent::Image { data, mime_type } => "[image content blocked: "@ + mime_type@ + ", "@
            + decimal(utf8_len(data@)) + "B]"@,
        ToolContent::Audio { data, mime_type } => "[audio content blocked: "@ + mime_type@ + ", "@
            + decimal(utf8_len(data@)) + "B]"@,
        ToolContent::TextResource { uri, text } => "[resource "@ + uri@ + "]\n"@ + text@,
        ToolContent::BlobResource { uri, blob, mime_type } => "[resource "@ + uri@ + ": "@
            + match mime_type {
            Some(m) => m@,
            None => "application/octet-stream"@,
        } + ", "@ + decimal(utf8_len(blob@)) + "B blocked]"@,
        ToolContent::ResourceLink { uri } => "[resource link: "@ + uri@ + "]"@,
    }
}

/// `out` with a line break at its end, unless it is empty or has one.
pub open spec fn on_new_line(out: Seq<char>) -> Seq<char> {
    if out.len() > 0 && out.last() != '\n' {
        out.push('\n')
    } else {
        out
    }
}

/// `out` followed by `blocks`, each on a line of its own. At the block with
/// which the cap is reached the text is cut there, and that is said.
pub open spec fn with_blocks(out: Seq<char>, blocks: Seq<ToolContent>) -> Seq<char>
    decreases blocks.len(),
{
    if blocks.len() == 0 {
        out
    } else {
        let next = on_new_line(out) + block_text(blocks[0]);
        if utf8_len(next) >= MCP_RESULT_RENDER_CAP {
            longest_prefix(next, MCP_RESULT_RENDER_CAP as nat) + "\n[truncated]"@
        } else {
            with_blocks(next, blocks.drop_first())
        }
    }
}

/// What stands before the blocks of an answer.
pub open spec fn answer_prefix(is_error: Option<bool>) -> Seq<char> {
    if is_error == Some(true) {
        "[mcp tool returned isError=true]\n"@
    } else {
        Seq::empty()
    }
}

/// An answer as a model sees it.
pub open spec fn rendered(outcome: ToolOutcome) -> Seq<char> {
    let body = with_blocks(answer_prefix(outcome.is_error), outcome.content@);
    if body.len() == 0 {
        "[mcp tool returned no content]"@
    } else {
        body
    }
}

fn append_sized(out: &mut String, open: &str, label: &str, data: &str, close: &str)
    ensures
        final(out)@ == old(out)@ + (open@ + label@ + ", "@ + decimal(utf8_len(data@)) + close@),
{
    out.append(open);
    out.append(label);
    out.append(", ");
    push_decimal(out, byte_len(data) as u64);
    out.append(close);
    proof {
        assert(out@ =~= old(out)@ + (open@ + label@ + ", "@ + decimal(utf8_len(data@)) + close@));
    }
}

/// Appends what a model sees of `block`.
fn append_block(out: &mut String, block: &ToolContent)
    ensures
        final(out)@ == old(out)@ + block_text(*block),
{
    match block {
        ToolContent::Text(text) => {
            out.append(text.as_str());
        },
        ToolContent::Image { data, mime_type } => {
            append_sized(out, "[image content blocked: ", mime_type.as_str(), data.as_str(), "B]");
        },
        ToolContent::Audio { data, mime_type } => {
            append_sized(out, "[audio content blocked: ", mime_type.as_str(), data.as_str(), "B]");
        },
        ToolContent::TextResource { uri, text } => {
            out.append("[resource ");
            out.append(uri.as_str());
            out.append("]\n");
            out.append(text.as_str());
        },
        ToolContent::BlobResource { uri, blob, mime_type } => {
            let open = text3("[resource ", uri.as_str(), ": ");
            let label = match mime_type {
                Some(m) => m.as_str(),
                None => "application/octet-stream",
            };
            append_sized(out, open.as_str(), label, blob.as_str(), "B blocked]");
        },
        ToolContent::ResourceLink { uri } => {
            out.append("[resource link: ");
            out.append(uri.as_str());
            out.append("]");
        },
    }
    proof {
        assert(out@ =~= old(out)@ + block_text(*block));
    }
}

/// Ends `out` with a line break, unless it is empty or has one.
fn end_line(out: &mut String)
    ensures
        final(out)@ == on_new_line(old(out)@),
{
    let chars = chars_of(out.as_str());
    if chars.len() > 0 && chars[chars.len() - 1] != '\n' {
        out.push('\n');
    }
}

/// Renders an answer for a model. An answer that reports an error is rendered
/// like any other, after a line that says so; one without content is rendered
/// as a line that says that, so that silence is not taken for success.
pub fn render_result(outcome: &ToolOutcome) -> (s: String)
    ensures
        s@ == rendered(*outcome),
{
    let mut out = String::new();
    if let Some(true) = outcome.is_error {
        out.append("[mcp tool returned isError=true]\n");
    }
    proof {
        assert(out@ =~= answer_prefix(outcome.is_error));
        assert(outcome.content@.skip(0) =~= outcome.content@);
    }
    let mut i: usize = 0;
    let ghost body = with_blocks(answer_prefix(outcome.is_error), outcome.content@);
    while i < outcome.content.len()
        invariant
            i <= outcome.content@.len(),
            body == with_blocks(answer_prefix(outcome.is_error), outcome.content@),
            with_blocks(out@, outcome.content@.skip(i as int)) == body,
        decreases outcome.content.len() - i,
    {
        proof {
            assert(outcome.content@.skip(i as int)[0] == outcome.content@[i as int]);
            assert(outcome.content@.skip(i as int).drop_first() =~= outcome.content@.skip(i + 1));
        }
        end_line(&mut out);
        append_block(&mut out, &outcome.content[i]);
        if byte_len(out.as_str()) >= MCP_RESULT_RENDER_CAP {
            let kept = truncate_to_char_boundary(out.as_str(), MCP_RESULT_RENDER_CAP);
            proof {
                reveal_strlit("\n[truncated]");
                assert(body.len() > 0);
            }
            return text2(kept.as_str(), "\n[truncated]");
        }
        i += 1;
    }
    proof {
        assert(outcome.content@.skip(i as int) =~= Seq::empty());
    }
    if out.as_str().is_empty() {
        return "[mcp tool returned no content]".to_owned();
    }
    out
}

proof fn lemma_with_blocks_fits(out: Seq<char>, blocks: Seq<ToolContent>)
    requires
        utf8_len(out) < MCP_RESULT_RENDER_CAP,
    ensures
        utf8_len(with_blocks(out, blocks)) <= MCP_RESULT_RENDER_CAP + 12,
    decreases blocks.len(),
{
    if blocks.len() > 0 {
        let next = on_new_line(out) + block_text(blocks[0]);
        if utf8_len(next) >= MCP_RESULT_RENDER_CAP {
            let kept = longest_prefix(next, MCP_RESULT_RENDER_CAP as nat);
            lemma_longest_prefix(next, MCP_RESULT_RENDER_CAP as nat);
            lemma_utf8_len_concat(kept, "\n[truncated]"@);
            reveal_strlit("\n[truncated]");
            lemma_ascii_len("\n[truncated]"@);
        } else {
            lemma_with_blocks_fits(next, blocks.drop_first());
        }
    }
}

/// Whatever a server answers, a model sees something of it, and no more than the
/// cap and the note that it was cut.
pub proof fn law_rendering_is_bounded(outcome: ToolOutcome)
    ensures
        0 < rendered(outcome).len(),
        utf8_len(rendered(outcome)) <= MCP_RESULT_RENDER_CAP + 12,
{
    reveal_strlit("[mcp tool returned isError=true]\n");
    reveal_strlit("[mcp tool returned no content]");
    lemma_ascii_len("[mcp tool returned isError=true]\n"@);
    lemma_ascii_len("[mcp tool returned no content]"@);
    assert(utf8_len(Seq::<char>::empty()) == 0) by {
        lemma_utf8_len_at_least_chars(Seq::<char>::empty());
    }
    lemma_with_blocks_fits(answer_prefix(outcome.is_error), outcome.content@);
}

/// A tool of a registered server, under the name by which agents call it.
#[derive(Debug)]
pub struct McpTool {
    name: ToolName,
    remote_name: String,
    description: String,
    schema: String,
    server: McpServerId,
}

/// What is known of a tool.
pub struct ToolView {
    /// The name by which agents call it.
    pub name: Seq<char>,
    /// The name that the server gives it.
    pub remote_name: Seq<char>,
    pub description: Seq<char>,
    /// The JSON schema of its input.
    pub schema: Seq<char>,
    /// The server that runs it.
    pub server: McpServerId,
}

impl View for McpTool {
    type V = ToolView;

    closed spec fn view(&self) -> ToolView {
        ToolView {
            name: self.name@,
            remote_name: self.remote_name@,
            description: self.description@,
            schema: self.schema@,
            server: self.server,
        }
    }
}

impl McpTool {
    /// A tool of the server `server`.
    pub fn new(
        name: ToolName,
        remote_name: String,
        description: String,
        schema: String,
        server: McpServerId,
    ) -> (t: McpTool)
        ensures
            t@ == (ToolView {
                name: name@,
                remote_name: remote_name@,
                description: description@,
                schema: schema@,
                server,
            }),
    {
        McpTool { name, remote_name, description, schema, server }
    }

    /// The name by which agents call it.
    pub fn name(&self) -> (n: &ToolName)
        ensures
            n@ == self@.name,
    {
        &self.name
    }

    /// The name that the server gives it.
    pub fn remote_name(&self) -> (n: &str)
        ensures
            n@ == self@.remote_name,
    {
        self.remote_name.as_str()
    }

    /// What it is said to do.
    pub fn description(&self) -> (d: &str)
        ensures
            d@ == self@.description,
    {
        self.description.as_str()
    }

    /// The JSON schema of its input.
    pub fn input_schema(&self) -> (s: &str)
        ensures
            s@ == self@.schema,
    {
        self.schema.as_str()
    }

    /// The server that runs it.
    pub fn server(&self) -> (s: McpServerId)
        ensures
            s == self@.server,
    {
        self.server
    }

    /// Ends a call of the tool: what the model sees of the answer, or how the
    /// call failed.
    pub fn settle(&self, answer: Result<ToolOutcome, McpError>) -> (r: Result<String, ToolError>)
        ensures
            match answer {
                Ok(outcome) => r matches Ok(s) && s@ == rendered(outcome),
                Err(McpError::CallTimeout) => r matches Err(ToolError::Upstream { status, body })
                    && status == 0 && body@ == "mcp tool `"@ + self@.remote_name + "` timed out"@,
                Err(e) => r matches Err(ToolError::Upstream { status, body }) && status == 0
                    && body@ == "mcp call error: "@ + e.text(),
            },
    {
        match answer {
            Ok(outcome) => Ok(render_result(&outcome)),
            Err(McpError::CallTimeout) => Err(
                ToolError::Upstream {
                    status: 0,
                    body: text3("mcp tool `", self.remote_name.as_str(), "` timed out"),
                },
            ),
            Err(e) => Err(
                ToolError::Upstream {
                    status: 0,
                    body: text2("mcp call error: ", e.message().as_str()),
                },
            ),
        }
    }
}

/// What a model is shown of a block, spelled out.
pub open spec fn shown_of(block: ToolContent) -> Seq<char> {
    match block {
        ToolContent::Text(text) => text@,
        ToolContent::Image { data, mime_type } => "[image content blocked: "@ + mime_type@ + ", "@
            + decimal(utf8_len(data@)) + "B]"@,
        ToolContent::Audio { data, mime_type } => "[audio content blocked: "@ + mime_type@ + ", "@
            + decimal(utf8_len(data@)) + "B]"@,
        ToolContent::TextResource { uri, text } => "[resource "@ + uri@ + "]\n"@ + text@,
        ToolContent::BlobResource { uri, blob, mime_type } => "[resource "@ + uri@ + ": "@ + (
        if mime_type is Some {
            mime_type->0@
        } else {
            "application/octet-stream"@
        }) + ", "@ + decimal(utf8_len(blob@)) + "B blocked]"@,
        ToolContent::ResourceLink { uri } => "[resource link: "@ + uri@ + "]"@,
    }
}

/// Bytes of what is shown of `blocks`, each with a line break.
pub open spec fn shown_bytes(blocks: Seq<ToolContent>) -> nat
    decreases blocks.len(),
{
    if blocks.len() == 0 {
        0
    } else {
        utf8_len(shown_of(blocks[0])) + 1 + shown_bytes(blocks.drop_first())
    }
}

proof fn lemma_new_line(out: Seq<char>)
    ensures
        out.is_prefix_of(on_new_line(out)),
        utf8_len(on_new_line(out)) <= utf8_len(out) + 1,
{
    lemma_utf8_len_push(out, '\n');
    assert(out.push('\n').subrange(0, out.len() as int) =~= out);
    assert(out.subrange(0, out.len() as int) =~= out);
}

proof fn lemma_blocks_keep_what_is_there(out: Seq<char>, blocks: Seq<ToolContent>)
    requires
        utf8_len(out) <= MCP_RESULT_RENDER_CAP,
    ensures
        out.is_prefix_of(with_blocks(out, blocks)),
    decreases blocks.len(),
{
    if blocks.len() == 0 {
        assert(out.subrange(0, out.len() as int) =~= out);
    } else {
        let next = on_new_line(out) + block_text(blocks[0]);
        lemma_new_line(out);
        assert(next.take(out.len() as int) =~= on_new_line(out).subrange(0, out.len() as int));
        assert(next.take(out.len() as int) =~= out);
        if utf8_len(next) >= MCP_RESULT_RENDER_CAP {
            let cap = MCP_RESULT_RENDER_CAP as nat;
            let kept = longest_prefix(next, cap);
            law_longest_prefix_is_longest(next, cap, out.len() as int);
            lemma_longest_prefix(next, cap);
            assert(kept.len() >= out.len());
            assert(kept == next.take(kept.len() as int));
            let all = kept + "\n[truncated]"@;
            assert forall|i: int| 0 <= i < out.len() implies #[trigger] all[i] == out[i] by {
                assert(kept[i] == next[i]);
                assert(next.take(out.len() as int)[i] == out[i]);
            }
            assert(all.subrange(0, out.len() as int) =~= out);
        } else {
            lemma_blocks_keep_what_is_there(next, blocks.drop_first());
            let all = with_blocks(next, blocks.drop_first());
            assert(all.subrange(0, next.len() as int) == next);
            assert(all.subrange(0, out.len() as int) =~= next.take(out.len() as int));
        }
    }
}

proof fn lemma_block_is_shown(out: Seq<char>, blocks: Seq<ToolContent>, i: int)
    requires
        0 <= i < blocks.len(),
        utf8_len(out) + shown_bytes(blocks) < MCP_RESULT_RENDER_CAP,
    ensures
        has_substring(with_blocks(out, blocks), shown_of(blocks[i])),
    decreases blocks.len(),
{
    let shown = shown_of(blocks[0]);
    let start = on_new_line(out);
    let next = start + block_text(blocks[0]);
    let rest = blocks.drop_first();
    let all = with_blocks(out, blocks);
    assert(block_text(blocks[0]) =~= shown);
    lemma_new_line(out);
    lemma_utf8_len_concat(start, shown);
    assert(utf8_len(next) + shown_bytes(rest) < MCP_RESULT_RENDER_CAP);
    assert(all == with_blocks(next, rest));
    if i == 0 {
        lemma_blocks_keep_what_is_there(next, rest);
        let p = start.len() as int;
        assert(all.subrange(0, next.len() as int) == next);
        assert(all.subrange(p, p + shown.len()) =~= all.subrange(0, next.len() as int).subrange(
            p,
            p + shown.len(),
        ));
        assert(next.subrange(p, p + shown.len()) =~= shown);
        assert(occurs_at(all, shown, p));
    } else {
        assert(rest[i - 1] == blocks[i]);
        lemma_block_is_shown(next, rest, i - 1);
    }
}

/// A model sees every block of an answer that fits: text as it is, and of images, sounds and
/// encoded resources what they are and how many bytes they have.
pub proof fn law_every_block_is_shown(outcome: ToolOutcome, i: int)
    requires
        0 <= i < outcome.content@.len(),
        shown_bytes(outcome.content@) + 33 < MCP_RESULT_RENDER_CAP,
        shown_of(outcome.content@[i]).len() > 0,
    ensures
        has_substring(rendered(outcome), shown_of(outcome.content@[i])),
{
    reveal_strlit("[mcp tool returned isError=true]\n");
    lemma_ascii_len("[mcp tool returned isError=true]\n"@);
    lemma_utf8_len_at_least_chars(Seq::<char>::empty());
    let start = answer_prefix(outcome.is_error);
    lemma_block_is_shown(start, outcome.content@, i);
    let body = with_blocks(start, outcome.content@);
    let shown = shown_of(outcome.content@[i]);
    let p = choose|p: int| occurs_at(body, shown, p);
    assert(body.len() > 0);
}

/// A failed call is seen to have failed, however much it answered; and an answer without
/// content says so, so that silence is not taken for success.
pub proof fn law_failure_and_silence_are_shown(outcome: ToolOutcome)
    ensures
        outcome.is_error == Some(true) ==> "[mcp tool returned isError=true]\n"@.is_prefix_of(
            rendered(outcome),
        ),
        outcome.is_error != Some(true) && outcome.content@.len() == 0 ==> rendered(outcome)
            == "[mcp tool returned no content]"@,
{
    reveal_strlit("[mcp tool returned isError=true]\n");
    lemma_ascii_len("[mcp tool returned isError=true]\n"@);
    lemma_blocks_keep_what_is_there(
        "[mcp tool returned isError=true]\n"@,
        outcome.content@,
    );
}

/// What is encoded never reaches a model: two images of one type and size look alike.
pub proof fn law_encoded_content_is_blocked(a: String, b: String, mime_type: String)
    requires
        utf8_len(a@) == utf8_len(b@),
    ensures
        block_text(ToolContent::Image { data: a, mime_type }) == block_text(
            ToolContent::Image { data: b, mime_type },
        ),
        block_text(ToolContent::Audio { data: a, mime_type }) == block_text(
            ToolContent::Audio { data: b, mime_type },
        ),
{
}

/// A block starts on a line of its own: a line that is not ended is ended first, and nothing is
/// added where none is open.
pub proof fn law_blocks_start_on_a_line(out: Seq<char>)
    ensures
        on_new_line(Seq::empty()) == Seq::<char>::empty(),
        on_new_line(out.push('\n')) == out.push('\n'),
        out.len() > 0 && out.last() != '\n' ==> on_new_line(out) == out.push('\n'),
{
    assert(out.push('\n').last() == '\n');
}

} // verus!
