//! Messages of a conversation, as an agent's provider sees them.

use crate::text::{has_substring, occurs_at};
use crate::types::{ToolCallId, ToolName};
use vstd::prelude::*;

verus! {

/// What `serde_json` makes of a JSON text: the value in its compact form, or
/// nothing where the text is not JSON.
pub uninterp spec fn compact_json(raw: Seq<char>) -> Option<Seq<char>>;

/// `serde_json::from_str` into a `serde_json::Value`, and the `Display` of that
/// value: both depend on the text alone, and the first fails on what is not one
/// JSON value.
#[verifier::external_body]
fn parse_compact(raw: &str) -> (r: Option<String>)
    ensures
        match r {
            Some(s) => compact_json(raw@) == Some(s@),
            None => compact_json(raw@) is None,
        },
{
    match serde_json::from_str::<serde_json::Value>(raw) {
        Ok(v) => Some(v.to_string()),
        Err(_) => None,
    }
}

/// The arguments of a tool call: one JSON value, kept in its compact form.
#[derive(Debug)]
pub struct ToolInput {
    text: String,
}

impl View for ToolInput {
    type V = Seq<char>;

    closed spec fn view(&self) -> Seq<char> {
        self.text@
    }
}

impl ToolInput {
    /// The value that `raw` writes, if it writes one.
    pub fn from_json(raw: &str) -> (r: Option<ToolInput>)
        ensures
            match r {
                Some(v) => compact_json(raw@) == Some(v@),
                None => compact_json(raw@) is None,
            },
    {
        match parse_compact(raw) {
            Some(text) => Some(ToolInput { text }),
            None => None,
        }
    }

    /// The value in its compact form.
    pub fn as_str(&self) -> (s: &str)
        ensures
            s@ == self@,
    {
        self.text.as_str()
    }
}

/// What a tool answered.
#[derive(Debug)]
pub struct ToolResult {
    pub call_id: ToolCallId,
    pub output: String,
    pub is_error: bool,
}

/// A call that a model made of a tool.
#[derive(Debug)]
pub struct ToolCall {
    pub id: ToolCallId,
    pub name: ToolName,
    pub input: ToolInput,
}

/// A block of what the other side said.
#[derive(Debug)]
pub enum UserContent {
    Text(String),
    ToolResult(ToolResult),
}

/// A block of what the agent said.
#[derive(Debug)]
pub enum AssistantContent {
    Text(String),
    Reasoning(String),
    ToolCall(ToolCall),
}

/// One message of a conversation.
#[derive(Debug)]
pub enum ChatMessage {
    User(Vec<UserContent>),
    Assistant(Vec<AssistantContent>),
}

/// How a tool result reads in a transcript: its call and whether it failed. What
/// the tool answered is left out.
pub open spec fn result_mark(r: ToolResult) -> Seq<char> {
    "[tool-result "@ + r.call_id@ + (if r.is_error {
        ": err]"@
    } else {
        ": ok]"@
    })
}

/// How a tool call reads in a transcript.
pub open spec fn call_mark(c: ToolCall) -> Seq<char> {
    "[tool-call "@ + c.name@ + "("@ + c.input@ + ")]"@
}

/// A block of the other side in a transcript.
pub open spec fn user_block(b: UserContent) -> Seq<char> {
    match b {
        UserContent::Text(t) => t@,
        UserContent::ToolResult(r) => result_mark(r),
    }
}

/// A block of the agent in a transcript.
pub open spec fn assistant_block(b: AssistantContent) -> Seq<char> {
    match b {
        AssistantContent::Text(t) => t@,
        AssistantContent::Reasoning(t) => t@,
        AssistantContent::ToolCall(c) => call_mark(c),
    }
}

/// Blocks of the other side, one after the other.
pub open spec fn user_blocks(blocks: Seq<UserContent>) -> Seq<char>
    decreases blocks.len(),
{
    if blocks.len() == 0 {
        Seq::empty()
    } else {
        user_blocks(blocks.drop_last()) + user_block(blocks.last())
    }
}

/// Blocks of the agent, one after the other.
pub open spec fn assistant_blocks(blocks: Seq<AssistantContent>) -> Seq<char>
    decreases blocks.len(),
{
    if blocks.len() == 0 {
        Seq::empty()
    } else {
        assistant_blocks(blocks.drop_last()) + assistant_block(blocks.last())
    }
}

/// What a message says, whoever says it.
pub open spec fn message_words(m: ChatMessage) -> Seq<char> {
    match m {
        ChatMessage::User(blocks) => user_blocks(blocks@),
        ChatMessage::Assistant(blocks) => assistant_blocks(blocks@),
    }
}

/// The line of a message in a transcript.
pub open spec fn message_line(m: ChatMessage) -> Seq<char> {
    match m {
        ChatMessage::User(blocks) => "User: "@ + user_blocks(blocks@) + "\n"@,
        ChatMessage::Assistant(blocks) => "Assistant: "@ + assistant_blocks(blocks@) + "\n"@,
    }
}

fn push_result_mark(out: &mut String, r: &ToolResult)
    ensures
        final(out)@ == old(out)@ + result_mark(*r),
{
    out.append("[tool-result ");
    out.append(r.call_id.as_str());
    out.append(
        if r.is_error {
            ": err]"
        } else {
            ": ok]"
        },
    );
    proof {
        assert(out@ =~= old(out)@ + result_mark(*r));
    }
}

fn push_call_mark(out: &mut String, c: &ToolCall)
    ensures
        final(out)@ == old(out)@ + call_mark(*c),
{
    out.append("[tool-call ");
    out.append(c.name.as_str());
    out.append("(");
    out.append(c.input.as_str());
    out.append(")]");
    proof {
        assert(out@ =~= old(out)@ + call_mark(*c));
    }
}

/// Appends the line of a message: who speaks, and what is said. Tool results are
/// reduced to a mark.
pub fn render_chat_message(message: &ChatMessage, out: &mut String)
    ensures
        final(out)@ == old(out)@ + message_line(*message),
{
    let ghost start = out@;
    match message {
        ChatMessage::User(blocks) => {
            out.append("User: ");
            let mut i: usize = 0;
            while i < blocks.len()
                invariant
                    i <= blocks@.len(),
                    out@ == start + "User: "@ + user_blocks(blocks@.take(i as int)),
                decreases blocks.len() - i,
            {
                let ghost before = out@;
                proof {
                    assert(blocks@.take(i + 1).drop_last() =~= blocks@.take(i as int));
                    assert(blocks@.take(i + 1).last() == blocks@[i as int]);
                }
                match &blocks[i] {
                    UserContent::Text(t) => out.append(t.as_str()),
                    UserContent::ToolResult(r) => push_result_mark(out, r),
                }
                proof {
                    assert(out@ =~= before + user_block(blocks@[i as int]));
                    assert(out@ =~= start + "User: "@ + user_blocks(blocks@.take(i + 1)));
                }
                i += 1;
            }
            out.append("\n");
            proof {
                assert(blocks@.take(blocks@.len() as int) =~= blocks@);
                assert(out@ =~= start + message_line(*message));
            }
        },
        ChatMessage::Assistant(blocks) => {
            out.append("Assistant: ");
            let mut i: usize = 0;
            while i < blocks.len()
                invariant
                    i <= blocks@.len(),
                    out@ == start + "Assistant: "@ + assistant_blocks(blocks@.take(i as int)),
                decreases blocks.len() - i,
            {
                let ghost before = out@;
                proof {
                    assert(blocks@.take(i + 1).drop_last() =~= blocks@.take(i as int));
                    assert(blocks@.take(i + 1).last() == blocks@[i as int]);
                }
                match &blocks[i] {
                    AssistantContent::Text(t) => out.append(t.as_str()),
                    AssistantContent::Reasoning(t) => out.append(t.as_str()),
                    AssistantContent::ToolCall(c) => push_call_mark(out, c),
                }
                proof {
                    assert(out@ =~= before + assistant_block(blocks@[i as int]));
                    assert(out@ =~= start + "Assistant: "@ + assistant_blocks(
                        blocks@.take(i + 1),
                    ));
                }
                i += 1;
            }
            out.append("\n");
            proof {
                assert(blocks@.take(blocks@.len() as int) =~= blocks@);
                assert(out@ =~= start + message_line(*message));
            }
        },
    }
}

/// `mapped` is `stored` as the viewer sees it: the viewer's own words are the
/// agent's, all other words are the other side's. What has to change sides turns
/// into text, block by block.
pub open spec fn seen_as(stored: ChatMessage, is_self: bool, mapped: ChatMessage) -> bool {
    match (stored, is_self, mapped) {
        (ChatMessage::Assistant(_), true, _) => mapped == stored,
        (ChatMessage::User(_), false, _) => mapped == stored,
        (ChatMessage::User(from), true, ChatMessage::Assistant(to)) => {
            &&& to@.len() == from@.len()
            &&& forall|i: int|
                0 <= i < to@.len() ==> ((#[trigger] to@[i]) matches AssistantContent::Text(t) && t@
                    == user_block(from@[i]))
        },
        (ChatMessage::Assistant(from), false, ChatMessage::User(to)) => {
            &&& to@.len() == from@.len()
            &&& forall|i: int|
                0 <= i < to@.len() ==> ((#[trigger] to@[i]) matches UserContent::Text(t) && t@
                    == assistant_block(from@[i]))
        },
        _ => false,
    }
}

/// Turns a stored message to the viewer's side: `is_self` tells whether the
/// viewer sent it.
pub fn map_for_viewer(stored: ChatMessage, is_self: bool) -> (mapped: ChatMessage)
    ensures
        seen_as(stored, is_self, mapped),
{
    match stored {
        ChatMessage::User(blocks) => {
            if !is_self {
                return ChatMessage::User(blocks);
            }
            let mut out: Vec<AssistantContent> = Vec::new();
            let mut i: usize = 0;
            while i < blocks.len()
                invariant
                    i <= blocks@.len(),
                    out@.len() == i,
                    forall|j: int|
                        0 <= j < i ==> ((#[trigger] out@[j]) matches AssistantContent::Text(t) && t@
                            == user_block(blocks@[j])),
                decreases blocks.len() - i,
            {
                let text = match &blocks[i] {
                    UserContent::Text(t) => t.clone(),
                    UserContent::ToolResult(r) => {
                        let mut mark = String::new();
                        push_result_mark(&mut mark, r);
                        proof {
                            assert(mark@ =~= result_mark(*r));
                        }
                        mark
                    },
                };
                out.push(AssistantContent::Text(text));
                i += 1;
            }
            ChatMessage::Assistant(out)
        },
        ChatMessage::Assistant(blocks) => {
            if is_self {
                return ChatMessage::Assistant(blocks);
            }
            let mut out: Vec<UserContent> = Vec::new();
            let mut i: usize = 0;
            while i < blocks.len()
                invariant
                    i <= blocks@.len(),
                    out@.len() == i,
                    forall|j: int|
                        0 <= j < i ==> ((#[trigger] out@[j]) matches UserContent::Text(t) && t@
                            == assistant_block(blocks@[j])),
                decreases blocks.len() - i,
            {
                let text = match &blocks[i] {
                    AssistantContent::Text(t) => t.clone(),
                    AssistantContent::Reasoning(t) => t.clone(),
                    AssistantContent::ToolCall(c) => {
                        let mut mark = String::new();
                        push_call_mark(&mut mark, c);
                        proof {
                            assert(mark@ =~= call_mark(*c));
                        }
                        mark
                    },
                };
                out.push(UserContent::Text(text));
                i += 1;
            }
            ChatMessage::User(out)
        },
    }
}

proof fn lemma_user_to_assistant(from: Seq<UserContent>, to: Seq<AssistantContent>)
    requires
        to.len() == from.len(),
        forall|i: int|
            0 <= i < to.len() ==> ((#[trigger] to[i]) matches AssistantContent::Text(t) && t@
                == user_block(from[i])),
    ensures
        assistant_blocks(to) == user_blocks(from),
    decreases from.len(),
{
    if from.len() > 0 {
        let k = from.len() - 1;
        assert(to[k] == to.last());
        assert forall|i: int| 0 <= i < to.drop_last().len() implies ((
        #[trigger] to.drop_last()[i]) matches AssistantContent::Text(t) && t@ == user_block(
            from.drop_last()[i],
        )) by {
            assert(to[i] == to.drop_last()[i]);
        }
        lemma_user_to_assistant(from.drop_last(), to.drop_last());
    }
}

proof fn lemma_assistant_to_user(from: Seq<AssistantContent>, to: Seq<UserContent>)
    requires
        to.len() == from.len(),
        forall|i: int|
            0 <= i < to.len() ==> ((#[trigger] to[i]) matches UserContent::Text(t) && t@
                == assistant_block(from[i])),
    ensures
        user_blocks(to) == assistant_blocks(from),
    decreases from.len(),
{
    if from.len() > 0 {
        let k = from.len() - 1;
        assert(to[k] == to.last());
        assert forall|i: int| 0 <= i < to.drop_last().len() implies ((
        #[trigger] to.drop_last()[i]) matches UserContent::Text(t) && t@ == assistant_block(
            from.drop_last()[i],
        )) by {
            assert(to[i] == to.drop_last()[i]);
        }
        lemma_assistant_to_user(from.drop_last(), to.drop_last());
    }
}

/// Whichever side a message is turned to, a transcript has the same words of it:
/// only who says them differs.
pub proof fn law_viewer_mapping_keeps_the_words(
    stored: ChatMessage,
    is_self: bool,
    mapped: ChatMessage,
)
    requires
        seen_as(stored, is_self, mapped),
    ensures
        message_words(mapped) == message_words(stored),
        message_line(mapped) == (if is_self {
            "Assistant: "@
        } else {
            "User: "@
        }) + message_words(stored) + "\n"@,
{
    match (stored, mapped) {
        (ChatMessage::User(from), ChatMessage::Assistant(to)) => {
            if is_self {
                lemma_user_to_assistant(from@, to@);
            }
        },
        (ChatMessage::Assistant(from), ChatMessage::User(to)) => {
            if !is_self {
                lemma_assistant_to_user(from@, to@);
            }
        },
        _ => {},
    }
}

/// What a tool answered never reaches a transcript: results of one call that fail
/// or succeed alike read alike.
pub proof fn law_tool_output_is_left_out(a: ToolResult, b: ToolResult)
    requires
        a.call_id@ == b.call_id@,
        a.is_error == b.is_error,
    ensures
        user_block(UserContent::ToolResult(a)) == user_block(UserContent::ToolResult(b)),
{
}

/// The text of a message, its text blocks one per line.
pub open spec fn text_lines(blocks: Seq<UserContent>) -> Seq<char>
    decreases blocks.len(),
{
    if blocks.len() == 0 {
        Seq::empty()
    } else {
        let before = text_lines(blocks.drop_last());
        match blocks.last() {
            UserContent::Text(t) => if before.len() == 0 {
                t@
            } else {
                before + "\n"@ + t@
            },
            UserContent::ToolResult(_) => before,
        }
    }
}

/// Position of the first message of the other side.
pub open spec fn first_user(messages: Seq<ChatMessage>) -> Option<int>
    decreases messages.len(),
{
    if messages.len() == 0 {
        None
    } else {
        match first_user(messages.drop_last()) {
            Some(i) => Some(i),
            None => if messages.last() is User {
                Some(messages.len() - 1)
            } else {
                None
            },
        }
    }
}

/// What a session opens with: the text of the first message of the other side,
/// if it has any.
pub open spec fn opening_text(messages: Seq<ChatMessage>) -> Option<Seq<char>> {
    match first_user(messages) {
        None => None,
        Some(i) => {
            let text = text_lines(messages[i]->User_0@);
            if text.len() == 0 {
                None
            } else {
                Some(text)
            }
        },
    }
}

/// The text of the first message of the other side, its text blocks joined by
/// line breaks. None where there is no such message, or no text in it.
pub fn first_user_text(messages: &Vec<ChatMessage>) -> (r: Option<String>)
    ensures
        match r {
            Some(s) => opening_text(messages@) == Some(s@),
            None => opening_text(messages@) is None,
        },
{
    let mut i: usize = 0;
    while i < messages.len()
        invariant
            i <= messages@.len(),
            first_user(messages@.take(i as int)) is None,
        decreases messages.len() - i,
    {
        proof {
            assert(messages@.take(i + 1).drop_last() =~= messages@.take(i as int));
            assert(messages@.take(i + 1).last() == messages@[i as int]);
        }
        if let ChatMessage::User(blocks) = &messages[i] {
            proof {
                lemma_first_user_stays(messages@, i + 1);
            }
            let text = join_text(blocks);
            if text.as_str().is_empty() {
                return None;
            }
            return Some(text);
        }
        i += 1;
    }
    proof {
        assert(messages@.take(messages@.len() as int) =~= messages@);
    }
    None
}

proof fn lemma_first_user_stays(messages: Seq<ChatMessage>, k: int)
    requires
        0 <= k <= messages.len(),
        first_user(messages.take(k)) is Some,
    ensures
        first_user(messages) == first_user(messages.take(k)),
    decreases messages.len(),
{
    if k == messages.len() {
        assert(messages.take(k) =~= messages);
    } else {
        assert(messages.drop_last().take(k) =~= messages.take(k));
        lemma_first_user_stays(messages.drop_last(), k);
    }
}

fn join_text(blocks: &Vec<UserContent>) -> (s: String)
    ensures
        s@ == text_lines(blocks@),
{
    let mut out = String::new();
    let mut i: usize = 0;
    while i < blocks.len()
        invariant
            i <= blocks@.len(),
            out@ == text_lines(blocks@.take(i as int)),
        decreases blocks.len() - i,
    {
        proof {
            assert(blocks@.take(i + 1).drop_last() =~= blocks@.take(i as int));
            assert(blocks@.take(i + 1).last() == blocks@[i as int]);
        }
        if let UserContent::Text(t) = &blocks[i] {
            if !out.as_str().is_empty() {
                out.append("\n");
            }
            out.append(t.as_str());
            proof {
                assert(out@ =~= text_lines(blocks@.take(i + 1)));
            }
        }
        i += 1;
    }
    proof {
        assert(blocks@.take(blocks@.len() as int) =~= blocks@);
    }
    out
}

/// Blocks are read one after the other, each once and whole: text and reasoning as they
/// are, a tool call by its name and its input, a tool result by its call and whether it
/// failed.
pub proof fn law_user_blocks_are_read_in_turn(a: Seq<UserContent>, b: Seq<UserContent>, block: UserContent)
    ensures
        user_blocks(a + b) == user_blocks(a) + user_blocks(b),
        user_blocks(seq![block]) == (match block {
            UserContent::Text(t) => t@,
            UserContent::ToolResult(r) => if r.is_error {
                "[tool-result "@ + r.call_id@ + ": err]"@
            } else {
                "[tool-result "@ + r.call_id@ + ": ok]"@
            },
        }),
    decreases b.len(),
{
    reveal_with_fuel(user_blocks, 2);
    assert(seq![block].last() == block);
    assert(seq![block].drop_last() =~= Seq::<UserContent>::empty());
    assert(Seq::<char>::empty() + user_block(block) =~= user_block(block));
    if b.len() == 0 {
        assert(a + b =~= a);
        assert(user_blocks(a) + user_blocks(b) =~= user_blocks(a));
    } else {
        assert((a + b).drop_last() =~= a + b.drop_last());
        law_user_blocks_are_read_in_turn(a, b.drop_last(), block);
        assert(user_blocks(a + b) =~= user_blocks(a) + user_blocks(b));
    }
}

/// Blocks of the agent are read one after the other, each once and whole: text and
/// reasoning as they are, a tool call by its name and its input.
pub proof fn law_assistant_blocks_are_read_in_turn(
    a: Seq<AssistantContent>,
    b: Seq<AssistantContent>,
    block: AssistantContent,
)
    ensures
        assistant_blocks(a + b) == assistant_blocks(a) + assistant_blocks(b),
        assistant_blocks(seq![block]) == (match block {
            AssistantContent::Text(t) => t@,
            AssistantContent::Reasoning(t) => t@,
            AssistantContent::ToolCall(c) => "[tool-call "@ + c.name@ + "("@ + c.input@ + ")]"@,
        }),
    decreases b.len(),
{
    reveal_with_fuel(assistant_blocks, 2);
    assert(seq![block].last() == block);
    assert(seq![block].drop_last() =~= Seq::<AssistantContent>::empty());
    assert(Seq::<char>::empty() + assistant_block(block) =~= assistant_block(block));
    if b.len() == 0 {
        assert(a + b =~= a);
        assert(assistant_blocks(a) + assistant_blocks(b) =~= assistant_blocks(a));
    } else {
        assert((a + b).drop_last() =~= a + b.drop_last());
        law_assistant_blocks_are_read_in_turn(a, b.drop_last(), block);
        assert(assistant_blocks(a + b) =~= assistant_blocks(a) + assistant_blocks(b));
    }
}

/// To a viewer its own messages are the agent's and all others the other side's. A message
/// that is on its side already stays as it is, tool calls and results included; one that
/// changes sides keeps its blocks, as text.
pub proof fn law_viewer_speaks_as_the_agent(
    stored: ChatMessage,
    is_self: bool,
    mapped: ChatMessage,
)
    requires
        seen_as(stored, is_self, mapped),
    ensures
        mapped is Assistant <==> is_self,
        mapped is User <==> !is_self,
        (stored is Assistant <==> is_self) ==> mapped == stored,
        stored is User && is_self ==> stored->User_0@.len() == mapped->Assistant_0@.len(),
        stored is Assistant && !is_self ==> stored->Assistant_0@.len() == mapped->User_0@.len(),
{
}

proof fn lemma_first_user(messages: Seq<ChatMessage>)
    ensures
        match first_user(messages) {
            Some(i) => 0 <= i < messages.len() && messages[i] is User && forall|j: int|
                0 <= j < i ==> !((#[trigger] messages[j]) is User),
            None => forall|j: int| 0 <= j < messages.len() ==> !((#[trigger] messages[j]) is User),
        },
    decreases messages.len(),
{
    if messages.len() > 0 {
        let rest = messages.drop_last();
        lemma_first_user(rest);
        assert(forall|j: int| 0 <= j < rest.len() ==> #[trigger] messages[j] == rest[j]);
        assert(messages[messages.len() - 1] == messages.last());
    }
}

proof fn lemma_text_lines(blocks: Seq<UserContent>, i: int)
    requires
        0 <= i < blocks.len(),
        blocks[i] is Text,
    ensures
        has_substring(text_lines(blocks), blocks[i]->Text_0@),
    decreases blocks.len(),
{
    let rest = blocks.drop_last();
    let before = text_lines(rest);
    let all = text_lines(blocks);
    let t = blocks[i]->Text_0@;
    if i == blocks.len() - 1 {
        let p = all.len() - t.len();
        assert(all.subrange(p, p + t.len()) =~= t);
        assert(occurs_at(all, t, p));
    } else {
        assert(rest[i] == blocks[i]);
        lemma_text_lines(rest, i);
        let p = choose|p: int| occurs_at(before, t, p);
        if before.len() == 0 {
            assert(t.len() == 0);
            assert(all.subrange(0, 0) =~= t);
            assert(occurs_at(all, t, 0));
        } else {
            assert(all.subrange(p, p + t.len()) =~= before.subrange(p, p + t.len()));
            assert(occurs_at(all, t, p));
        }
    }
}

/// A session opens with what the other side said first: all text of its first message, and
/// nothing of what came later. There is none where the other side said nothing, or its
/// first message has no text.
pub proof fn law_session_opens_with_the_first_words(messages: Seq<ChatMessage>, i: int, k: int)
    requires
        0 <= i < messages.len(),
        messages[i] is User,
        forall|j: int| 0 <= j < i ==> !((#[trigger] messages[j]) is User),
        0 <= k < messages[i]->User_0@.len(),
    ensures
        opening_text(messages) == opening_text(messages.take(i + 1)),
        messages[i]->User_0@[k] matches UserContent::Text(t) ==> {
            &&& t@.len() > 0 ==> opening_text(messages) is Some
            &&& opening_text(messages) is Some ==> has_substring(opening_text(messages)->0, t@)
        },
        opening_text(messages) is Some ==> exists|j: int|
            0 <= j < messages[i]->User_0@.len() && (#[trigger] messages[i]->User_0@[j]) is Text
                && messages[i]->User_0@[j]->Text_0@.len() > 0,
{
    let blocks = messages[i]->User_0@;
    let some = messages.take(i + 1);
    lemma_first_user(messages);
    lemma_first_user(some);
    assert(some[i] == messages[i]);
    assert forall|j: int| 0 <= j < i implies !((#[trigger] some[j]) is User) by {
        assert(some[j] == messages[j]);
    }
    assert(first_user(messages) == Some(i));
    assert(first_user(some) == Some(i));
    if blocks[k] is Text {
        lemma_text_lines(blocks, k);
    }
    if text_lines(blocks).len() > 0 {
        lemma_some_text(blocks);
    }
}

proof fn lemma_some_text(blocks: Seq<UserContent>)
    requires
        text_lines(blocks).len() > 0,
    ensures
        exists|j: int|
            0 <= j < blocks.len() && (#[trigger] blocks[j]) is Text && blocks[j]->Text_0@.len() > 0,
    decreases blocks.len(),
{
    let rest = blocks.drop_last();
    assert(blocks[blocks.len() - 1] == blocks.last());
    if text_lines(rest).len() > 0 {
        lemma_some_text(rest);
        let j = choose|j: int|
            0 <= j < rest.len() && (#[trigger] rest[j]) is Text && rest[j]->Text_0@.len() > 0;
        assert(blocks[j] == rest[j]);
    }
}

/// A session opens with text alone: tool results in its first message do not show.
pub proof fn law_opening_leaves_out_tool_results(blocks: Seq<UserContent>, r: ToolResult)
    ensures
        text_lines(blocks.push(UserContent::ToolResult(r))) == text_lines(blocks),
{
    assert(blocks.push(UserContent::ToolResult(r)).drop_last() =~= blocks);
}

} // verus!
