//! Values that cross the boundary of the runtime, parsed once.

use crate::ids::{AgentId, ContradictionEventId, PromptRequestId, SessionId};
use crate::text::{
    blank, byte_len, chars_of, decimal, is_blank, lemma_ascii_len, push_decimal, text_equal,
    utf8_len, white_space,
};
use vstd::prelude::*;
use vstd::std_specs::convert::TryFromSpecImpl;

verus! {

/// Why a raw value was refused.
#[derive(Clone, Copy, Debug)]
pub enum ParseError {
    /// The field holds nothing.
    Empty { field: &'static str },
    /// The field is longer than its cap, in bytes.
    TooLong { field: &'static str, max: usize, got: usize },
    /// The field does not have the form it must have.
    Malformed { field: &'static str, detail: &'static str },
    /// The field is a number outside its range.
    OutOfRange { field: &'static str, detail: &'static str },
}

impl ParseError {
    /// The text of the error.
    pub open spec fn text(self) -> Seq<char> {
        match self {
            ParseError::Empty { field } => field@ + " must not be empty"@,
            ParseError::TooLong { field, max, got } => field@ + " is too long: "@ + decimal(
                got as nat,
            ) + " bytes, at most "@ + decimal(max as nat),
            ParseError::Malformed { field, detail } => field@ + " is malformed: "@ + detail@,
            ParseError::OutOfRange { field, detail } => field@ + " is out of range: "@ + detail@,
        }
    }

    /// The error as one line of text.
    pub fn message(&self) -> (s: String)
        ensures
            s@ == self.text(),
    {
        let mut out = String::new();
        match self {
            ParseError::Empty { field } => {
                out.append(field);
                out.append(" must not be empty");
            },
            ParseError::TooLong { field, max, got } => {
                out.append(field);
                out.append(" is too long: ");
                push_decimal(&mut out, *got as u64);
                out.append(" bytes, at most ");
                push_decimal(&mut out, *max as u64);
            },
            ParseError::Malformed { field, detail } => {
                out.append(field);
                out.append(" is malformed: ");
                out.append(detail);
            },
            ParseError::OutOfRange { field, detail } => {
                out.append(field);
                out.append(" is out of range: ");
                out.append(detail);
            },
        }
        proof {
            assert(out@ =~= self.text());
        }
        out
    }
}

/// What a field that takes non-blank text of at most `max` bytes says of `s`.
pub open spec fn text_error(s: Seq<char>, field: &'static str, max: usize) -> Option<ParseError> {
    if blank(s) {
        Some(ParseError::Empty { field })
    } else {
        length_error(s, field, max)
    }
}

/// What a field that takes 1 to `max` bytes says of `s`.
pub open spec fn length_error(s: Seq<char>, field: &'static str, max: usize) -> Option<ParseError> {
    if s.len() == 0 {
        Some(ParseError::Empty { field })
    } else if utf8_len(s) > max {
        Some(ParseError::TooLong { field, max, got: utf8_len(s) as usize })
    } else {
        None
    }
}

/// Checks a field that takes 1 to `max` bytes.
pub fn check_length(raw: &str, field: &'static str, max: usize) -> (e: Option<ParseError>)
    ensures
        e == length_error(raw@, field, max),
{
    if raw.is_empty() {
        return Some(ParseError::Empty { field });
    }
    let got = byte_len(raw);
    if got > max {
        return Some(ParseError::TooLong { field, max, got });
    }
    None
}

/// Checks a field that takes non-blank text of at most `max` bytes.
pub fn check_text(raw: &str, field: &'static str, max: usize) -> (e: Option<ParseError>)
    ensures
        e == text_error(raw@, field, max),
{
    if is_blank(raw) {
        return Some(ParseError::Empty { field });
    }
    check_length(raw, field, max)
}

/// Maximum bytes of one prompt body.
pub const PROMPT_MAX_BYTES: usize = 65536;

/// Maximum bytes of an idempotency key.
pub const IDEMPOTENCY_KEY_MAX_BYTES: usize = 128;

/// Maximum bytes of a tool-call id.
pub const TOOL_CALL_ID_MAX_BYTES: usize = 256;

/// Maximum characters of a tool name.
pub const TOOL_NAME_MAX_CHARS: usize = 64;

/// Maximum bytes of a secret.
pub const SECRET_MAX_BYTES: usize = 16384;

/// The body of a prompt: not blank, and at most [`PROMPT_MAX_BYTES`] long.
#[derive(Debug)]
pub struct Prompt {
    text: String,
}

impl View for Prompt {
    type V = Seq<char>;

    closed spec fn view(&self) -> Seq<char> {
        self.text@
    }
}

impl Prompt {
    /// What is wrong with `s` as a value of this type.
    pub open spec fn refusal(s: Seq<char>) -> Option<ParseError> {
        text_error(s, "prompt", PROMPT_MAX_BYTES)
    }

    #[verifier::type_invariant]
    spec fn checked(self) -> bool {
        Prompt::refusal(self.text@) is None
    }

    /// The text.
    pub fn as_str(&self) -> (s: &str)
        ensures
            s@ == self@,
            Prompt::refusal(self@) is None,
    {
        proof {
            use_type_invariant(self);
        }
        self.text.as_str()
    }
}

impl Clone for Prompt {
    fn clone(&self) -> (r: Prompt)
        ensures
            r == *self,
    {
        proof {
            use_type_invariant(self);
        }
        Prompt { text: self.text.clone() }
    }
}

impl TryFrom<&str> for Prompt {
    type Error = ParseError;

    fn try_from(raw: &str) -> (r: Result<Prompt, ParseError>)
        ensures
            match r {
                Ok(v) => Prompt::refusal(raw@) is None && v@ == raw@,
                Err(e) => Prompt::refusal(raw@) == Some(e),
            },
    {
        match check_text(raw, "prompt", PROMPT_MAX_BYTES) {
            Some(e) => Err(e),
            None => Ok(Prompt { text: raw.to_owned() }),
        }
    }
}

impl TryFromSpecImpl<&str> for Prompt {
    open spec fn obeys_try_from_spec() -> bool {
        false
    }

    open spec fn try_from_spec(v: &str) -> Result<Prompt, ParseError> {
        arbitrary()
    }
}

impl TryFrom<String> for Prompt {
    type Error = ParseError;

    fn try_from(raw: String) -> (r: Result<Prompt, ParseError>)
        ensures
            match r {
                Ok(v) => Prompt::refusal(raw@) is None && v@ == raw@,
                Err(e) => Prompt::refusal(raw@) == Some(e),
            },
    {
        Prompt::try_from(raw.as_str())
    }
}

impl TryFromSpecImpl<String> for Prompt {
    open spec fn obeys_try_from_spec() -> bool {
        false
    }

    open spec fn try_from_spec(v: String) -> Result<Prompt, ParseError> {
        arbitrary()
    }
}

/// The key under which a queued request is deduplicated.
#[derive(Debug)]
pub struct IdempotencyKey {
    text: String,
}

impl View for IdempotencyKey {
    type V = Seq<char>;

    closed spec fn view(&self) -> Seq<char> {
        self.text@
    }
}

impl IdempotencyKey {
    /// What is wrong with `s` as a value of this type.
    pub open spec fn refusal(s: Seq<char>) -> Option<ParseError> {
        text_error(s, "idempotency_key", IDEMPOTENCY_KEY_MAX_BYTES)
    }

    #[verifier::type_invariant]
    spec fn checked(self) -> bool {
        IdempotencyKey::refusal(self.text@) is None
    }

    /// The text.
    pub fn as_str(&self) -> (s: &str)
        ensures
            s@ == self@,
            IdempotencyKey::refusal(self@) is None,
    {
        proof {
            use_type_invariant(self);
        }
        self.text.as_str()
    }
}

impl Clone for IdempotencyKey {
    fn clone(&self) -> (r: IdempotencyKey)
        ensures
            r == *self,
    {
        proof {
            use_type_invariant(self);
        }
        IdempotencyKey { text: self.text.clone() }
    }
}

impl TryFrom<&str> for IdempotencyKey {
    type Error = ParseError;

    fn try_from(raw: &str) -> (r: Result<IdempotencyKey, ParseError>)
        ensures
            match r {
                Ok(v) => IdempotencyKey::refusal(raw@) is None && v@ == raw@,
                Err(e) => IdempotencyKey::refusal(raw@) == Some(e),
            },
    {
        match check_text(raw, "idempotency_key", IDEMPOTENCY_KEY_MAX_BYTES) {
            Some(e) => Err(e),
            None => Ok(IdempotencyKey { text: raw.to_owned() }),
        }
    }
}

impl TryFromSpecImpl<&str> for IdempotencyKey {
    open spec fn obeys_try_from_spec() -> bool {
        false
    }

    open spec fn try_from_spec(v: &str) -> Result<IdempotencyKey, ParseError> {
        arbitrary()
    }
}

impl TryFrom<String> for IdempotencyKey {
    type Error = ParseError;

    fn try_from(raw: String) -> (r: Result<IdempotencyKey, ParseError>)
        ensures
            match r {
                Ok(v) => IdempotencyKey::refusal(raw@) is None && v@ == raw@,
                Err(e) => IdempotencyKey::refusal(raw@) == Some(e),
            },
    {
        IdempotencyKey::try_from(raw.as_str())
    }
}

impl TryFromSpecImpl<String> for IdempotencyKey {
    open spec fn obeys_try_from_spec() -> bool {
        false
    }

    open spec fn try_from_spec(v: String) -> Result<IdempotencyKey, ParseError> {
        arbitrary()
    }
}

/// The id a model gave to one of its tool calls.
#[derive(Debug)]
pub struct ToolCallId {
    text: String,
}

impl View for ToolCallId {
    type V = Seq<char>;

    closed spec fn view(&self) -> Seq<char> {
        self.text@
    }
}

impl ToolCallId {
    /// What is wrong with `s` as a value of this type.
    pub open spec fn refusal(s: Seq<char>) -> Option<ParseError> {
        text_error(s, "tool_call_id", TOOL_CALL_ID_MAX_BYTES)
    }

    #[verifier::type_invariant]
    spec fn checked(self) -> bool {
        ToolCallId::refusal(self.text@) is None
    }

    /// The text.
    pub fn as_str(&self) -> (s: &str)
        ensures
            s@ == self@,
            ToolCallId::refusal(self@) is None,
    {
        proof {
            use_type_invariant(self);
        }
        self.text.as_str()
    }
}

impl Clone for ToolCallId {
    fn clone(&self) -> (r: ToolCallId)
        ensures
            r == *self,
    {
        proof {
            use_type_invariant(self);
        }
        ToolCallId { text: self.text.clone() }
    }
}

impl TryFrom<&str> for ToolCallId {
    type Error = ParseError;

    fn try_from(raw: &str) -> (r: Result<ToolCallId, ParseError>)
        ensures
            match r {
                Ok(v) => ToolCallId::refusal(raw@) is None && v@ == raw@,
                Err(e) => ToolCallId::refusal(raw@) == Some(e),
            },
    {
        match check_text(raw, "tool_call_id", TOOL_CALL_ID_MAX_BYTES) {
            Some(e) => Err(e),
            None => Ok(ToolCallId { text: raw.to_owned() }),
        }
    }
}

impl TryFromSpecImpl<&str> for ToolCallId {
    open spec fn obeys_try_from_spec() -> bool {
        false
    }

    open spec fn try_from_spec(v: &str) -> Result<ToolCallId, ParseError> {
        arbitrary()
    }
}

/// A character that a tool name may hold: an ASCII letter or digit, `_` or
/// `-`.
pub open spec fn tool_name_char(c: char) -> bool {
    ||| 'a' as u32 <= c as u32 <= 'z' as u32
    ||| 'A' as u32 <= c as u32 <= 'Z' as u32
    ||| '0' as u32 <= c as u32 <= '9' as u32
    ||| c == '_'
    ||| c == '-'
}

fn is_tool_name_char(c: char) -> (r: bool)
    ensures
        r == tool_name_char(c),
{
    let n: u32 = c as u32;
    (97 <= n && n <= 122) || (65 <= n && n <= 90) || (48 <= n && n <= 57) || c == '_' || c == '-'
}

/// What is wrong with `s` as the name of a tool.
pub open spec fn tool_name_error(s: Seq<char>) -> Option<ParseError> {
    if s.len() == 0 {
        Some(ParseError::Empty { field: "tool_name" })
    } else if utf8_len(s) > TOOL_NAME_MAX_CHARS {
        Some(
            ParseError::TooLong {
                field: "tool_name",
                max: TOOL_NAME_MAX_CHARS,
                got: utf8_len(s) as usize,
            },
        )
    } else if exists|i: int| 0 <= i < s.len() && !tool_name_char(#[trigger] s[i]) {
        Some(ParseError::Malformed { field: "tool_name", detail: "must match [a-zA-Z0-9_-]" })
    } else {
        None
    }
}

fn check_tool_name(raw: &str) -> (e: Option<ParseError>)
    ensures
        e == tool_name_error(raw@),
{
    if let Some(e) = check_length(raw, "tool_name", TOOL_NAME_MAX_CHARS) {
        return Some(e);
    }
    let v = chars_of(raw);
    let mut i: usize = 0;
    while i < v.len()
        invariant
            i <= v@.len(),
            v@ == raw@,
            length_error(raw@, "tool_name", TOOL_NAME_MAX_CHARS) is None,
            forall|j: int| 0 <= j < i ==> tool_name_char(#[trigger] raw@[j]),
        decreases v.len() - i,
    {
        if !is_tool_name_char(v[i]) {
            proof {
                assert(!tool_name_char(raw@[i as int]));
            }
            return Some(
                ParseError::Malformed { field: "tool_name", detail: "must match [a-zA-Z0-9_-]" },
            );
        }
        i += 1;
    }
    None
}

/// The name under which a tool is offered to a model.
#[derive(Debug)]
pub struct ToolName {
    text: String,
}

impl View for ToolName {
    type V = Seq<char>;

    closed spec fn view(&self) -> Seq<char> {
        self.text@
    }
}

impl ToolName {
    /// What is wrong with `s` as a value of this type.
    pub open spec fn refusal(s: Seq<char>) -> Option<ParseError> {
        tool_name_error(s)
    }

    #[verifier::type_invariant]
    spec fn checked(self) -> bool {
        ToolName::refusal(self.text@) is None
    }

    /// The text.
    pub fn as_str(&self) -> (s: &str)
        ensures
            s@ == self@,
            ToolName::refusal(self@) is None,
    {
        proof {
            use_type_invariant(self);
        }
        self.text.as_str()
    }
}

impl Clone for ToolName {
    fn clone(&self) -> (r: ToolName)
        ensures
            r == *self,
    {
        proof {
            use_type_invariant(self);
        }
        ToolName { text: self.text.clone() }
    }
}

impl TryFrom<&str> for ToolName {
    type Error = ParseError;

    fn try_from(raw: &str) -> (r: Result<ToolName, ParseError>)
        ensures
            match r {
                Ok(v) => ToolName::refusal(raw@) is None && v@ == raw@,
                Err(e) => ToolName::refusal(raw@) == Some(e),
            },
    {
        match check_tool_name(raw) {
            Some(e) => Err(e),
            None => Ok(ToolName { text: raw.to_owned() }),
        }
    }
}

impl TryFromSpecImpl<&str> for ToolName {
    open spec fn obeys_try_from_spec() -> bool {
        false
    }

    open spec fn try_from_spec(v: &str) -> Result<ToolName, ParseError> {
        arbitrary()
    }
}

impl TryFrom<String> for ToolName {
    type Error = ParseError;

    fn try_from(raw: String) -> (r: Result<ToolName, ParseError>)
        ensures
            match r {
                Ok(v) => ToolName::refusal(raw@) is None && v@ == raw@,
                Err(e) => ToolName::refusal(raw@) == Some(e),
            },
    {
        ToolName::try_from(raw.as_str())
    }
}

impl TryFromSpecImpl<String> for ToolName {
    open spec fn obeys_try_from_spec() -> bool {
        false
    }

    open spec fn try_from_spec(v: String) -> Result<ToolName, ParseError> {
        arbitrary()
    }
}

/// A secret: its text is reached only through [`SecretString::expose`].
pub struct SecretString {
    text: String,
}

impl View for SecretString {
    type V = Seq<char>;

    closed spec fn view(&self) -> Seq<char> {
        self.text@
    }
}

impl SecretString {
    /// What is wrong with `s` as a value of this type.
    pub open spec fn refusal(s: Seq<char>) -> Option<ParseError> {
        length_error(s, "secret", SECRET_MAX_BYTES)
    }

    #[verifier::type_invariant]
    spec fn checked(self) -> bool {
        SecretString::refusal(self.text@) is None
    }

    /// The secret in plain text.
    pub fn expose(&self) -> (s: &str)
        ensures
            s@ == self@,
            SecretString::refusal(self@) is None,
    {
        proof {
            use_type_invariant(self);
        }
        self.text.as_str()
    }
}

impl Clone for SecretString {
    fn clone(&self) -> (r: SecretString)
        ensures
            r == *self,
    {
        proof {
            use_type_invariant(self);
        }
        SecretString { text: self.text.clone() }
    }
}

impl TryFrom<&str> for SecretString {
    type Error = ParseError;

    fn try_from(raw: &str) -> (r: Result<SecretString, ParseError>)
        ensures
            match r {
                Ok(v) => SecretString::refusal(raw@) is None && v@ == raw@,
                Err(e) => SecretString::refusal(raw@) == Some(e),
            },
    {
        match check_length(raw, "secret", SECRET_MAX_BYTES) {
            Some(e) => Err(e),
            None => Ok(SecretString { text: raw.to_owned() }),
        }
    }
}

impl TryFromSpecImpl<&str> for SecretString {
    open spec fn obeys_try_from_spec() -> bool {
        false
    }

    open spec fn try_from_spec(v: &str) -> Result<SecretString, ParseError> {
        arbitrary()
    }
}

impl TryFrom<String> for SecretString {
    type Error = ParseError;

    fn try_from(raw: String) -> (r: Result<SecretString, ParseError>)
        ensures
            match r {
                Ok(v) => SecretString::refusal(raw@) is None && v@ == raw@,
                Err(e) => SecretString::refusal(raw@) == Some(e),
            },
    {
        SecretString::try_from(raw.as_str())
    }
}

impl TryFromSpecImpl<String> for SecretString {
    open spec fn obeys_try_from_spec() -> bool {
        false
    }

    open spec fn try_from_spec(v: String) -> Result<SecretString, ParseError> {
        arbitrary()
    }
}

/// Mode of a turn.
#[derive(Clone, Copy, Debug, PartialEq, Eq, Hash, Structural)]
pub enum RequestKind {
    /// A turn of an ordinary conversation.
    Normal,
    /// A turn in which an agent looks back on a session.
    Reflection,
    /// A turn in which an agent settles a flagged contradiction.
    Resolution,
}

impl RequestKind {
    /// The wire label.
    pub open spec fn label(self) -> Seq<char> {
        match self {
            RequestKind::Normal => "normal"@,
            RequestKind::Reflection => "reflection"@,
            RequestKind::Resolution => "resolution"@,
        }
    }

    /// The wire label.
    pub fn as_str(self) -> (s: &'static str)
        ensures
            s@ == self.label(),
    {
        match self {
            RequestKind::Normal => "normal",
            RequestKind::Reflection => "reflection",
            RequestKind::Resolution => "resolution",
        }
    }

    /// Every variant, in declaration order.
    pub fn all() -> (v: Vec<RequestKind>)
        ensures
            v@ == seq![RequestKind::Normal, RequestKind::Reflection, RequestKind::Resolution],
            forall|k: RequestKind| v@.contains(k),
    {
        let v = vec![RequestKind::Normal, RequestKind::Reflection, RequestKind::Resolution];
        proof {
            assert(v@ =~= seq![RequestKind::Normal, RequestKind::Reflection, RequestKind::Resolution]);
            assert forall|k: RequestKind| v@.contains(k) by {
                match k {
                    RequestKind::Normal => assert(v@[0] == k),
                    RequestKind::Reflection => assert(v@[1] == k),
                    RequestKind::Resolution => assert(v@[2] == k),
                }
            }
        }
        v
    }

    /// The variant with the label `s`.
    pub fn parse(s: &str) -> (r: Option<RequestKind>)
        ensures
            match r {
                Some(k) => s@ == k.label(),
                None => forall|k: RequestKind| s@ != #[trigger] k.label(),
            },
    {
        if text_equal(s, "normal") {
            Some(RequestKind::Normal)
        } else if text_equal(s, "reflection") {
            Some(RequestKind::Reflection)
        } else if text_equal(s, "resolution") {
            Some(RequestKind::Resolution)
        } else {
            None
        }
    }

    /// No two variants share a label: what a label parses to is the variant
    /// that it labels.
    pub proof fn lemma_labels_distinct(a: RequestKind, b: RequestKind)
        ensures
            a.label() == b.label() ==> a == b,
    {
        reveal_strlit("normal");
        reveal_strlit("reflection");
        reveal_strlit("resolution");
        assert("normal"@.len() != "reflection"@.len());
        assert("normal"@.len() != "resolution"@.len());
        assert("reflection"@[2] != "resolution"@[2]);
    }
}

/// What a turn of each mode carries besides its prompt.
#[derive(Clone, Copy, Debug, PartialEq, Eq, Structural)]
pub enum RequestKindPayload {
    /// Nothing more.
    Normal,
    /// The session to look back on, up to one of its turns.
    Reflection { session_id: SessionId, up_to_turn_id: PromptRequestId },
    /// The contradiction to settle.
    Resolution { contradiction_event_id: ContradictionEventId },
}

impl RequestKindPayload {
    /// The mode that the payload belongs to.
    pub fn kind(&self) -> (k: RequestKind)
        ensures
            k == (match *self {
                RequestKindPayload::Normal => RequestKind::Normal,
                RequestKindPayload::Reflection { .. } => RequestKind::Reflection,
                RequestKindPayload::Resolution { .. } => RequestKind::Resolution,
            }),
    {
        match self {
            RequestKindPayload::Normal => RequestKind::Normal,
            RequestKindPayload::Reflection { .. } => RequestKind::Reflection,
            RequestKindPayload::Resolution { .. } => RequestKind::Resolution,
        }
    }
}

/// Which kind of participant stands on a side of a session.
#[derive(Clone, Copy, Debug, PartialEq, Eq, Hash, Structural)]
pub enum ParticipantKind {
    /// A person.
    Human,
    /// An agent.
    Agent,
}

impl ParticipantKind {
    /// The wire label.
    pub open spec fn label(self) -> Seq<char> {
        match self {
            ParticipantKind::Human => "human"@,
            ParticipantKind::Agent => "agent"@,
        }
    }

    /// The wire label.
    pub fn as_str(self) -> (s: &'static str)
        ensures
            s@ == self.label(),
    {
        match self {
            ParticipantKind::Human => "human",
            ParticipantKind::Agent => "agent",
        }
    }

    /// Every variant, in declaration order.
    pub fn all() -> (v: Vec<ParticipantKind>)
        ensures
            v@ == seq![ParticipantKind::Human, ParticipantKind::Agent],
            forall|k: ParticipantKind| v@.contains(k),
    {
        let v = vec![ParticipantKind::Human, ParticipantKind::Agent];
        proof {
            assert(v@ =~= seq![ParticipantKind::Human, ParticipantKind::Agent]);
            assert forall|k: ParticipantKind| v@.contains(k) by {
                match k {
                    ParticipantKind::Human => assert(v@[0] == k),
                    ParticipantKind::Agent => assert(v@[1] == k),
                }
            }
        }
        v
    }

    /// The variant with the label `s`.
    pub fn parse(s: &str) -> (r: Option<ParticipantKind>)
        ensures
            match r {
                Some(k) => s@ == k.label(),
                None => forall|k: ParticipantKind| s@ != #[trigger] k.label(),
            },
    {
        if text_equal(s, "human") {
            Some(ParticipantKind::Human)
        } else if text_equal(s, "agent") {
            Some(ParticipantKind::Agent)
        } else {
            None
        }
    }

    /// No two variants share a label: what a label parses to is the variant
    /// that it labels.
    pub proof fn lemma_labels_distinct(a: ParticipantKind, b: ParticipantKind)
        ensures
            a.label() == b.label() ==> a == b,
    {
        reveal_strlit("human");
        reveal_strlit("agent");
        assert("human"@[0] != "agent"@[0]);
    }
}

/// One side of a session.
#[derive(Clone, Copy, Debug, PartialEq, Eq, Structural)]
pub enum Participant {
    /// A person.
    Human,
    /// An agent.
    Agent { agent_id: AgentId },
}

impl Participant {
    /// The kind of the participant.
    pub fn kind(&self) -> (k: ParticipantKind)
        ensures
            k == (match *self {
                Participant::Human => ParticipantKind::Human,
                Participant::Agent { .. } => ParticipantKind::Agent,
            }),
    {
        match self {
            Participant::Human => ParticipantKind::Human,
            Participant::Agent { .. } => ParticipantKind::Agent,
        }
    }

    /// The agent on this side, if it is one.
    pub fn agent_id(&self) -> (a: Option<AgentId>)
        ensures
            a == (match *self {
                Participant::Human => None,
                Participant::Agent { agent_id } => Some(agent_id),
            }),
    {
        match self {
            Participant::Human => None,
            Participant::Agent { agent_id } => Some(*agent_id),
        }
    }

    /// The participant that a kind and an agent column describe: a person has
    /// no agent, and an agent has one.
    pub fn from_kind_id(kind: ParticipantKind, agent: Option<AgentId>) -> (p: Option<Participant>)
        ensures
            p == (match (kind, agent) {
                (ParticipantKind::Human, None) => Some(Participant::Human),
                (ParticipantKind::Agent, Some(agent_id)) => Some(Participant::Agent { agent_id }),
                _ => None,
            }),
    {
        match (kind, agent) {
            (ParticipantKind::Human, None) => Some(Participant::Human),
            (ParticipantKind::Agent, Some(agent_id)) => Some(Participant::Agent { agent_id }),
            _ => None,
        }
    }
}

/// Who a message comes from.
#[derive(Clone, Copy, Debug, PartialEq, Eq, Hash, Structural)]
pub enum MessageSenderKind {
    /// A person.
    Human,
    /// An agent.
    Agent,
    /// The runtime itself.
    System,
}

impl MessageSenderKind {
    /// The wire label.
    pub open spec fn label(self) -> Seq<char> {
        match self {
            MessageSenderKind::Human => "human"@,
            MessageSenderKind::Agent => "agent"@,
            MessageSenderKind::System => "system"@,
        }
    }

    /// The wire label.
    pub fn as_str(self) -> (s: &'static str)
        ensures
            s@ == self.label(),
    {
        match self {
            MessageSenderKind::Human => "human",
            MessageSenderKind::Agent => "agent",
            MessageSenderKind::System => "system",
        }
    }

    /// Every variant, in declaration order.
    pub fn all() -> (v: Vec<MessageSenderKind>)
        ensures
            v@ == seq![MessageSenderKind::Human, MessageSenderKind::Agent, MessageSenderKind::System],
            forall|k: MessageSenderKind| v@.contains(k),
    {
        let v = vec![MessageSenderKind::Human, MessageSenderKind::Agent, MessageSenderKind::System];
        proof {
            assert(v@ =~= seq![MessageSenderKind::Human, MessageSenderKind::Agent, MessageSenderKind::System]);
            assert forall|k: MessageSenderKind| v@.contains(k) by {
                match k {
                    MessageSenderKind::Human => assert(v@[0] == k),
                    MessageSenderKind::Agent => assert(v@[1] == k),
                    MessageSenderKind::System => assert(v@[2] == k),
                }
            }
        }
        v
    }

    /// The variant with the label `s`.
    pub fn parse(s: &str) -> (r: Option<MessageSenderKind>)
        ensures
            match r {
                Some(k) => s@ == k.label(),
                None => forall|k: MessageSenderKind| s@ != #[trigger] k.label(),
            },
    {
        if text_equal(s, "human") {
            Some(MessageSenderKind::Human)
        } else if text_equal(s, "agent") {
            Some(MessageSenderKind::Agent)
        } else if text_equal(s, "system") {
            Some(MessageSenderKind::System)
        } else {
            None
        }
    }

    /// No two variants share a label: what a label parses to is the variant
    /// that it labels.
    pub proof fn lemma_labels_distinct(a: MessageSenderKind, b: MessageSenderKind)
        ensures
            a.label() == b.label() ==> a == b,
    {
        reveal_strlit("human");
        reveal_strlit("agent");
        reveal_strlit("system");
        assert("human"@[0] != "agent"@[0]);
        assert("human"@.len() != "system"@.len());
        assert("agent"@.len() != "system"@.len());
    }
}

/// Who a message comes from.
#[derive(Clone, Copy, Debug, PartialEq, Eq, Structural)]
pub enum MessageSender {
    Human,
    Agent { agent_id: AgentId },
    System,
}

impl MessageSender {
    /// The sender that the columns `kind` and `agent` of a message name, if they
    /// fit together: an agent has an id, and nobody else has.
    pub fn from_kind_id(kind: MessageSenderKind, agent: Option<AgentId>) -> (s: Option<MessageSender>)
        ensures
            s == (match (kind, agent) {
                (MessageSenderKind::Human, None) => Some(MessageSender::Human),
                (MessageSenderKind::Agent, Some(agent_id)) => Some(
                    MessageSender::Agent { agent_id },
                ),
                (MessageSenderKind::System, None) => Some(MessageSender::System),
                _ => None,
            }),
    {
        match (kind, agent) {
            (MessageSenderKind::Human, None) => Some(MessageSender::Human),
            (MessageSenderKind::Agent, Some(agent_id)) => Some(MessageSender::Agent { agent_id }),
            (MessageSenderKind::System, None) => Some(MessageSender::System),
            _ => None,
        }
    }
}

/// Text is taken exactly if something in it can be seen and it is not too long; it is refused
/// as empty where nothing can, and as too long otherwise, with both lengths told.
pub proof fn law_visible_text_is_taken(s: Seq<char>, field: &'static str, max: usize)
    ensures
        text_error(s, field, max) is None <==> utf8_len(s) <= max && exists|i: int|
            0 <= i < s.len() && !white_space(#[trigger] s[i]),
        (forall|i: int| 0 <= i < s.len() ==> white_space(#[trigger] s[i])) ==> text_error(
            s,
            field,
            max,
        ) == Some(ParseError::Empty { field }),
        text_error(s, field, max) matches Some(ParseError::TooLong { field: f, max: m, got })
            ==> f == field && m == max && utf8_len(s) > max && got == utf8_len(s) as usize,
        text_error(s, field, max) matches Some(e) ==> e is Empty || e is TooLong,
{
    if exists|i: int| 0 <= i < s.len() && !white_space(#[trigger] s[i]) {
        let i = choose|i: int| 0 <= i < s.len() && !white_space(#[trigger] s[i]);
        assert(!blank(s));
    }
}

/// A field that need not be visible takes anything from one byte to its limit.
pub proof fn law_length_is_all_that_counts(s: Seq<char>, field: &'static str, max: usize)
    ensures
        length_error(s, field, max) is None <==> 0 < s.len() && utf8_len(s) <= max,
        s.len() == 0 ==> length_error(s, field, max) == Some(ParseError::Empty { field }),
        s.len() > 0 && utf8_len(s) > max ==> length_error(s, field, max) == Some(
            ParseError::TooLong { field, max, got: utf8_len(s) as usize },
        ),
{
}

/// How long each kind of text may be.
pub proof fn law_texts_have_their_limits(s: Seq<char>)
    ensures
        Prompt::refusal(s) is None <==> !blank(s) && utf8_len(s) <= 65_536,
        IdempotencyKey::refusal(s) is None <==> !blank(s) && utf8_len(s) <= 128,
        ToolCallId::refusal(s) is None <==> !blank(s) && utf8_len(s) <= 256,
        SecretString::refusal(s) is None <==> 0 < s.len() && utf8_len(s) <= 16_384,
{
    if s.len() == 0 {
        assert(blank(s));
    }
}

/// The name of a tool is one to sixty-four ASCII letters, digits, underscores and hyphens.
pub proof fn law_tool_names_are_identifiers(s: Seq<char>)
    ensures
        tool_name_error(s) is None <==> 0 < s.len() && s.len() <= 64 && forall|i: int|
            0 <= i < s.len() ==> {
                ||| 97 <= (#[trigger] s[i]) as u32 <= 122
                ||| 65 <= s[i] as u32 <= 90
                ||| 48 <= s[i] as u32 <= 57
                ||| s[i] == '_'
                ||| s[i] == '-'
            },
{
    if forall|i: int| 0 <= i < s.len() ==> tool_name_char(#[trigger] s[i]) {
        lemma_ascii_len(s);
    }
    if tool_name_error(s) is None {
        assert forall|i: int| 0 <= i < s.len() implies tool_name_char(#[trigger] s[i]) by {}
    }
    if 0 < s.len() && s.len() <= 64 && forall|i: int|
        0 <= i < s.len() ==> {
            ||| 97 <= (#[trigger] s[i]) as u32 <= 122
            ||| 65 <= s[i] as u32 <= 90
            ||| 48 <= s[i] as u32 <= 57
            ||| s[i] == '_'
            ||| s[i] == '-'
        } {
        assert forall|i: int| 0 <= i < s.len() implies tool_name_char(#[trigger] s[i]) by {}
        assert forall|i: int| 0 <= i < s.len() implies (#[trigger] s[i] as u32) < 0x80 by {
            assert(tool_name_char(s[i]));
        }
        lemma_ascii_len(s);
    }
}

/// On the wire each kind of request goes by a name of its own.
pub proof fn law_request_kind_goes_by_its_name(x: RequestKind)
    ensures
        x.label() == "normal"@ <==> x is Normal,
        x.label() == "reflection"@ <==> x is Reflection,
        x.label() == "resolution"@ <==> x is Resolution,
{
    RequestKind::lemma_labels_distinct(x, RequestKind::Normal);
    RequestKind::lemma_labels_distinct(x, RequestKind::Reflection);
    RequestKind::lemma_labels_distinct(x, RequestKind::Resolution);
}

/// On the wire each kind of participant goes by a name of its own.
pub proof fn law_participant_kind_goes_by_its_name(x: ParticipantKind)
    ensures
        x.label() == "human"@ <==> x is Human,
        x.label() == "agent"@ <==> x is Agent,
{
    ParticipantKind::lemma_labels_distinct(x, ParticipantKind::Human);
    ParticipantKind::lemma_labels_distinct(x, ParticipantKind::Agent);
}

/// On the wire each kind of sender goes by a name of its own.
pub proof fn law_message_sender_kind_goes_by_its_name(x: MessageSenderKind)
    ensures
        x.label() == "human"@ <==> x is Human,
        x.label() == "agent"@ <==> x is Agent,
        x.label() == "system"@ <==> x is System,
{
    MessageSenderKind::lemma_labels_distinct(x, MessageSenderKind::Human);
    MessageSenderKind::lemma_labels_distinct(x, MessageSenderKind::Agent);
    MessageSenderKind::lemma_labels_distinct(x, MessageSenderKind::System);
}

/// The message says which fault it was, and carries its detail.
pub proof fn law_parse_error_says_what_is_wrong(error: ParseError)
    ensures
        error matches ParseError::Empty { field } ==> error.text() == field@
            + " must not be empty"@,
        error matches ParseError::TooLong { field, max, got } ==> error.text() == field@
            + " is too long: "@ + decimal(got as nat) + " bytes, at most "@ + decimal(max as nat),
        error matches ParseError::Malformed { field, detail } ==> error.text() == field@
            + " is malformed: "@ + detail@,
        error matches ParseError::OutOfRange { field, detail } ==> error.text() == field@
            + " is out of range: "@ + detail@,
{
}

} // verus!
