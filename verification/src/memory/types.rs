//! Domain values of the memory subsystem.

use crate::memory::limits::MEMORY_CONTENT_MAX_BYTES;
use crate::text::{
    blank, byte_len, chars_of, decimal, lemma_number_of_decimal, lemma_utf8_len_at_least_chars,
    number_u32, parse_u32, push_decimal, starts_with_text, text_equal, text_of, utf8_len,
};
use crate::types::{check_text, text_error, ParseError};
use vstd::prelude::*;
use vstd::std_specs::convert::TryFromSpecImpl;

verus! {

/// What a memory is about.
#[derive(Clone, Copy, Debug, PartialEq, Eq, Hash, Structural)]
pub enum MemoryKind {
    /// Identity, style, preferences.
    Identity,
    /// Beliefs about specific peers or humans.
    Other,
    /// Learned how-tos.
    Procedure,
    /// Known unknowns.
    Open,
}

impl MemoryKind {
    /// The wire label.
    pub open spec fn label(self) -> Seq<char> {
        match self {
            MemoryKind::Identity => "self"@,
            MemoryKind::Other => "other"@,
            MemoryKind::Procedure => "procedure"@,
            MemoryKind::Open => "open"@,
        }
    }

    /// The wire label.
    pub fn as_str(self) -> (s: &'static str)
        ensures
            s@ == self.label(),
    {
        match self {
            MemoryKind::Identity => "self",
            MemoryKind::Other => "other",
            MemoryKind::Procedure => "procedure",
            MemoryKind::Open => "open",
        }
    }

    /// Every variant, in declaration order.
    pub fn all() -> (v: Vec<MemoryKind>)
        ensures
            v@ == seq![MemoryKind::Identity, MemoryKind::Other, MemoryKind::Procedure, MemoryKind::Open],
            forall|k: MemoryKind| v@.contains(k),
    {
        let v = vec![MemoryKind::Identity, MemoryKind::Other, MemoryKind::Procedure, MemoryKind::Open];
        proof {
            assert(v@ =~= seq![MemoryKind::Identity, MemoryKind::Other, MemoryKind::Procedure, MemoryKind::Open]);
            assert forall|k: MemoryKind| v@.contains(k) by {
                match k {
                    MemoryKind::Identity => assert(v@[0] == k),
                    MemoryKind::Other => assert(v@[1] == k),
                    MemoryKind::Procedure => assert(v@[2] == k),
                    MemoryKind::Open => assert(v@[3] == k),
                }
            }
        }
        v
    }

    /// The variant with the label `s`.
    pub fn parse(s: &str) -> (r: Option<MemoryKind>)
        ensures
            match r {
                Some(k) => s@ == k.label(),
                None => forall|k: MemoryKind| s@ != #[trigger] k.label(),
            },
    {
        if text_equal(s, "self") {
            Some(MemoryKind::Identity)
        } else if text_equal(s, "other") {
            Some(MemoryKind::Other)
        } else if text_equal(s, "procedure") {
            Some(MemoryKind::Procedure)
        } else if text_equal(s, "open") {
            Some(MemoryKind::Open)
        } else {
            None
        }
    }

    /// No two variants share a label: what a label parses to is the variant
    /// that it labels.
    pub proof fn lemma_labels_distinct(a: MemoryKind, b: MemoryKind)
        ensures
            a.label() == b.label() ==> a == b,
    {
        reveal_strlit("self");
        reveal_strlit("other");
        reveal_strlit("procedure");
        reveal_strlit("open");
        assert("self"@.len() != "other"@.len());
        assert("self"@.len() != "procedure"@.len());
        assert("self"@[0] != "open"@[0]);
        assert("other"@.len() != "procedure"@.len());
        assert("other"@.len() != "open"@.len());
        assert("procedure"@.len() != "open"@.len());
    }

    /// The heading of the kind in the rendered memory section.
    pub open spec fn heading(self) -> Seq<char> {
        match self {
            MemoryKind::Identity => "Self"@,
            MemoryKind::Other => "Other"@,
            MemoryKind::Procedure => "Procedure"@,
            MemoryKind::Open => "Open"@,
        }
    }

    /// The heading of the kind in the rendered memory section.
    pub fn display_label(self) -> (s: &'static str)
        ensures
            s@ == self.heading(),
    {
        match self {
            MemoryKind::Identity => "Self",
            MemoryKind::Other => "Other",
            MemoryKind::Procedure => "Procedure",
            MemoryKind::Open => "Open",
        }
    }
}

/// How far a memory is trusted.
#[derive(Clone, Copy, Debug, PartialEq, Eq, Hash, Structural)]
pub enum MemoryState {
    /// Operator-pinned, immutable to the agent.
    Core,
    /// Confirmed by independent signals.
    Validated,
    /// Default accepted.
    Held,
    /// Newly written, unverified.
    Tentative,
}

impl MemoryState {
    /// The wire label.
    pub open spec fn label(self) -> Seq<char> {
        match self {
            MemoryState::Core => "core"@,
            MemoryState::Validated => "validated"@,
            MemoryState::Held => "held"@,
            MemoryState::Tentative => "tentative"@,
        }
    }

    /// The wire label.
    pub fn as_str(self) -> (s: &'static str)
        ensures
            s@ == self.label(),
    {
        match self {
            MemoryState::Core => "core",
            MemoryState::Validated => "validated",
            MemoryState::Held => "held",
            MemoryState::Tentative => "tentative",
        }
    }

    /// Every variant, in declaration order.
    pub fn all() -> (v: Vec<MemoryState>)
        ensures
            v@ == seq![MemoryState::Core, MemoryState::Validated, MemoryState::Held, MemoryState::Tentative],
            forall|k: MemoryState| v@.contains(k),
    {
        let v = vec![MemoryState::Core, MemoryState::Validated, MemoryState::Held, MemoryState::Tentative];
        proof {
            assert(v@ =~= seq![MemoryState::Core, MemoryState::Validated, MemoryState::Held, MemoryState::Tentative]);
            assert forall|k: MemoryState| v@.contains(k) by {
                match k {
                    MemoryState::Core => assert(v@[0] == k),
                    MemoryState::Validated => assert(v@[1] == k),
                    MemoryState::Held => assert(v@[2] == k),
                    MemoryState::Tentative => assert(v@[3] == k),
                }
            }
        }
        v
    }

    /// The variant with the label `s`.
    pub fn parse(s: &str) -> (r: Option<MemoryState>)
        ensures
            match r {
                Some(k) => s@ == k.label(),
                None => forall|k: MemoryState| s@ != #[trigger] k.label(),
            },
    {
        if text_equal(s, "core") {
            Some(MemoryState::Core)
        } else if text_equal(s, "validated") {
            Some(MemoryState::Validated)
        } else if text_equal(s, "held") {
            Some(MemoryState::Held)
        } else if text_equal(s, "tentative") {
            Some(MemoryState::Tentative)
        } else {
            None
        }
    }

    /// No two variants share a label: what a label parses to is the variant
    /// that it labels.
    pub proof fn lemma_labels_distinct(a: MemoryState, b: MemoryState)
        ensures
            a.label() == b.label() ==> a == b,
    {
        reveal_strlit("core");
        reveal_strlit("validated");
        reveal_strlit("held");
        reveal_strlit("tentative");
        assert("core"@.len() != "validated"@.len());
        assert("core"@[0] != "held"@[0]);
        assert("core"@.len() != "tentative"@.len());
        assert("validated"@.len() != "held"@.len());
        assert("validated"@[0] != "tentative"@[0]);
        assert("held"@.len() != "tentative"@.len());
    }

    /// Rank of the state: the more trusted, the higher.
    pub open spec fn rank(self) -> int {
        match self {
            MemoryState::Core => 4,
            MemoryState::Validated => 3,
            MemoryState::Held => 2,
            MemoryState::Tentative => 1,
        }
    }

    /// Rank of the state: the more trusted, the higher.
    pub fn priority(self) -> (p: u8)
        ensures
            p == self.rank(),
    {
        match self {
            MemoryState::Core => 4,
            MemoryState::Validated => 3,
            MemoryState::Held => 2,
            MemoryState::Tentative => 1,
        }
    }
}

/// Where a memory mutation came from.
#[derive(Clone, Copy, Debug, PartialEq, Eq, Hash, Structural)]
pub enum MutationSourceKind {
    /// An agent's own turn.
    Turn,
    /// An operator.
    Operator,
    /// The librarian's sweep.
    Librarian,
}

impl MutationSourceKind {
    /// The wire label.
    pub open spec fn label(self) -> Seq<char> {
        match self {
            MutationSourceKind::Turn => "turn"@,
            MutationSourceKind::Operator => "operator"@,
            MutationSourceKind::Librarian => "librarian"@,
        }
    }

    /// The wire label.
    pub fn as_str(self) -> (s: &'static str)
        ensures
            s@ == self.label(),
    {
        match self {
            MutationSourceKind::Turn => "turn",
            MutationSourceKind::Operator => "operator",
            MutationSourceKind::Librarian => "librarian",
        }
    }

    /// Every variant, in declaration order.
    pub fn all() -> (v: Vec<MutationSourceKind>)
        ensures
            v@ == seq![MutationSourceKind::Turn, MutationSourceKind::Operator, MutationSourceKind::Librarian],
            forall|k: MutationSourceKind| v@.contains(k),
    {
        let v = vec![MutationSourceKind::Turn, MutationSourceKind::Operator, MutationSourceKind::Librarian];
        proof {
            assert(v@ =~= seq![MutationSourceKind::Turn, MutationSourceKind::Operator, MutationSourceKind::Librarian]);
            assert forall|k: MutationSourceKind| v@.contains(k) by {
                match k {
                    MutationSourceKind::Turn => assert(v@[0] == k),
                    MutationSourceKind::Operator => assert(v@[1] == k),
                    MutationSourceKind::Librarian => assert(v@[2] == k),
                }
            }
        }
        v
    }

    /// The variant with the label `s`.
    pub fn parse(s: &str) -> (r: Option<MutationSourceKind>)
        ensures
            match r {
                Some(k) => s@ == k.label(),
                None => forall|k: MutationSourceKind| s@ != #[trigger] k.label(),
            },
    {
        if text_equal(s, "turn") {
            Some(MutationSourceKind::Turn)
        } else if text_equal(s, "operator") {
            Some(MutationSourceKind::Operator)
        } else if text_equal(s, "librarian") {
            Some(MutationSourceKind::Librarian)
        } else {
            None
        }
    }

    /// No two variants share a label: what a label parses to is the variant
    /// that it labels.
    pub proof fn lemma_labels_distinct(a: MutationSourceKind, b: MutationSourceKind)
        ensures
            a.label() == b.label() ==> a == b,
    {
        reveal_strlit("turn");
        reveal_strlit("operator");
        reveal_strlit("librarian");
        assert("turn"@.len() != "operator"@.len());
        assert("turn"@.len() != "librarian"@.len());
        assert("operator"@.len() != "librarian"@.len());
    }
}

/// What a journal event did.
#[derive(Clone, Copy, Debug, PartialEq, Eq, Hash, Structural)]
pub enum MutationKind {
    /// Minted a memory.
    Write,
    /// Changed a memory.
    Update,
    /// Removed a memory.
    Forget,
}

impl MutationKind {
    /// The wire label.
    pub open spec fn label(self) -> Seq<char> {
        match self {
            MutationKind::Write => "write"@,
            MutationKind::Update => "update"@,
            MutationKind::Forget => "forget"@,
        }
    }

    /// The wire label.
    pub fn as_str(self) -> (s: &'static str)
        ensures
            s@ == self.label(),
    {
        match self {
            MutationKind::Write => "write",
            MutationKind::Update => "update",
            MutationKind::Forget => "forget",
        }
    }

    /// Every variant, in declaration order.
    pub fn all() -> (v: Vec<MutationKind>)
        ensures
            v@ == seq![MutationKind::Write, MutationKind::Update, MutationKind::Forget],
            forall|k: MutationKind| v@.contains(k),
    {
        let v = vec![MutationKind::Write, MutationKind::Update, MutationKind::Forget];
        proof {
            assert(v@ =~= seq![MutationKind::Write, MutationKind::Update, MutationKind::Forget]);
            assert forall|k: MutationKind| v@.contains(k) by {
                match k {
                    MutationKind::Write => assert(v@[0] == k),
                    MutationKind::Update => assert(v@[1] == k),
                    MutationKind::Forget => assert(v@[2] == k),
                }
            }
        }
        v
    }

    /// The variant with the label `s`.
    pub fn parse(s: &str) -> (r: Option<MutationKind>)
        ensures
            match r {
                Some(k) => s@ == k.label(),
                None => forall|k: MutationKind| s@ != #[trigger] k.label(),
            },
    {
        if text_equal(s, "write") {
            Some(MutationKind::Write)
        } else if text_equal(s, "update") {
            Some(MutationKind::Update)
        } else if text_equal(s, "forget") {
            Some(MutationKind::Forget)
        } else {
            None
        }
    }

    /// No two variants share a label: what a label parses to is the variant
    /// that it labels.
    pub proof fn lemma_labels_distinct(a: MutationKind, b: MutationKind)
        ensures
            a.label() == b.label() ==> a == b,
    {
        reveal_strlit("write");
        reveal_strlit("update");
        reveal_strlit("forget");
        assert("write"@.len() != "update"@.len());
        assert("write"@.len() != "forget"@.len());
        assert("update"@[0] != "forget"@[0]);
    }
}

/// Validated memory text: not blank, and at most [`MEMORY_CONTENT_MAX_BYTES`] long.
#[derive(Debug)]
pub struct MemoryContent {
    text: String,
}

impl View for MemoryContent {
    type V = Seq<char>;

    closed spec fn view(&self) -> Seq<char> {
        self.text@
    }
}

impl MemoryContent {
    /// What is wrong with `s` as a value of this type.
    pub open spec fn refusal(s: Seq<char>) -> Option<ParseError> {
        text_error(s, "memory_content", MEMORY_CONTENT_MAX_BYTES)
    }

    #[verifier::type_invariant]
    spec fn checked(self) -> bool {
        MemoryContent::refusal(self.text@) is None
    }

    /// The text.
    pub fn as_str(&self) -> (s: &str)
        ensures
            s@ == self@,
            MemoryContent::refusal(self@) is None,
    {
        proof {
            use_type_invariant(self);
        }
        self.text.as_str()
    }

    /// Length in bytes.
    pub fn len(&self) -> (n: usize)
        ensures
            n == utf8_len(self@),
            1 <= n <= MEMORY_CONTENT_MAX_BYTES,
    {
        proof {
            use_type_invariant(self);
            lemma_utf8_len_at_least_chars(self@);
        }
        byte_len(self.text.as_str())
    }

    /// Whether the text is empty, which memory text never is.
    pub fn is_empty(&self) -> (r: bool)
        ensures
            r == (self@.len() == 0),
            !r,
    {
        proof {
            use_type_invariant(self);
        }
        self.text.as_str().is_empty()
    }

    /// Takes the text as the content of a memory, as it is.
    pub fn from_string(raw: String) -> (r: Result<MemoryContent, ParseError>)
        ensures
            match r {
                Ok(v) => MemoryContent::refusal(raw@) is None && v.raw() == raw,
                Err(e) => MemoryContent::refusal(raw@) == Some(e),
            },
    {
        match check_text(raw.as_str(), "memory_content", MEMORY_CONTENT_MAX_BYTES) {
            Some(e) => Err(e),
            None => Ok(MemoryContent { text: raw }),
        }
    }

    /// The string that holds the text.
    pub closed spec fn raw(self) -> String {
        self.text
    }

    /// A copy of the string that holds the text.
    pub fn to_raw(&self) -> (s: String)
        ensures
            s == self.raw(),
            s@ == self@,
            MemoryContent::refusal(s@) is None,
    {
        proof {
            use_type_invariant(self);
        }
        self.text.clone()
    }

    /// Content is the string that holds it, and shows its characters.
    pub broadcast proof fn lemma_raw(a: MemoryContent, b: MemoryContent)
        ensures
            #![trigger a.raw(), b.raw()]
            a.raw() == b.raw() ==> a == b,
            a.raw()@ == a@,
    {
    }
}

impl Clone for MemoryContent {
    fn clone(&self) -> (r: MemoryContent)
        ensures
            r == *self,
    {
        proof {
            use_type_invariant(self);
        }
        MemoryContent { text: self.text.clone() }
    }
}

impl TryFrom<&str> for MemoryContent {
    type Error = ParseError;

    fn try_from(raw: &str) -> (r: Result<MemoryContent, ParseError>)
        ensures
            match r {
                Ok(v) => MemoryContent::refusal(raw@) is None && v@ == raw@,
                Err(e) => MemoryContent::refusal(raw@) == Some(e),
            },
    {
        match check_text(raw, "memory_content", MEMORY_CONTENT_MAX_BYTES) {
            Some(e) => Err(e),
            None => Ok(MemoryContent { text: raw.to_owned() }),
        }
    }
}

impl TryFromSpecImpl<&str> for MemoryContent {
    open spec fn obeys_try_from_spec() -> bool {
        false
    }

    open spec fn try_from_spec(v: &str) -> Result<MemoryContent, ParseError> {
        arbitrary()
    }
}

impl TryFrom<String> for MemoryContent {
    type Error = ParseError;

    fn try_from(raw: String) -> (r: Result<MemoryContent, ParseError>)
        ensures
            match r {
                Ok(v) => MemoryContent::refusal(raw@) is None && v@ == raw@,
                Err(e) => MemoryContent::refusal(raw@) == Some(e),
            },
    {
        MemoryContent::try_from(raw.as_str())
    }
}

impl TryFromSpecImpl<String> for MemoryContent {
    open spec fn obeys_try_from_spec() -> bool {
        false
    }

    open spec fn try_from_spec(v: String) -> Result<MemoryContent, ParseError> {
        arbitrary()
    }
}

/// Highest handle number.
pub const MEMORY_HANDLE_MAX: u32 = 9_999;

/// Short handle of a memory within one rendered section. Reads `M-<n>`.
#[derive(Clone, Copy, Debug, PartialEq, Eq, PartialOrd, Ord, Hash, Structural)]
pub struct MemoryHandle {
    n: u32,
}

impl View for MemoryHandle {
    type V = nat;

    closed spec fn view(&self) -> nat {
        self.n as nat
    }
}

/// A number that a handle can have.
pub open spec fn handle_range(n: int) -> bool {
    1 <= n <= MEMORY_HANDLE_MAX
}

/// The text of the handle with number `n`.
pub open spec fn handle_text(n: nat) -> Seq<char> {
    "M-"@ + decimal(n)
}

/// The number of the handle that `s` writes, or what is wrong with `s`. A handle is
/// written in one way: without a sign, and without leading zeros.
pub open spec fn handle_number(s: Seq<char>) -> Result<u32, ParseError> {
    if !"M-"@.is_prefix_of(s) {
        Err(ParseError::Malformed { field: "memory_handle", detail: "expected `M-<n>` form" })
    } else {
        match number_u32(s.skip(2)) {
            None => Err(
                ParseError::Malformed {
                    field: "memory_handle",
                    detail: "non-numeric handle suffix",
                },
            ),
            Some(n) => if s.skip(2) != decimal(n as nat) {
                Err(
                    ParseError::Malformed {
                        field: "memory_handle",
                        detail: "expected `M-<n>` form",
                    },
                )
            } else if handle_range(n as int) {
                Ok(n)
            } else {
                Err(ParseError::OutOfRange { field: "memory_handle", detail: "1..=9999" })
            },
        }
    }
}

impl MemoryHandle {
    #[verifier::type_invariant]
    spec fn in_range(self) -> bool {
        handle_range(self.n as int)
    }

    /// The number of the handle.
    pub fn get(self) -> (n: u32)
        ensures
            n == self@,
            handle_range(n as int),
    {
        proof {
            use_type_invariant(&self);
        }
        self.n
    }

    /// The handle as text.
    pub fn text(self) -> (s: String)
        ensures
            s@ == handle_text(self@),
    {
        let mut out = String::new();
        out.append("M-");
        push_decimal(&mut out, self.n as u64);
        proof {
            assert(out@ =~= handle_text(self@));
        }
        out
    }
}

/// The text of a handle reads back as the handle: no model that echoes it can
/// name another memory by it.
pub proof fn law_handle_round_trip(n: u32)
    requires
        handle_range(n as int),
    ensures
        handle_number(handle_text(n as nat)) == Ok::<u32, ParseError>(n),
{
    let s = handle_text(n as nat);
    reveal_strlit("M-");
    lemma_number_of_decimal(n);
    assert(s.subrange(0, 2) =~= "M-"@);
    assert(s.skip(2) =~= decimal(n as nat));
}

/// A handle is read without ambiguity: only its own text is taken for it, so that
/// no two texts name one handle.
pub proof fn law_handle_form_is_canonical(s: Seq<char>)
    ensures
        handle_number(s) matches Ok(n) ==> handle_range(n as int) && s == handle_text(n as nat),
{
    reveal_strlit("M-");
    if handle_number(s) is Ok {
        assert(s =~= s.take(2) + s.skip(2));
        assert(s.take(2) =~= "M-"@);
    }
}

impl TryFrom<u32> for MemoryHandle {
    type Error = ParseError;

    fn try_from(n: u32) -> (r: Result<MemoryHandle, ParseError>)
        ensures
            match r {
                Ok(h) => handle_range(n as int) && h@ == n,
                Err(e) => !handle_range(n as int) && e == (ParseError::OutOfRange {
                    field: "memory_handle",
                    detail: "1..=9999",
                }),
            },
    {
        if n == 0 || n > MEMORY_HANDLE_MAX {
            return Err(ParseError::OutOfRange { field: "memory_handle", detail: "1..=9999" });
        }
        Ok(MemoryHandle { n })
    }
}

impl TryFromSpecImpl<u32> for MemoryHandle {
    open spec fn obeys_try_from_spec() -> bool {
        false
    }

    open spec fn try_from_spec(v: u32) -> Result<MemoryHandle, ParseError> {
        arbitrary()
    }
}

impl TryFrom<&str> for MemoryHandle {
    type Error = ParseError;

    fn try_from(raw: &str) -> (r: Result<MemoryHandle, ParseError>)
        ensures
            match r {
                Ok(h) => handle_number(raw@) == Ok::<u32, ParseError>(h@ as u32),
                Err(e) => handle_number(raw@) == Err::<u32, ParseError>(e),
            },
    {
        if !starts_with_text(raw, "M-") {
            return Err(
                ParseError::Malformed { field: "memory_handle", detail: "expected `M-<n>` form" },
            );
        }
        let v = chars_of(raw);
        proof {
            reveal_strlit("M-");
            assert(raw@.subrange(2, raw@.len() as int) =~= raw@.skip(2));
        }
        let digits = text_of(&v, 2, v.len());
        match parse_u32(digits.as_str()) {
            Some(n) => {
                let mut canonical = String::new();
                push_decimal(&mut canonical, n as u64);
                proof {
                    assert(canonical@ =~= decimal(n as nat));
                }
                if !text_equal(digits.as_str(), canonical.as_str()) {
                    return Err(
                        ParseError::Malformed {
                            field: "memory_handle",
                            detail: "expected `M-<n>` form",
                        },
                    );
                }
                MemoryHandle::try_from(n)
            },
            None => Err(
                ParseError::Malformed {
                    field: "memory_handle",
                    detail: "non-numeric handle suffix",
                },
            ),
        }
    }
}

impl TryFromSpecImpl<&str> for MemoryHandle {
    open spec fn obeys_try_from_spec() -> bool {
        false
    }

    open spec fn try_from_spec(v: &str) -> Result<MemoryHandle, ParseError> {
        arbitrary()
    }
}

/// A memory says something, in at most four KiB.
pub proof fn law_memories_have_their_limit(s: Seq<char>)
    ensures
        MemoryContent::refusal(s) is None <==> !blank(s) && utf8_len(s) <= 4_096,
{
    if s.len() == 0 {
        assert(blank(s));
    }
}

/// States are ranked by trust: a core memory above a validated one, that above a held one,
/// and a tentative one last.
pub proof fn law_states_are_ranked_by_trust(a: MemoryState, b: MemoryState)
    ensures
        a.rank() == b.rank() <==> a == b,
        a is Core ==> b.rank() <= a.rank(),
        a is Tentative ==> a.rank() <= b.rank(),
        a is Validated && b is Held ==> a.rank() > b.rank(),
{
}

/// On the wire each kind of memory goes by a name of its own.
pub proof fn law_memory_kind_goes_by_its_name(x: MemoryKind)
    ensures
        x.label() == "self"@ <==> x is Identity,
        x.label() == "other"@ <==> x is Other,
        x.label() == "procedure"@ <==> x is Procedure,
        x.label() == "open"@ <==> x is Open,
{
    MemoryKind::lemma_labels_distinct(x, MemoryKind::Identity);
    MemoryKind::lemma_labels_distinct(x, MemoryKind::Other);
    MemoryKind::lemma_labels_distinct(x, MemoryKind::Procedure);
    MemoryKind::lemma_labels_distinct(x, MemoryKind::Open);
}

/// On the wire each state of a memory goes by a name of its own.
pub proof fn law_memory_state_goes_by_its_name(x: MemoryState)
    ensures
        x.label() == "core"@ <==> x is Core,
        x.label() == "validated"@ <==> x is Validated,
        x.label() == "held"@ <==> x is Held,
        x.label() == "tentative"@ <==> x is Tentative,
{
    MemoryState::lemma_labels_distinct(x, MemoryState::Core);
    MemoryState::lemma_labels_distinct(x, MemoryState::Validated);
    MemoryState::lemma_labels_distinct(x, MemoryState::Held);
    MemoryState::lemma_labels_distinct(x, MemoryState::Tentative);
}

/// On the wire each kind of source goes by a name of its own.
pub proof fn law_mutation_source_kind_goes_by_its_name(x: MutationSourceKind)
    ensures
        x.label() == "turn"@ <==> x is Turn,
        x.label() == "operator"@ <==> x is Operator,
        x.label() == "librarian"@ <==> x is Librarian,
{
    MutationSourceKind::lemma_labels_distinct(x, MutationSourceKind::Turn);
    MutationSourceKind::lemma_labels_distinct(x, MutationSourceKind::Operator);
    MutationSourceKind::lemma_labels_distinct(x, MutationSourceKind::Librarian);
}

/// On the wire each kind of mutation goes by a name of its own.
pub proof fn law_mutation_kind_goes_by_its_name(x: MutationKind)
    ensures
        x.label() == "write"@ <==> x is Write,
        x.label() == "update"@ <==> x is Update,
        x.label() == "forget"@ <==> x is Forget,
{
    MutationKind::lemma_labels_distinct(x, MutationKind::Write);
    MutationKind::lemma_labels_distinct(x, MutationKind::Update);
    MutationKind::lemma_labels_distinct(x, MutationKind::Forget);
}

} // verus!
