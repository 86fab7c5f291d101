//! Identifiers: 128-bit values that read as UUIDs.

use crate::text::{lemma_ascii_len, utf8_len};
use vstd::arithmetic::div_mod::{lemma_basic_div, lemma_div_denominator};
use vstd::arithmetic::power::{lemma_pow0, lemma_pow1, lemma_pow_adds, lemma_pow_positive, pow};
use vstd::prelude::*;

verus! {

/// The character of a hexadecimal digit, small letters.
pub open spec fn hex_char(d: nat) -> char {
    if d < 10 {
        ('0' as u32 + d) as char
    } else {
        ('a' as u32 + (d - 10)) as char
    }
}

/// The 32 hexadecimal digits of `id`, most significant first.
pub open spec fn hex_digits(id: u128) -> Seq<char> {
    Seq::new(32, |i: int| hex_char((id as int / pow(16, (31 - i) as nat) % 16) as nat))
}

/// `id` in the hyphenated form of a UUID: groups of 8, 4, 4, 4 and 12 digits.
pub open spec fn uuid_text(id: u128) -> Seq<char> {
    let h = hex_digits(id);
    h.subrange(0, 8) + seq!['-'] + h.subrange(8, 12) + seq!['-'] + h.subrange(12, 16) + seq!['-']
        + h.subrange(16, 20) + seq!['-'] + h.subrange(20, 32)
}

/// The text of an identifier is 36 ASCII characters.
pub proof fn lemma_uuid_text(id: u128)
    ensures
        uuid_text(id).len() == 36,
        forall|i: int| 0 <= i < 36 ==> (#[trigger] uuid_text(id)[i] as u32) < 0x80,
        utf8_len(uuid_text(id)) == 36,
{
    let h = hex_digits(id);
    assert forall|i: int| 0 <= i < 32 implies (#[trigger] h[i] as u32) < 0x80 by {
        let d = (id as int / pow(16, (31 - i) as nat) % 16) as nat;
        assert(d < 16);
    }
    assert forall|i: int| 0 <= i < 36 implies (#[trigger] uuid_text(id)[i] as u32) < 0x80 by {
        if i < 8 {
            assert(uuid_text(id)[i] == h[i]);
        } else if 8 < i < 13 {
            assert(uuid_text(id)[i] == h[i - 1]);
        } else if 13 < i < 18 {
            assert(uuid_text(id)[i] == h[i - 2]);
        } else if 18 < i < 23 {
            assert(uuid_text(id)[i] == h[i - 3]);
        } else if 23 < i {
            assert(uuid_text(id)[i] == h[i - 4]);
        } else {
            assert(uuid_text(id)[i] == '-');
        }
    }
    lemma_ascii_len(uuid_text(id));
}

proof fn lemma_top_digits(a: u128, b: u128, k: nat)
    requires
        k <= 32,
        forall|i: int| 0 <= i < 32 ==> #[trigger] hex_digits(a)[i] == hex_digits(b)[i],
    ensures
        a as int / pow(16, (32 - k) as nat) == b as int / pow(16, (32 - k) as nat),
    decreases k,
{
    let j = (32 - k) as nat;
    lemma_pow_positive(16, j);
    if k == 0 {
        assert(pow(16, 32) == 0x1_0000_0000_0000_0000_0000_0000_0000_0000) by {
            reveal(pow);
            assert(pow(16, 4) == 0x1_0000) by {
                reveal_with_fuel(pow, 5);
            }
            lemma_pow_adds(16, 4, 4);
            assert(pow(16, 8) == 0x1_0000 * 0x1_0000);
            lemma_pow_adds(16, 8, 8);
            assert(pow(16, 16) == 0x1_0000_0000 * 0x1_0000_0000);
            lemma_pow_adds(16, 16, 16);
            assert(pow(16, 32) == 0x1_0000_0000_0000_0000 * 0x1_0000_0000_0000_0000);
        }
        lemma_basic_div(a as int, pow(16, 32));
        lemma_basic_div(b as int, pow(16, 32));
    } else {
        lemma_top_digits(a, b, (k - 1) as nat);
        let i = (31 - j) as int;
        let x = a as int / pow(16, j);
        let y = b as int / pow(16, j);
        lemma_pow_adds(16, j, 1);
        lemma_pow1(16);
        lemma_div_denominator(a as int, pow(16, j), 16);
        lemma_div_denominator(b as int, pow(16, j), 16);
        assert(x / 16 == y / 16);
        assert(hex_digits(a)[i] == hex_char((x % 16) as nat));
        assert(hex_digits(b)[i] == hex_char((y % 16) as nat));
        assert(x % 16 == y % 16) by {
            let d = (x % 16) as nat;
            let e = (y % 16) as nat;
            assert(d < 16 && e < 16);
            assert(hex_char(d) == hex_char(e));
        }
    }
}

/// Identifiers read apart: two that read alike are the same.
pub proof fn law_identifiers_read_apart(a: u128, b: u128)
    requires
        uuid_text(a) == uuid_text(b),
    ensures
        a == b,
{
    let g = hex_digits(a);
    let h = hex_digits(b);
    let s = uuid_text(a);
    let t = uuid_text(b);
    assert forall|i: int| 0 <= i < 32 implies #[trigger] g[i] == h[i] by {
        if i < 8 {
            assert(s[i] == g[i] && t[i] == h[i]);
        } else if i < 12 {
            assert(s[i + 1] == g[i] && t[i + 1] == h[i]);
        } else if i < 16 {
            assert(s[i + 2] == g[i] && t[i + 2] == h[i]);
        } else if i < 20 {
            assert(s[i + 3] == g[i] && t[i + 3] == h[i]);
        } else {
            assert(s[i + 4] == g[i] && t[i + 4] == h[i]);
        }
    }
    lemma_top_digits(a, b, 32);
    lemma_pow0(16);
    assert(a as int / 1 == a as int && b as int / 1 == b as int);
}

/// `uuid::Uuid::new_v4`: a random identifier. Nothing is known of its value.
#[verifier::external_body]
fn random_uuid() -> u128 {
    uuid::Uuid::new_v4().as_u128()
}

/// `uuid::Uuid`'s `Display`: the hyphenated form, in small letters, of the
/// identifier with these 128 bits.
#[verifier::external_body]
fn hyphenated(id: u128) -> (s: String)
    ensures
        s@ == uuid_text(id),
{
    uuid::Uuid::from_u128(id).to_string()
}

/// Identifier of a row of the memory table.
#[derive(Clone, Copy, Debug, PartialEq, Eq, PartialOrd, Ord, Hash, Structural)]
pub struct MemoryId(pub u128);

impl MemoryId {
    /// A fresh random identifier.
    pub fn new() -> MemoryId {
        MemoryId(random_uuid())
    }

    /// The identifier in hyphenated form.
    pub fn text(self) -> (s: String)
        ensures
            s@ == uuid_text(self.0),
    {
        hyphenated(self.0)
    }
}

/// Identifier of a journal event: every mutation appends one.
#[derive(Clone, Copy, Debug, PartialEq, Eq, PartialOrd, Ord, Hash, Structural)]
pub struct MemoryEventId(pub u128);

impl MemoryEventId {
    /// A fresh random identifier.
    pub fn new() -> MemoryEventId {
        MemoryEventId(random_uuid())
    }

    /// The identifier in hyphenated form.
    pub fn text(self) -> (s: String)
        ensures
            s@ == uuid_text(self.0),
    {
        hyphenated(self.0)
    }
}

/// Identifier of a flagged contradiction between two memories.
#[derive(Clone, Copy, Debug, PartialEq, Eq, PartialOrd, Ord, Hash, Structural)]
pub struct ContradictionEventId(pub u128);

impl ContradictionEventId {
    /// A fresh random identifier.
    pub fn new() -> ContradictionEventId {
        ContradictionEventId(random_uuid())
    }

    /// The identifier in hyphenated form.
    pub fn text(self) -> (s: String)
        ensures
            s@ == uuid_text(self.0),
    {
        hyphenated(self.0)
    }
}

/// Identifier of a recorded validation.
#[derive(Clone, Copy, Debug, PartialEq, Eq, PartialOrd, Ord, Hash, Structural)]
pub struct ValidationEventId(pub u128);

impl ValidationEventId {
    /// A fresh random identifier.
    pub fn new() -> ValidationEventId {
        ValidationEventId(random_uuid())
    }

    /// The identifier in hyphenated form.
    pub fn text(self) -> (s: String)
        ensures
            s@ == uuid_text(self.0),
    {
        hyphenated(self.0)
    }
}

/// Identifier of an agent.
#[derive(Clone, Copy, Debug, PartialEq, Eq, PartialOrd, Ord, Hash, Structural)]
pub struct AgentId(pub u128);

impl AgentId {
    /// A fresh random identifier.
    pub fn new() -> AgentId {
        AgentId(random_uuid())
    }

    /// The identifier in hyphenated form.
    pub fn text(self) -> (s: String)
        ensures
            s@ == uuid_text(self.0),
    {
        hyphenated(self.0)
    }
}

/// Identifier of an organisation, the tenant that owns agents and servers.
#[derive(Clone, Copy, Debug, PartialEq, Eq, PartialOrd, Ord, Hash, Structural)]
pub struct OrgId(pub u128);

impl OrgId {
    /// A fresh random identifier.
    pub fn new() -> OrgId {
        OrgId(random_uuid())
    }

    /// The identifier in hyphenated form.
    pub fn text(self) -> (s: String)
        ensures
            s@ == uuid_text(self.0),
    {
        hyphenated(self.0)
    }
}

/// Identifier of a user.
#[derive(Clone, Copy, Debug, PartialEq, Eq, PartialOrd, Ord, Hash, Structural)]
pub struct UserId(pub u128);

impl UserId {
    /// A fresh random identifier.
    pub fn new() -> UserId {
        UserId(random_uuid())
    }

    /// The identifier in hyphenated form.
    pub fn text(self) -> (s: String)
        ensures
            s@ == uuid_text(self.0),
    {
        hyphenated(self.0)
    }
}

/// Identifier of a conversation session.
#[derive(Clone, Copy, Debug, PartialEq, Eq, PartialOrd, Ord, Hash, Structural)]
pub struct SessionId(pub u128);

impl SessionId {
    /// A fresh random identifier.
    pub fn new() -> SessionId {
        SessionId(random_uuid())
    }

    /// The identifier in hyphenated form.
    pub fn text(self) -> (s: String)
        ensures
            s@ == uuid_text(self.0),
    {
        hyphenated(self.0)
    }
}

/// Identifier of a prompt request: one turn of an agent.
#[derive(Clone, Copy, Debug, PartialEq, Eq, PartialOrd, Ord, Hash, Structural)]
pub struct PromptRequestId(pub u128);

impl PromptRequestId {
    /// A fresh random identifier.
    pub fn new() -> PromptRequestId {
        PromptRequestId(random_uuid())
    }

    /// The identifier in hyphenated form.
    pub fn text(self) -> (s: String)
        ensures
            s@ == uuid_text(self.0),
    {
        hyphenated(self.0)
    }
}

/// Identifier of a registered MCP server.
#[derive(Clone, Copy, Debug, PartialEq, Eq, PartialOrd, Ord, Hash, Structural)]
pub struct McpServerId(pub u128);

impl McpServerId {
    /// A fresh random identifier.
    pub fn new() -> McpServerId {
        McpServerId(random_uuid())
    }

    /// The identifier in hyphenated form.
    pub fn text(self) -> (s: String)
        ensures
            s@ == uuid_text(self.0),
    {
        hyphenated(self.0)
    }
}

} // verus!
