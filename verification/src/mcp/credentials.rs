//! Secrets of MCP servers.
//!
//! A payload is encoded and sealed before it is stored, and opened only to
//! connect. Sealing and opening take place outside; what is decided before and
//! after them stands here.

use crate::crypto::{nonce_of, EncryptedBlob, NONCE_BYTES};
use crate::ids::{McpServerId, OrgId};
use crate::mcp::error::McpError;
use crate::mcp::types::{McpHeaderName, McpHeaderValue};
use crate::text::{decimal, text2, text4, text_equal, text_number};
use crate::time::Timestamp;
use vstd::prelude::*;

verus! {

/// Maximum bytes of an encoded payload.
pub const MAX_CREDENTIAL_PLAINTEXT: usize = 65536;

/// What a list of headers maps each name to. Names that come later win.
pub open spec fn header_map(entries: Seq<(McpHeaderName, McpHeaderValue)>) -> Map<
    Seq<char>,
    Seq<char>,
>
    decreases entries.len(),
{
    if entries.len() == 0 {
        Map::empty()
    } else {
        header_map(entries.drop_last()).insert(entries.last().0@, entries.last().1@)
    }
}

/// No two headers share a name.
pub open spec fn distinct_names(entries: Seq<(McpHeaderName, McpHeaderValue)>) -> bool {
    forall|i: int, j: int|
        0 <= i < j < entries.len() ==> (#[trigger] entries[i]).0@ != (#[trigger] entries[j]).0@
}

/// The names of the map are those of the list.
proof fn lemma_header_names(entries: Seq<(McpHeaderName, McpHeaderValue)>, name: Seq<char>)
    ensures
        header_map(entries).contains_key(name) <==> exists|i: int|
            0 <= i < entries.len() && (#[trigger] entries[i]).0@ == name,
    decreases entries.len(),
{
    if entries.len() > 0 {
        let rest = entries.drop_last();
        lemma_header_names(rest, name);
        if entries.last().0@ == name {
            assert(entries[entries.len() - 1].0@ == name);
        }
        if header_map(rest).contains_key(name) {
            let i = choose|i: int| 0 <= i < rest.len() && (#[trigger] rest[i]).0@ == name;
            assert(entries[i].0@ == name);
        }
        if exists|i: int| 0 <= i < entries.len() && (#[trigger] entries[i]).0@ == name {
            let i = choose|i: int| 0 <= i < entries.len() && (#[trigger] entries[i]).0@ == name;
            if i < rest.len() {
                assert(rest[i].0@ == name);
            }
        }
    }
}

/// Each header of a list without repeated names is in the map.
proof fn lemma_header_at(entries: Seq<(McpHeaderName, McpHeaderValue)>, i: int)
    requires
        distinct_names(entries),
        0 <= i < entries.len(),
    ensures
        header_map(entries).contains_key(entries[i].0@),
        header_map(entries)[entries[i].0@] == entries[i].1@,
    decreases entries.len(),
{
    let rest = entries.drop_last();
    if i < rest.len() {
        assert(distinct_names(rest)) by {
            assert forall|a: int, b: int| 0 <= a < b < rest.len() implies (#[trigger] rest[a]).0@ != (
            #[trigger] rest[b]).0@ by {
                assert(entries[a].0@ != entries[b].0@);
            }
        }
        lemma_header_at(rest, i);
        assert(rest[i] == entries[i]);
        assert(entries[i].0@ != entries[entries.len() - 1].0@);
    }
}

/// To replace the value of a header in the list is to replace it in the map.
proof fn lemma_header_replaced(
    entries: Seq<(McpHeaderName, McpHeaderValue)>,
    i: int,
    e: (McpHeaderName, McpHeaderValue),
)
    requires
        distinct_names(entries),
        0 <= i < entries.len(),
        e.0@ == entries[i].0@,
    ensures
        header_map(entries.update(i, e)) == header_map(entries).insert(e.0@, e.1@),
        distinct_names(entries.update(i, e)),
    decreases entries.len(),
{
    let after = entries.update(i, e);
    assert forall|a: int, b: int| 0 <= a < b < after.len() implies (#[trigger] after[a]).0@ != (
    #[trigger] after[b]).0@ by {
        assert(entries[a].0@ != entries[b].0@);
    }
    let rest = entries.drop_last();
    if i < rest.len() {
        assert(distinct_names(rest)) by {
            assert forall|a: int, b: int| 0 <= a < b < rest.len() implies (#[trigger] rest[a]).0@ != (
            #[trigger] rest[b]).0@ by {
                assert(entries[a].0@ != entries[b].0@);
            }
        }
        lemma_header_replaced(rest, i, e);
        assert(after.drop_last() =~= rest.update(i, e));
        assert(after.last() == entries.last());
        assert(entries[i].0@ != entries[entries.len() - 1].0@);
        assert(header_map(after) =~= header_map(entries).insert(e.0@, e.1@));
    } else {
        assert(after.drop_last() =~= rest);
        assert(header_map(after) =~= header_map(entries).insert(e.0@, e.1@));
    }
}

/// Custom headers, one value for each name.
#[derive(Debug)]
pub struct McpHeaders {
    entries: Vec<(McpHeaderName, McpHeaderValue)>,
}

impl View for McpHeaders {
    type V = Map<Seq<char>, Seq<char>>;

    closed spec fn view(&self) -> Map<Seq<char>, Seq<char>> {
        header_map(self.entries@)
    }
}

impl McpHeaders {
    #[verifier::type_invariant]
    spec fn distinct(self) -> bool {
        distinct_names(self.entries@)
    }

    /// The headers in the order in which their names first came.
    pub closed spec fn list(self) -> Seq<(McpHeaderName, McpHeaderValue)> {
        self.entries@
    }

    /// No headers.
    pub fn new() -> (h: McpHeaders)
        ensures
            h@ == Map::<Seq<char>, Seq<char>>::empty(),
    {
        McpHeaders { entries: Vec::new() }
    }

    fn position(&self, name: &str) -> (r: Option<usize>)
        ensures
            match r {
                Some(i) => i < self.entries@.len() && self.entries@[i as int].0@ == name@,
                None => forall|j: int|
                    0 <= j < self.entries@.len() ==> (#[trigger] self.entries@[j]).0@ != name@,
            },
    {
        let mut i: usize = 0;
        while i < self.entries.len()
            invariant
                i <= self.entries@.len(),
                forall|j: int| 0 <= j < i ==> (#[trigger] self.entries@[j]).0@ != name@,
            decreases self.entries.len() - i,
        {
            if text_equal(self.entries[i].0.as_str(), name) {
                return Some(i);
            }
            i += 1;
        }
        None
    }

    /// Sets the value of the header `name`.
    pub fn insert(&mut self, name: McpHeaderName, value: McpHeaderValue)
        ensures
            final(self)@ == old(self)@.insert(name@, value@),
    {
        proof {
            use_type_invariant(&*self);
        }
        let at = self.position(name.as_str());
        let mut entries: Vec<(McpHeaderName, McpHeaderValue)> = Vec::new();
        std::mem::swap(&mut entries, &mut self.entries);
        let ghost before = entries@;
        match at {
            Some(i) => {
                proof {
                    lemma_header_replaced(before, i as int, (name, value));
                }
                entries.set(i, (name, value));
            },
            None => {
                entries.push((name, value));
                proof {
                    assert(entries@.drop_last() =~= before);
                    assert forall|a: int, b: int| 0 <= a < b < entries@.len() implies (
                    #[trigger] entries@[a]).0@ != (#[trigger] entries@[b]).0@ by {
                        if b < before.len() {
                            assert(before[a].0@ != before[b].0@);
                        } else {
                            assert(before[a].0@ != name@);
                        }
                    }
                }
            },
        }
        self.entries = entries;
    }

    /// The value of the header `name`.
    pub fn get(&self, name: &McpHeaderName) -> (r: Option<&McpHeaderValue>)
        ensures
            match r {
                Some(v) => self@.contains_key(name@) && v@ == self@[name@],
                None => !self@.contains_key(name@),
            },
    {
        proof {
            use_type_invariant(self);
            lemma_header_names(self.entries@, name@);
        }
        match self.position(name.as_str()) {
            Some(i) => {
                proof {
                    lemma_header_at(self.entries@, i as int);
                }
                Some(&self.entries[i].1)
            },
            None => None,
        }
    }

    /// How many headers there are.
    pub fn len(&self) -> (n: usize)
        ensures
            n == self.list().len(),
    {
        self.entries.len()
    }

    /// The header at position `i` of [`McpHeaders::list`].
    pub fn at(&self, i: usize) -> (e: &(McpHeaderName, McpHeaderValue))
        requires
            i < self.list().len(),
        ensures
            *e == self.list()[i as int],
            self@.contains_key(e.0@),
            self@[e.0@] == e.1@,
    {
        proof {
            use_type_invariant(self);
            lemma_header_at(self.entries@, i as int);
        }
        &self.entries[i]
    }
}

/// Tokens that an authorization server issued.
#[derive(Debug)]
pub struct OAuth2Payload {
    pub access_token: String,
    pub refresh_token: Option<String>,
    pub expires_at: Timestamp,
    pub scope: Option<String>,
    pub issuer: String,
    pub token_endpoint: String,
}

/// The secrets of one server.
#[derive(Debug)]
pub enum CredentialPayload {
    /// Headers that go with every request to the server.
    StaticHeaders { headers: McpHeaders },
    /// Tokens of an OAuth flow.
    Oauth2(OAuth2Payload),
}

impl CredentialPayload {
    /// The label of the kind of payload.
    pub open spec fn kind(self) -> Seq<char> {
        match self {
            CredentialPayload::StaticHeaders { .. } => "static_headers"@,
            CredentialPayload::Oauth2(_) => "oauth2"@,
        }
    }

    /// The label of the kind of payload, as the tables hold it.
    pub fn kind_label(&self) -> (s: &'static str)
        ensures
            s@ == self.kind(),
    {
        match self {
            CredentialPayload::StaticHeaders { .. } => "static_headers",
            CredentialPayload::Oauth2(_) => "oauth2",
        }
    }
}

/// Credentials to store for a server.
#[derive(Debug)]
pub struct McpCredentialWrite {
    pub server_id: McpServerId,
    pub org_id: OrgId,
    pub payload: CredentialPayload,
}

/// The opened credentials of a server.
#[derive(Debug)]
pub struct McpCredentialRecord {
    pub server_id: McpServerId,
    pub org_id: OrgId,
    pub payload: CredentialPayload,
}

/// Decides what of an encoded payload is sealed, and under which label: the
/// encoding as it is, unless it is too long or there is none.
pub fn seal_payload(payload: &CredentialPayload, encoded: Result<Vec<u8>, String>) -> (r: Result<
    (String, Vec<u8>),
    McpError,
>)
    ensures
        match encoded {
            Err(detail) => r matches Err(McpError::Backend(s)) && s@ == "encode credential: "@
                + detail@,
            Ok(bytes) => if bytes@.len() > MAX_CREDENTIAL_PLAINTEXT {
                r matches Err(McpError::InvalidConfig(s)) && s@ == "credential payload exceeds "@
                    + decimal(MAX_CREDENTIAL_PLAINTEXT as nat) + " bytes"@
            } else {
                r matches Ok((kind, plain)) && kind@ == payload.kind() && plain == bytes
            },
        },
{
    match encoded {
        Err(detail) => Err(McpError::Backend(text2("encode credential: ", detail.as_str()))),
        Ok(bytes) => {
            if bytes.len() > MAX_CREDENTIAL_PLAINTEXT {
                return Err(
                    McpError::InvalidConfig(
                        text_number("credential payload exceeds ", MAX_CREDENTIAL_PLAINTEXT, " bytes"),
                    ),
                );
            }
            Ok((payload.kind_label().to_owned(), bytes))
        },
    }
}

/// What opening a payload that is stored as `kind` comes to, once it was
/// decoded.
pub open spec fn opening(
    kind: Seq<char>,
    decoded: Result<CredentialPayload, String>,
    r: Result<CredentialPayload, McpError>,
) -> bool {
    match decoded {
        Err(detail) => r matches Err(McpError::Backend(s)) && s@ == "decode credential: "@ + detail@,
        Ok(payload) => if payload.kind() == kind {
            r == Ok::<CredentialPayload, McpError>(payload)
        } else {
            r matches Err(McpError::Backend(s)) && s@ == "credential kind/"@ + kind
                + " mismatches payload/"@ + payload.kind()
        },
    }
}

/// Takes a decoded payload that is stored as `kind`: it must be of that kind.
pub fn open_payload(kind: &str, decoded: Result<CredentialPayload, String>) -> (r: Result<
    CredentialPayload,
    McpError,
>)
    ensures
        opening(kind@, decoded, r),
{
    match decoded {
        Err(detail) => Err(McpError::Backend(text2("decode credential: ", detail.as_str()))),
        Ok(payload) => {
            if !text_equal(payload.kind_label(), kind) {
                return Err(
                    McpError::Backend(
                        text4(
                            "credential kind/",
                            kind,
                            " mismatches payload/",
                            payload.kind_label(),
                        ),
                    ),
                );
            }
            Ok(payload)
        },
    }
}

/// A row of the table of credentials.
#[derive(Debug)]
pub struct CredentialRow {
    pub server_id: McpServerId,
    pub org_id: OrgId,
    pub kind: String,
    pub ciphertext: Vec<u8>,
    pub nonce: Vec<u8>,
    pub key_version: i16,
}

impl CredentialRow {
    /// What a blob of the row is.
    pub open spec fn seals(self, blob: EncryptedBlob) -> bool {
        &&& blob.key_version == self.key_version
        &&& blob.nonce@ == self.nonce@
        &&& blob.ciphertext@ == self.ciphertext@
    }

    /// The blob to open.
    pub fn blob(&self) -> (r: Result<EncryptedBlob, McpError>)
        ensures
            if self.nonce@.len() == NONCE_BYTES {
                r matches Ok(blob) && self.seals(blob)
            } else {
                r matches Err(McpError::Backend(s)) && s@ == "credential nonce: wrong byte length"@
            },
    {
        match nonce_of(&self.nonce) {
            None => Err(McpError::Backend("credential nonce: wrong byte length".to_owned())),
            Some(nonce) => Ok(
                EncryptedBlob {
                    key_version: self.key_version,
                    nonce,
                    ciphertext: self.ciphertext.clone(),
                },
            ),
        }
    }

    /// The record of the row, once its blob was opened and decoded.
    pub fn into_record(self, decoded: Result<CredentialPayload, String>) -> (r: Result<
        McpCredentialRecord,
        McpError,
    >)
        ensures
            match r {
                Ok(rec) => {
                    &&& rec.server_id == self.server_id
                    &&& rec.org_id == self.org_id
                    &&& opening(self.kind@, decoded, Ok(rec.payload))
                },
                Err(e) => opening(self.kind@, decoded, Err(e)),
            },
    {
        match open_payload(self.kind.as_str(), decoded) {
            Ok(payload) => Ok(
                McpCredentialRecord { server_id: self.server_id, org_id: self.org_id, payload },
            ),
            Err(e) => Err(e),
        }
    }
}

/// What was sealed is opened again under its own label, and under no other.
pub proof fn law_payload_opens_under_its_label(
    payload: CredentialPayload,
    kind: Seq<char>,
    r: Result<CredentialPayload, McpError>,
)
    requires
        opening(kind, Ok(payload), r),
    ensures
        kind == payload.kind() <==> r is Ok,
        r matches Ok(p) ==> p == payload,
        r matches Err(e) ==> e is Backend,
{
}

/// A header that is set has the value that it was last set to, and every other stays.
pub proof fn law_last_value_of_a_header_counts(
    entries: Seq<(McpHeaderName, McpHeaderValue)>,
    e: (McpHeaderName, McpHeaderValue),
    other: Seq<char>,
)
    ensures
        header_map(entries.push(e)).contains_key(e.0@),
        header_map(entries.push(e))[e.0@] == e.1@,
        other != e.0@ ==> (header_map(entries.push(e)).contains_key(other) <==> header_map(
            entries,
        ).contains_key(other)),
        other != e.0@ && header_map(entries).contains_key(other) ==> header_map(
            entries.push(e),
        )[other] == header_map(entries)[other],
{
    assert(entries.push(e).drop_last() =~= entries);
}

/// The two kinds of credentials are stored under different labels.
pub proof fn law_kinds_are_told_apart(a: CredentialPayload, b: CredentialPayload)
    ensures
        a.kind() == b.kind() <==> (a is Oauth2 <==> b is Oauth2),
        a is Oauth2 ==> a.kind() == "oauth2"@,
        a is StaticHeaders ==> a.kind() == "static_headers"@,
{
    reveal_strlit("static_headers");
    reveal_strlit("oauth2");
    assert("static_headers"@.len() != "oauth2"@.len());
}

} // verus!
