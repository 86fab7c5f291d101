//! Values of the MCP subsystem, parsed once.

use crate::ids::{McpServerId, OrgId, UserId};
use crate::mcp::limits::{
    MCP_ALIAS_MAX_LEN, MCP_DESCRIPTION_MAX_LEN, MCP_HEADER_NAME_MAX_LEN, MCP_HEADER_VALUE_MAX_LEN,
    MCP_URL_MAX_LEN,
};
use crate::text::{
    ascii_lower, ascii_lowercase, byte_len, chars_of, lemma_ascii_len, lowercase_chars, text_equal,
    text_of, utf8_len,
};
use crate::time::Timestamp;
use crate::types::{check_length, length_error, ParseError, TOOL_NAME_MAX_CHARS};
use crate::web_url::{parse_url, parsed_url, UrlParts};
use vstd::prelude::*;
use vstd::std_specs::convert::TryFromSpecImpl;

verus! {

/// A character that an alias may hold: a small ASCII letter, a digit, `_` or
/// `-`.
pub open spec fn alias_char(c: char) -> bool {
    ||| 'a' as u32 <= c as u32 <= 'z' as u32
    ||| '0' as u32 <= c as u32 <= '9' as u32
    ||| c == '_'
    ||| c == '-'
}

fn is_alias_char(c: char) -> (r: bool)
    ensures
        r == alias_char(c),
{
    let n: u32 = c as u32;
    (97 <= n && n <= 122) || (48 <= n && n <= 57) || c == '_' || c == '-'
}

/// What is wrong with `s` as the alias of a server.
pub open spec fn alias_error(s: Seq<char>) -> Option<ParseError> {
    if length_error(s, "mcp_server_alias", MCP_ALIAS_MAX_LEN) is Some {
        length_error(s, "mcp_server_alias", MCP_ALIAS_MAX_LEN)
    } else if exists|i: int| 0 <= i < s.len() && !alias_char(#[trigger] s[i]) {
        Some(ParseError::Malformed { field: "mcp_server_alias", detail: "allowed: a-z 0-9 _ -" })
    } else {
        None
    }
}

fn check_alias(raw: &str) -> (e: Option<ParseError>)
    ensures
        e == alias_error(raw@),
{
    let e = check_length(raw, "mcp_server_alias", MCP_ALIAS_MAX_LEN);
    if e.is_some() {
        return e;
    }
    let chars = chars_of(raw);
    let mut i: usize = 0;
    while i < chars.len()
        invariant
            chars@ == raw@,
            i <= chars@.len(),
            length_error(raw@, "mcp_server_alias", MCP_ALIAS_MAX_LEN) is None,
            forall|j: int| 0 <= j < i ==> alias_char(#[trigger] raw@[j]),
        decreases chars.len() - i,
    {
        if !is_alias_char(chars[i]) {
            proof {
                assert(!alias_char(raw@[i as int]));
            }
            return Some(ParseError::Malformed { field: "mcp_server_alias", detail: "allowed: a-z 0-9 _ -" });
        }
        i += 1;
    }
    None
}

/// The short name that an operator gave to a server. It prefixes the name of
/// every tool that the server exposes.
#[derive(Debug, PartialEq, Eq, Hash)]
pub struct McpServerAlias {
    text: String,
}

impl View for McpServerAlias {
    type V = Seq<char>;

    closed spec fn view(&self) -> Seq<char> {
        self.text@
    }
}

impl McpServerAlias {
    /// What is wrong with `s` as a value of this type.
    pub open spec fn refusal(s: Seq<char>) -> Option<ParseError> {
        alias_error(s)
    }

    #[verifier::type_invariant]
    spec fn checked(self) -> bool {
        McpServerAlias::refusal(self.text@) is None
    }

    /// The text.
    pub fn as_str(&self) -> (s: &str)
        ensures
            s@ == self@,
            McpServerAlias::refusal(self@) is None,
    {
        proof {
            use_type_invariant(self);
        }
        self.text.as_str()
    }
}

impl Clone for McpServerAlias {
    fn clone(&self) -> (r: McpServerAlias)
        ensures
            r == *self,
    {
        proof {
            use_type_invariant(self);
        }
        McpServerAlias { text: self.text.clone() }
    }
}

impl TryFrom<&str> for McpServerAlias {
    type Error = ParseError;

    fn try_from(raw: &str) -> (r: Result<McpServerAlias, ParseError>)
        ensures
            match r {
                Ok(v) => McpServerAlias::refusal(raw@) is None && v@ == raw@,
                Err(e) => McpServerAlias::refusal(raw@) == Some(e),
            },
    {
        match check_alias(raw) {
            Some(e) => Err(e),
            None => Ok(McpServerAlias { text: raw.to_owned() }),
        }
    }
}

impl TryFromSpecImpl<&str> for McpServerAlias {
    open spec fn obeys_try_from_spec() -> bool {
        false
    }

    open spec fn try_from_spec(v: &str) -> Result<McpServerAlias, ParseError> {
        arbitrary()
    }
}

impl TryFrom<String> for McpServerAlias {
    type Error = ParseError;

    fn try_from(raw: String) -> (r: Result<McpServerAlias, ParseError>)
        ensures
            match r {
                Ok(v) => McpServerAlias::refusal(raw@) is None && v@ == raw@,
                Err(e) => McpServerAlias::refusal(raw@) == Some(e),
            },
    {
        McpServerAlias::try_from(raw.as_str())
    }
}

impl TryFromSpecImpl<String> for McpServerAlias {
    open spec fn obeys_try_from_spec() -> bool {
        false
    }

    open spec fn try_from_spec(v: String) -> Result<McpServerAlias, ParseError> {
        arbitrary()
    }
}

/// What an operator notes about a server. It may be empty.
#[derive(Debug, PartialEq, Eq)]
pub struct McpDescription {
    text: String,
}

impl View for McpDescription {
    type V = Seq<char>;

    closed spec fn view(&self) -> Seq<char> {
        self.text@
    }
}

impl McpDescription {
    /// What is wrong with `s` as a description.
    pub open spec fn refusal(s: Seq<char>) -> Option<ParseError> {
        if utf8_len(s) > MCP_DESCRIPTION_MAX_LEN {
            Some(
                ParseError::TooLong {
                    field: "mcp_description",
                    max: MCP_DESCRIPTION_MAX_LEN,
                    got: utf8_len(s) as usize,
                },
            )
        } else {
            None
        }
    }

    #[verifier::type_invariant]
    spec fn checked(self) -> bool {
        McpDescription::refusal(self.text@) is None
    }

    /// The text.
    pub fn as_str(&self) -> (s: &str)
        ensures
            s@ == self@,
            McpDescription::refusal(self@) is None,
    {
        proof {
            use_type_invariant(self);
        }
        self.text.as_str()
    }
}

impl Clone for McpDescription {
    fn clone(&self) -> (r: McpDescription)
        ensures
            r == *self,
    {
        proof {
            use_type_invariant(self);
        }
        McpDescription { text: self.text.clone() }
    }
}

impl TryFrom<String> for McpDescription {
    type Error = ParseError;

    fn try_from(raw: String) -> (r: Result<McpDescription, ParseError>)
        ensures
            match r {
                Ok(v) => McpDescription::refusal(raw@) is None && v@ == raw@,
                Err(e) => McpDescription::refusal(raw@) == Some(e),
            },
    {
        let got = byte_len(raw.as_str());
        if got > MCP_DESCRIPTION_MAX_LEN {
            return Err(
                ParseError::TooLong {
                    field: "mcp_description",
                    max: MCP_DESCRIPTION_MAX_LEN,
                    got,
                },
            );
        }
        Ok(McpDescription { text: raw })
    }
}

impl TryFromSpecImpl<String> for McpDescription {
    open spec fn obeys_try_from_spec() -> bool {
        false
    }

    open spec fn try_from_spec(v: String) -> Result<McpDescription, ParseError> {
        arbitrary()
    }
}

/// The name that a server gives to one of its tools.
#[derive(Debug, PartialEq, Eq)]
pub struct McpToolRemoteName {
    text: String,
}

impl View for McpToolRemoteName {
    type V = Seq<char>;

    closed spec fn view(&self) -> Seq<char> {
        self.text@
    }
}

impl McpToolRemoteName {
    /// What is wrong with `s` as a value of this type.
    pub open spec fn refusal(s: Seq<char>) -> Option<ParseError> {
        length_error(s, "mcp_tool_remote_name", TOOL_NAME_MAX_CHARS)
    }

    #[verifier::type_invariant]
    spec fn checked(self) -> bool {
        McpToolRemoteName::refusal(self.text@) is None
    }

    /// The text.
    pub fn as_str(&self) -> (s: &str)
        ensures
            s@ == self@,
            McpToolRemoteName::refusal(self@) is None,
    {
        proof {
            use_type_invariant(self);
        }
        self.text.as_str()
    }
}

impl Clone for McpToolRemoteName {
    fn clone(&self) -> (r: McpToolRemoteName)
        ensures
            r == *self,
    {
        proof {
            use_type_invariant(self);
        }
        McpToolRemoteName { text: self.text.clone() }
    }
}

impl TryFrom<&str> for McpToolRemoteName {
    type Error = ParseError;

    fn try_from(raw: &str) -> (r: Result<McpToolRemoteName, ParseError>)
        ensures
            match r {
                Ok(v) => McpToolRemoteName::refusal(raw@) is None && v@ == raw@,
                Err(e) => McpToolRemoteName::refusal(raw@) == Some(e),
            },
    {
        match check_length(raw, "mcp_tool_remote_name", TOOL_NAME_MAX_CHARS) {
            Some(e) => Err(e),
            None => Ok(McpToolRemoteName { text: raw.to_owned() }),
        }
    }
}

impl TryFromSpecImpl<&str> for McpToolRemoteName {
    open spec fn obeys_try_from_spec() -> bool {
        false
    }

    open spec fn try_from_spec(v: &str) -> Result<McpToolRemoteName, ParseError> {
        arbitrary()
    }
}

impl TryFrom<String> for McpToolRemoteName {
    type Error = ParseError;

    fn try_from(raw: String) -> (r: Result<McpToolRemoteName, ParseError>)
        ensures
            match r {
                Ok(v) => McpToolRemoteName::refusal(raw@) is None && v@ == raw@,
                Err(e) => McpToolRemoteName::refusal(raw@) == Some(e),
            },
    {
        McpToolRemoteName::try_from(raw.as_str())
    }
}

impl TryFromSpecImpl<String> for McpToolRemoteName {
    open spec fn obeys_try_from_spec() -> bool {
        false
    }

    open spec fn try_from_spec(v: String) -> Result<McpToolRemoteName, ParseError> {
        arbitrary()
    }
}

/// What is wrong with a URL of a server, once it was parsed.
pub open spec fn url_verdict(
    parsed: Result<(Seq<char>, bool, Seq<char>), Seq<char>>,
) -> Option<ParseError> {
    match parsed {
        Err(_) => Some(
            ParseError::Malformed { field: "mcp_transport.url", detail: "not a valid URL" },
        ),
        Ok((scheme, has_host, _)) => if scheme != "http"@ && scheme != "https"@ {
            Some(
                ParseError::Malformed {
                    field: "mcp_transport.url",
                    detail: "scheme must be http or https",
                },
            )
        } else if !has_host {
            Some(ParseError::Malformed { field: "mcp_transport.url", detail: "host missing" })
        } else {
            None
        },
    }
}

/// The parts of a parsed URL, as [`parsed_url`] gives them.
pub open spec fn parts_of(parsed: Result<UrlParts, String>) -> Result<
    (Seq<char>, bool, Seq<char>),
    Seq<char>,
> {
    match parsed {
        Ok(u) => Ok((u.scheme@, u.has_host, u.text@)),
        Err(e) => Err(e@),
    }
}

/// Judges a parsed URL: a server is reached over `http` or `https`, at a host.
pub fn judge_url(parsed: &Result<UrlParts, String>) -> (e: Option<ParseError>)
    ensures
        e == url_verdict(parts_of(*parsed)),
{
    match parsed {
        Err(_) => Some(
            ParseError::Malformed { field: "mcp_transport.url", detail: "not a valid URL" },
        ),
        Ok(u) => {
            if !text_equal(u.scheme.as_str(), "http") && !text_equal(u.scheme.as_str(), "https") {
                return Some(
                    ParseError::Malformed {
                        field: "mcp_transport.url",
                        detail: "scheme must be http or https",
                    },
                );
            }
            if !u.has_host {
                return Some(
                    ParseError::Malformed { field: "mcp_transport.url", detail: "host missing" },
                );
            }
            None
        },
    }
}

/// The normal form of the URL of a server: one that is taken, and that parses
/// to itself.
pub open spec fn normal_url(s: Seq<char>) -> bool {
    &&& 0 < s.len()
    &&& url_verdict(parsed_url(s)) is None
    &&& parsed_url(s)->Ok_0.2 == s
}

/// The URL at which a server is reached, in its normal form.
#[derive(Debug, PartialEq, Eq)]
pub struct McpHttpUrl {
    text: String,
}

impl View for McpHttpUrl {
    type V = Seq<char>;

    closed spec fn view(&self) -> Seq<char> {
        self.text@
    }
}

impl McpHttpUrl {
    /// What is wrong with `s` as the URL of a server.
    pub open spec fn refusal(s: Seq<char>) -> Option<ParseError> {
        if length_error(s, "mcp_transport.url", MCP_URL_MAX_LEN) is Some {
            length_error(s, "mcp_transport.url", MCP_URL_MAX_LEN)
        } else {
            url_verdict(parsed_url(s))
        }
    }

    #[verifier::type_invariant]
    spec fn checked(self) -> bool {
        normal_url(self.text@)
    }

    /// The URL in its normal form. It parses to itself.
    pub fn as_str(&self) -> (s: &str)
        ensures
            s@ == self@,
            normal_url(self@),
    {
        proof {
            use_type_invariant(self);
        }
        self.text.as_str()
    }

    /// Whether two URLs have the same normal form.
    pub fn same(&self, other: &McpHttpUrl) -> (r: bool)
        ensures
            r == (self@ == other@),
    {
        text_equal(self.text.as_str(), other.text.as_str())
    }
}

impl Clone for McpHttpUrl {
    fn clone(&self) -> (r: McpHttpUrl)
        ensures
            r == *self,
    {
        proof {
            use_type_invariant(self);
        }
        McpHttpUrl { text: self.text.clone() }
    }
}

impl TryFrom<&str> for McpHttpUrl {
    type Error = ParseError;

    fn try_from(raw: &str) -> (r: Result<McpHttpUrl, ParseError>)
        ensures
            match r {
                Ok(v) => {
                    &&& McpHttpUrl::refusal(raw@) is None
                    &&& v@ == parsed_url(raw@)->Ok_0.2
                    &&& parsed_url(v@) == parsed_url(raw@)
                },
                Err(e) => McpHttpUrl::refusal(raw@) == Some(e),
            },
    {
        if let Some(e) = check_length(raw, "mcp_transport.url", MCP_URL_MAX_LEN) {
            return Err(e);
        }
        let parsed = parse_url(raw);
        if let Some(e) = judge_url(&parsed) {
            return Err(e);
        }
        match parsed {
            Ok(u) => {
                proof {
                    reveal_strlit(":");
                    assert(0 < (u.scheme@ + ":"@).len() <= u.text@.len());
                }
                Ok(McpHttpUrl { text: u.text })
            },
            Err(_) => Err(
                ParseError::Malformed { field: "mcp_transport.url", detail: "not a valid URL" },
            ),
        }
    }
}

impl TryFromSpecImpl<&str> for McpHttpUrl {
    open spec fn obeys_try_from_spec() -> bool {
        false
    }

    open spec fn try_from_spec(v: &str) -> Result<McpHttpUrl, ParseError> {
        arbitrary()
    }
}

/// A transport as it is written down: on the wire and in the tables.
#[derive(Debug)]
pub enum McpTransportInput {
    Http { url: String },
}

/// How a server is reached. Nothing secret is part of it: secrets are
/// credentials.
#[derive(Debug, PartialEq, Eq)]
pub enum McpTransport {
    Http { url: McpHttpUrl },
}

impl McpTransport {
    /// What is wrong with `raw` as a transport.
    pub open spec fn refusal(raw: McpTransportInput) -> Option<ParseError> {
        match raw {
            McpTransportInput::Http { url } => McpHttpUrl::refusal(url@),
        }
    }

    /// The URL, in its normal form.
    pub open spec fn url(self) -> Seq<char> {
        match self {
            McpTransport::Http { url } => url@,
        }
    }

    /// Whether two transports reach the same server in the same way.
    pub fn same(&self, other: &McpTransport) -> (r: bool)
        ensures
            r == (self.url() == other.url()),
    {
        match (self, other) {
            (McpTransport::Http { url: a }, McpTransport::Http { url: b }) => a.same(b),
        }
    }

    /// The transport as it is written down.
    pub fn written(&self) -> (w: McpTransportInput)
        ensures
            match w {
                McpTransportInput::Http { url } => url@ == self.url(),
            },
            normal_url(self.url()),
    {
        match self {
            McpTransport::Http { url } => McpTransportInput::Http { url: url.as_str().to_owned() },
        }
    }
}

impl Clone for McpTransport {
    fn clone(&self) -> (r: McpTransport)
        ensures
            r == *self,
    {
        match self {
            McpTransport::Http { url } => McpTransport::Http { url: url.clone() },
        }
    }
}

impl TryFrom<McpTransportInput> for McpTransport {
    type Error = ParseError;

    fn try_from(raw: McpTransportInput) -> (r: Result<McpTransport, ParseError>)
        ensures
            match r {
                Ok(v) => {
                    &&& McpTransport::refusal(raw) is None
                    &&& v.url() == parsed_url(raw->url@)->Ok_0.2
                },
                Err(e) => McpTransport::refusal(raw) == Some(e),
            },
    {
        match raw {
            McpTransportInput::Http { url } => match McpHttpUrl::try_from(url.as_str()) {
                Ok(url) => Ok(McpTransport::Http { url }),
                Err(e) => Err(e),
            },
        }
    }
}

impl TryFromSpecImpl<McpTransportInput> for McpTransport {
    open spec fn obeys_try_from_spec() -> bool {
        false
    }

    open spec fn try_from_spec(v: McpTransportInput) -> Result<McpTransport, ParseError> {
        arbitrary()
    }
}

/// A transport is read back as it was written down, for as long as the URL in
/// its normal form is no longer than a URL may be.
pub proof fn law_transport_round_trip(t: McpTransport, written: McpTransportInput)
    requires
        normal_url(t.url()),
        written->url@ == t.url(),
        utf8_len(t.url()) <= MCP_URL_MAX_LEN,
    ensures
        McpTransport::refusal(written) is None,
        parsed_url(written->url@)->Ok_0.2 == t.url(),
{
}

/// A character of a header name: an ASCII letter or digit, or one of
/// ``!#$%&'*+-.^_`|~``.
pub open spec fn header_name_char(c: char) -> bool {
    ||| 'a' as u32 <= c as u32 <= 'z' as u32
    ||| 'A' as u32 <= c as u32 <= 'Z' as u32
    ||| '0' as u32 <= c as u32 <= '9' as u32
    ||| c == '!'
    ||| c == '#'
    ||| c == '$'
    ||| c == '%'
    ||| c == '&'
    ||| c == '\''
    ||| c == '*'
    ||| c == '+'
    ||| c == '-'
    ||| c == '.'
    ||| c == '^'
    ||| c == '_'
    ||| c == '`'
    ||| c == '|'
    ||| c == '~'
}

fn is_header_name_char(c: char) -> (r: bool)
    ensures
        r == header_name_char(c),
{
    let n: u32 = c as u32;
    (97 <= n && n <= 122) || (65 <= n && n <= 90) || (48 <= n && n <= 57)
        || c == '!' || c == '#' || c == '$' || c == '%'
        || c == '&' || c == '\'' || c == '*' || c == '+'
        || c == '-' || c == '.' || c == '^' || c == '_'
        || c == '`' || c == '|' || c == '~'
}

/// What is wrong with `s` as the name of a header.
pub open spec fn header_name_error(s: Seq<char>) -> Option<ParseError> {
    if length_error(s, "mcp_transport.header_name", MCP_HEADER_NAME_MAX_LEN) is Some {
        length_error(s, "mcp_transport.header_name", MCP_HEADER_NAME_MAX_LEN)
    } else if exists|i: int| 0 <= i < s.len() && !header_name_char(#[trigger] s[i]) {
        Some(ParseError::Malformed { field: "mcp_transport.header_name", detail: "rfc7230 token characters only" })
    } else {
        None
    }
}

fn check_header_name(raw: &str) -> (e: Option<ParseError>)
    ensures
        e == header_name_error(raw@),
{
    let e = check_length(raw, "mcp_transport.header_name", MCP_HEADER_NAME_MAX_LEN);
    if e.is_some() {
        return e;
    }
    let chars = chars_of(raw);
    let mut i: usize = 0;
    while i < chars.len()
        invariant
            chars@ == raw@,
            i <= chars@.len(),
            length_error(raw@, "mcp_transport.header_name", MCP_HEADER_NAME_MAX_LEN) is None,
            forall|j: int| 0 <= j < i ==> header_name_char(#[trigger] raw@[j]),
        decreases chars.len() - i,
    {
        if !is_header_name_char(chars[i]) {
            proof {
                assert(!header_name_char(raw@[i as int]));
            }
            return Some(ParseError::Malformed { field: "mcp_transport.header_name", detail: "rfc7230 token characters only" });
        }
        i += 1;
    }
    None
}

/// The small letters of a header name are characters of one, and the name keeps
/// its length.
proof fn lemma_lower_header_name(s: Seq<char>)
    requires
        header_name_error(s) is None,
    ensures
        header_name_error(ascii_lowercase(s)) is None,
{
    let t = ascii_lowercase(s);
    assert forall|i: int| 0 <= i < s.len() implies (#[trigger] s[i] as u32) < 0x80 by {
        assert(header_name_char(s[i]));
    }
    assert forall|i: int| 0 <= i < t.len() implies header_name_char(#[trigger] t[i]) && (
    t[i] as u32) < 0x80 by {
        assert(header_name_char(s[i]));
        assert(t[i] == ascii_lower(s[i]));
    }
    lemma_ascii_len(s);
    lemma_ascii_len(t);
}

/// The name of a custom header, in small letters: header names do not depend
/// on case.
#[derive(Debug, PartialEq, Eq)]
pub struct McpHeaderName {
    text: String,
}

impl View for McpHeaderName {
    type V = Seq<char>;

    closed spec fn view(&self) -> Seq<char> {
        self.text@
    }
}

impl McpHeaderName {
    /// What is wrong with `s` as the name of a header.
    pub open spec fn refusal(s: Seq<char>) -> Option<ParseError> {
        header_name_error(s)
    }

    #[verifier::type_invariant]
    spec fn checked(self) -> bool {
        &&& McpHeaderName::refusal(self.text@) is None
        &&& ascii_lowercase(self.text@) == self.text@
    }

    /// The name.
    pub fn as_str(&self) -> (s: &str)
        ensures
            s@ == self@,
            McpHeaderName::refusal(self@) is None,
            ascii_lowercase(self@) == self@,
    {
        proof {
            use_type_invariant(self);
        }
        self.text.as_str()
    }

    /// The name.
    pub fn into_string(self) -> (s: String)
        ensures
            s@ == self@,
    {
        self.text
    }
}

impl Clone for McpHeaderName {
    fn clone(&self) -> (r: McpHeaderName)
        ensures
            r == *self,
    {
        proof {
            use_type_invariant(self);
        }
        McpHeaderName { text: self.text.clone() }
    }
}

impl TryFrom<String> for McpHeaderName {
    type Error = ParseError;

    fn try_from(raw: String) -> (r: Result<McpHeaderName, ParseError>)
        ensures
            match r {
                Ok(v) => McpHeaderName::refusal(raw@) is None && v@ == ascii_lowercase(raw@),
                Err(e) => McpHeaderName::refusal(raw@) == Some(e),
            },
    {
        if let Some(e) = check_header_name(raw.as_str()) {
            return Err(e);
        }
        let lower = lowercase_chars(raw.as_str());
        let text = text_of(&lower, 0, lower.len());
        proof {
            lemma_lower_header_name(raw@);
            assert(text@ =~= ascii_lowercase(raw@));
            assert(ascii_lowercase(text@) =~= text@);
        }
        Ok(McpHeaderName { text })
    }
}

impl TryFromSpecImpl<String> for McpHeaderName {
    open spec fn obeys_try_from_spec() -> bool {
        false
    }

    open spec fn try_from_spec(v: String) -> Result<McpHeaderName, ParseError> {
        arbitrary()
    }
}

/// Two spellings of a header name that differ in the case of ASCII letters only
/// are refused alike, and where they are taken, they are one name.
pub proof fn law_header_names_ignore_case(a: Seq<char>, b: Seq<char>)
    requires
        ascii_lowercase(a) == ascii_lowercase(b),
    ensures
        McpHeaderName::refusal(a) is None <==> McpHeaderName::refusal(b) is None,
{
    if McpHeaderName::refusal(a) is None {
        lemma_same_spelling(a, b);
    }
    if McpHeaderName::refusal(b) is None {
        lemma_same_spelling(b, a);
    }
}

proof fn lemma_same_spelling(a: Seq<char>, b: Seq<char>)
    requires
        ascii_lowercase(a) == ascii_lowercase(b),
        header_name_error(a) is None,
    ensures
        header_name_error(b) is None,
{
    assert(ascii_lowercase(a).len() == a.len() && ascii_lowercase(b).len() == b.len());
    assert forall|i: int| 0 <= i < a.len() implies (#[trigger] a[i] as u32) < 0x80 by {
        assert(header_name_char(a[i]));
    }
    assert forall|i: int| 0 <= i < b.len() implies header_name_char(#[trigger] b[i]) && (
    b[i] as u32) < 0x80 by {
        assert(header_name_char(a[i]));
        assert(ascii_lowercase(a)[i] == ascii_lower(a[i]));
        assert(ascii_lowercase(b)[i] == ascii_lower(b[i]));
    }
    lemma_ascii_len(a);
    lemma_ascii_len(b);
}

/// A character of a header value: visible ASCII, the space or the tab.
pub open spec fn header_value_char(c: char) -> bool {
    ||| c == ' '
    ||| c == '\t'
    ||| '!' as u32 <= c as u32 <= '~' as u32
}

fn is_header_value_char(c: char) -> (r: bool)
    ensures
        r == header_value_char(c),
{
    let n: u32 = c as u32;
    c == ' ' || c == '\t' || (33 <= n && n <= 126)
}

/// What is wrong with `s` as the value of a header.
pub open spec fn header_value_error(s: Seq<char>) -> Option<ParseError> {
    if length_error(s, "mcp_transport.header_value", MCP_HEADER_VALUE_MAX_LEN) is Some {
        length_error(s, "mcp_transport.header_value", MCP_HEADER_VALUE_MAX_LEN)
    } else if exists|i: int| 0 <= i < s.len() && !header_value_char(#[trigger] s[i]) {
        Some(ParseError::Malformed { field: "mcp_transport.header_value", detail: "must be ascii-printable, no control chars" })
    } else {
        None
    }
}

fn check_header_value(raw: &str) -> (e: Option<ParseError>)
    ensures
        e == header_value_error(raw@),
{
    let e = check_length(raw, "mcp_transport.header_value", MCP_HEADER_VALUE_MAX_LEN);
    if e.is_some() {
        return e;
    }
    let chars = chars_of(raw);
    let mut i: usize = 0;
    while i < chars.len()
        invariant
            chars@ == raw@,
            i <= chars@.len(),
            length_error(raw@, "mcp_transport.header_value", MCP_HEADER_VALUE_MAX_LEN) is None,
            forall|j: int| 0 <= j < i ==> header_value_char(#[trigger] raw@[j]),
        decreases chars.len() - i,
    {
        if !is_header_value_char(chars[i]) {
            proof {
                assert(!header_value_char(raw@[i as int]));
            }
            return Some(ParseError::Malformed { field: "mcp_transport.header_value", detail: "must be ascii-printable, no control chars" });
        }
        i += 1;
    }
    None
}

/// The value of a custom header: printable ASCII.
#[derive(Debug, PartialEq, Eq)]
pub struct McpHeaderValue {
    text: String,
}

impl View for McpHeaderValue {
    type V = Seq<char>;

    closed spec fn view(&self) -> Seq<char> {
        self.text@
    }
}

impl McpHeaderValue {
    /// What is wrong with `s` as a value of this type.
    pub open spec fn refusal(s: Seq<char>) -> Option<ParseError> {
        header_value_error(s)
    }

    #[verifier::type_invariant]
    spec fn checked(self) -> bool {
        McpHeaderValue::refusal(self.text@) is None
    }

    /// The text.
    pub fn as_str(&self) -> (s: &str)
        ensures
            s@ == self@,
            McpHeaderValue::refusal(self@) is None,
    {
        proof {
            use_type_invariant(self);
        }
        self.text.as_str()
    }

    /// The value.
    pub fn into_string(self) -> (s: String)
        ensures
            s@ == self@,
    {
        self.text
    }
}

impl Clone for McpHeaderValue {
    fn clone(&self) -> (r: McpHeaderValue)
        ensures
            r == *self,
    {
        proof {
            use_type_invariant(self);
        }
        McpHeaderValue { text: self.text.clone() }
    }
}

impl TryFrom<String> for McpHeaderValue {
    type Error = ParseError;

    fn try_from(raw: String) -> (r: Result<McpHeaderValue, ParseError>)
        ensures
            match r {
                Ok(v) => McpHeaderValue::refusal(raw@) is None && v@ == raw@,
                Err(e) => McpHeaderValue::refusal(raw@) == Some(e),
            },
    {
        match check_header_value(raw.as_str()) {
            Some(e) => Err(e),
            None => Ok(McpHeaderValue { text: raw }),
        }
    }
}

impl TryFromSpecImpl<String> for McpHeaderValue {
    open spec fn obeys_try_from_spec() -> bool {
        false
    }

    open spec fn try_from_spec(v: String) -> Result<McpHeaderValue, ParseError> {
        arbitrary()
    }
}

/// What is known of the connection to a server.
#[derive(Clone, Copy, Debug, PartialEq, Eq, Hash, Structural)]
pub enum ConnectionStatus {
    /// The server answers.
    Healthy,
    /// The user has to connect again: the tokens were revoked.
    ReconnectRequired,
    /// Connecting fails until the operator changes something.
    Error,
}

impl ConnectionStatus {
    /// The wire label.
    pub open spec fn label(self) -> Seq<char> {
        match self {
            ConnectionStatus::Healthy => "ok"@,
            ConnectionStatus::ReconnectRequired => "reconnect_required"@,
            ConnectionStatus::Error => "error"@,
        }
    }

    /// The wire label.
    pub fn as_str(self) -> (s: &'static str)
        ensures
            s@ == self.label(),
    {
        match self {
            ConnectionStatus::Healthy => "ok",
            ConnectionStatus::ReconnectRequired => "reconnect_required",
            ConnectionStatus::Error => "error",
        }
    }

    /// Every variant, in declaration order.
    pub fn all() -> (v: Vec<ConnectionStatus>)
        ensures
            v@ == seq![ConnectionStatus::Healthy, ConnectionStatus::ReconnectRequired, ConnectionStatus::Error],
            forall|k: ConnectionStatus| v@.contains(k),
    {
        let v = vec![ConnectionStatus::Healthy, ConnectionStatus::ReconnectRequired, ConnectionStatus::Error];
        proof {
            assert(v@ =~= seq![ConnectionStatus::Healthy, ConnectionStatus::ReconnectRequired, ConnectionStatus::Error]);
            assert forall|k: ConnectionStatus| v@.contains(k) by {
                match k {
                    ConnectionStatus::Healthy => assert(v@[0] == k),
                    ConnectionStatus::ReconnectRequired => assert(v@[1] == k),
                    ConnectionStatus::Error => assert(v@[2] == k),
                }
            }
        }
        v
    }

    /// The variant with the label `s`.
    pub fn parse(s: &str) -> (r: Option<ConnectionStatus>)
        ensures
            match r {
                Some(k) => s@ == k.label(),
                None => forall|k: ConnectionStatus| s@ != #[trigger] k.label(),
            },
    {
        if text_equal(s, "ok") {
            Some(ConnectionStatus::Healthy)
        } else if text_equal(s, "reconnect_required") {
            Some(ConnectionStatus::ReconnectRequired)
        } else if text_equal(s, "error") {
            Some(ConnectionStatus::Error)
        } else {
            None
        }
    }

    /// No two variants share a label: what a label parses to is the variant
    /// that it labels.
    pub proof fn lemma_labels_distinct(a: ConnectionStatus, b: ConnectionStatus)
        ensures
            a.label() == b.label() ==> a == b,
    {
        reveal_strlit("ok");
        reveal_strlit("reconnect_required");
        reveal_strlit("error");
        assert("ok"@.len() != "reconnect_required"@.len());
        assert("ok"@.len() != "error"@.len());
        assert("reconnect_required"@.len() != "error"@.len());
    }
}

/// A tool that a server exposed when it was last asked.
#[derive(Debug, PartialEq, Eq)]
pub struct DiscoveredTool {
    /// The name that the server gives it.
    pub remote_name: String,
    /// The name under which agents call it.
    pub prefixed_name: String,
    pub description: Option<String>,
}

/// A registered server.
#[derive(Debug)]
pub struct McpServerRecord {
    pub id: McpServerId,
    pub org_id: OrgId,
    pub alias: McpServerAlias,
    pub enabled: bool,
    pub config: McpTransport,
    pub description: Option<McpDescription>,
    /// When the server last listed its tools.
    pub last_seen_at: Option<Timestamp>,
    /// Why the last refresh of the server failed.
    pub last_error: Option<String>,
    /// The tools that it listed when it last did.
    pub discovered_tools: Option<Vec<DiscoveredTool>>,
    pub created_by_user_id: UserId,
    pub connection_status: ConnectionStatus,
    pub created_at: Timestamp,
    pub updated_at: Timestamp,
}

/// An alias is one to sixteen small ASCII letters, digits, underscores and hyphens: a prefix
/// that every tool name may have.
pub proof fn law_aliases_are_prefixes(s: Seq<char>)
    ensures
        alias_error(s) is None <==> 0 < s.len() && s.len() <= 16 && forall|i: int|
            0 <= i < s.len() ==> {
                ||| 97 <= (#[trigger] s[i]) as u32 <= 122
                ||| 48 <= s[i] as u32 <= 57
                ||| s[i] == '_'
                ||| s[i] == '-'
            },
{
    if forall|i: int| 0 <= i < s.len() ==> alias_char(#[trigger] s[i]) {
        assert forall|i: int| 0 <= i < s.len() implies (#[trigger] s[i] as u32) < 0x80 by {
            assert(alias_char(s[i]));
        }
        lemma_ascii_len(s);
    }
    if alias_error(s) is None {
        assert forall|i: int| 0 <= i < s.len() implies alias_char(#[trigger] s[i]) by {}
    }
    if forall|i: int|
        0 <= i < s.len() ==> {
            ||| 97 <= (#[trigger] s[i]) as u32 <= 122
            ||| 48 <= s[i] as u32 <= 57
            ||| s[i] == '_'
            ||| s[i] == '-'
        } {
        assert forall|i: int| 0 <= i < s.len() implies alias_char(#[trigger] s[i]) by {}
    }
}

/// The value of a header is one to four thousand and ninety-six printable ASCII characters,
/// spaces and tabs.
pub proof fn law_header_values_are_printable(s: Seq<char>)
    ensures
        header_value_error(s) is None <==> 0 < s.len() && s.len() <= 4_096 && forall|i: int|
            0 <= i < s.len() ==> 33 <= (#[trigger] s[i]) as u32 <= 126 || s[i] == ' ' || s[i]
                == '\t',
{
    if forall|i: int| 0 <= i < s.len() ==> header_value_char(#[trigger] s[i]) {
        assert forall|i: int| 0 <= i < s.len() implies (#[trigger] s[i] as u32) < 0x80 by {
            assert(header_value_char(s[i]));
        }
        lemma_ascii_len(s);
    }
    if header_value_error(s) is None {
        assert forall|i: int| 0 <= i < s.len() implies header_value_char(#[trigger] s[i]) by {}
    }
    if forall|i: int|
        0 <= i < s.len() ==> 33 <= (#[trigger] s[i]) as u32 <= 126 || s[i] == ' ' || s[i] == '\t' {
        assert forall|i: int| 0 <= i < s.len() implies header_value_char(#[trigger] s[i]) by {}
    }
}

/// A server is reached over HTTP, at a host: no other scheme is taken, and no URL without a
/// host or of more than two KiB.
pub proof fn law_servers_are_reached_over_http(s: Seq<char>)
    ensures
        McpHttpUrl::refusal(s) is None <==> 0 < s.len() && utf8_len(s) <= 2_048 && (parsed_url(
            s,
        ) matches Ok((scheme, has_host, _)) && (scheme == "http"@ || scheme == "https"@)
            && has_host),
{
}

/// A description may be empty, and has at most half a KiB.
pub proof fn law_descriptions_may_be_empty(s: Seq<char>)
    ensures
        McpDescription::refusal(s) is None <==> utf8_len(s) <= 512,
{
}

/// The name of a header is one to sixty-four characters of a token: ASCII letters and digits
/// and fifteen marks.
pub proof fn law_header_names_are_tokens(s: Seq<char>)
    ensures
        header_name_error(s) is None <==> 0 < s.len() && s.len() <= 64 && forall|i: int|
            0 <= i < s.len() ==> {
                ||| 97 <= (#[trigger] s[i]) as u32 <= 122
                ||| 65 <= s[i] as u32 <= 90
                ||| 48 <= s[i] as u32 <= 57
                ||| "!#$%&'*+-.^_`|~"@.contains(s[i])
            },
{
    reveal_strlit("!#$%&'*+-.^_`|~");
    let marks = "!#$%&'*+-.^_`|~"@;
    assert forall|c: char| #[trigger] marks.contains(c) <==> {
        ||| c == '!' || c == '#' || c == '$' || c == '%' || c == '&' || c == '\'' || c == '*'
        ||| c == '+' || c == '-' || c == '.' || c == '^' || c == '_' || c == '`' || c == '|'
        ||| c == '~'
    } by {
        assert(marks[0] == '!' && marks[1] == '#' && marks[2] == '$' && marks[3] == '%');
        assert(marks[4] == '&' && marks[5] == '\'' && marks[6] == '*' && marks[7] == '+');
        assert(marks[8] == '-' && marks[9] == '.' && marks[10] == '^' && marks[11] == '_');
        assert(marks[12] == '`' && marks[13] == '|' && marks[14] == '~');
        if marks.contains(c) {
            let k = choose|k: int| 0 <= k < marks.len() && marks[k] == c;
            assert(k < 15);
        }
    }
    if forall|i: int| 0 <= i < s.len() ==> header_name_char(#[trigger] s[i]) {
        assert forall|i: int| 0 <= i < s.len() implies (#[trigger] s[i] as u32) < 0x80 by {
            assert(header_name_char(s[i]));
        }
        lemma_ascii_len(s);
    }
    if header_name_error(s) is None {
        assert forall|i: int| 0 <= i < s.len() implies header_name_char(#[trigger] s[i]) by {}
    }
    if forall|i: int|
        0 <= i < s.len() ==> {
            ||| 97 <= (#[trigger] s[i]) as u32 <= 122
            ||| 65 <= s[i] as u32 <= 90
            ||| 48 <= s[i] as u32 <= 57
            ||| "!#$%&'*+-.^_`|~"@.contains(s[i])
        } {
        assert forall|i: int| 0 <= i < s.len() implies header_name_char(#[trigger] s[i]) by {
            assert(marks.contains(s[i]) || !marks.contains(s[i]));
        }
    }
}

/// On the wire each state of a connection goes by a name of its own.
pub proof fn law_connection_status_goes_by_its_name(x: ConnectionStatus)
    ensures
        x.label() == "ok"@ <==> x is Healthy,
        x.label() == "reconnect_required"@ <==> x is ReconnectRequired,
        x.label() == "error"@ <==> x is Error,
{
    ConnectionStatus::lemma_labels_distinct(x, ConnectionStatus::Healthy);
    ConnectionStatus::lemma_labels_distinct(x, ConnectionStatus::ReconnectRequired);
    ConnectionStatus::lemma_labels_distinct(x, ConnectionStatus::Error);
}

} // verus!
