//! Finding the authorization server of an MCP server.
//!
//! Two documents are fetched, one after the other: what the MCP server says of
//! its authorization servers, and what the first of those says of itself. An MCP
//! server that says nothing at the usual place is asked where else it does: see
//! [`crate::mcp::oauth::probe`]. The fetches take place outside; here stand what is
//! fetched, and what is made of the answers.

use crate::http_status::{canonical_reason, is_success, reason_phrase, success};
use crate::mcp::oauth::errors::OAuthError;
use crate::text::{
    chars_of, decimal, push_decimal, text2, text3, text4, text_equal, text_number, text_of,
};
use crate::web_url::{parse_url, parsed_url};
use vstd::prelude::*;

verus! {

/// Seconds that one fetch may take.
pub const DISCOVERY_TIMEOUT: u64 = 10;

/// Maximum bytes of a document.
pub const DISCOVERY_MAX_BYTES: usize = 32768;

/// Where an MCP server says which authorization servers it trusts.
pub const RESOURCE_METADATA_PATH: &'static str = ".well-known/oauth-protected-resource";

/// Where an authorization server describes itself.
pub const AUTHORITY_METADATA_PATH: &'static str = ".well-known/oauth-authorization-server";

/// What an authorization server says of itself.
#[derive(Debug)]
pub struct AsMetadata {
    pub issuer: String,
    pub authorization_endpoint: String,
    pub token_endpoint: String,
    /// Where clients are registered. Not every authorization server has one.
    pub registration_endpoint: Option<String>,
    pub scopes_supported: Option<Vec<String>>,
    pub token_endpoint_auth_methods_supported: Option<Vec<String>>,
}

/// What came of a fetch.
#[derive(Debug)]
pub enum FetchReply<T> {
    /// It took too long.
    TimedOut,
    /// There was no answer, for this reason.
    Failed(String),
    /// The answer was not read to its end, for this reason.
    Unreadable(String),
    /// The answer: its status, the bytes of its body, and the document that the
    /// body holds or why it holds none.
    Answer { status: u16, bytes: usize, document: Result<T, String> },
}

/// `s` without the slashes at its end.
pub open spec fn without_slashes(s: Seq<char>) -> Seq<char>
    decreases s.len(),
{
    if s.len() > 0 && s.last() == '/' {
        without_slashes(s.drop_last())
    } else {
        s
    }
}

/// The text of `path` below `base`.
pub open spec fn below(base: Seq<char>, path: Seq<char>) -> Seq<char> {
    without_slashes(base) + "/"@ + path
}

/// The URL of `path` below the URL `base`: exactly one slash stands between
/// them.
pub fn join_well_known(base: &str, path: &str) -> (r: Result<String, OAuthError>)
    ensures
        match parsed_url(below(base@, path@)) {
            Ok((_, _, text)) => r matches Ok(u) && u@ == text,
            Err(e) => r matches Err(OAuthError::Discovery(s)) && s@ == "join "@ + path@ + ": "@ + e,
        },
{
    let chars = chars_of(base);
    let mut n: usize = chars.len();
    proof {
        assert(chars@.take(n as int) =~= chars@);
    }
    while n > 0 && chars[n - 1] == '/'
        invariant
            n <= chars@.len(),
            chars@ == base@,
            without_slashes(base@) == without_slashes(chars@.take(n as int)),
        decreases n,
    {
        proof {
            assert(chars@.take(n as int).drop_last() =~= chars@.take(n - 1));
            assert(chars@.take(n as int).last() == chars@[n - 1]);
        }
        n -= 1;
    }
    let stem = text_of(&chars, 0, n);
    proof {
        assert(stem@ =~= chars@.take(n as int));
        if n > 0 {
            assert(chars@.take(n as int).last() == chars@[n - 1]);
        }
    }
    let joined = text3(stem.as_str(), "/", path);
    match parse_url(joined.as_str()) {
        Ok(u) => Ok(u.text),
        Err(e) => Err(OAuthError::Discovery(text4("join ", path, ": ", e.as_str()))),
    }
}

/// The URL at which the document at `path` of the server `url` is fetched, or
/// why there is none. `what` says which URL is at fault.
pub open spec fn metadata_url(
    url: Seq<char>,
    path: Seq<char>,
    what: Seq<char>,
    r: Result<String, OAuthError>,
) -> bool {
    match parsed_url(url) {
        Err(e) => r matches Err(OAuthError::Discovery(s)) && s@ == what + e,
        Ok((_, _, base)) => match parsed_url(below(base, path)) {
            Ok((_, _, text)) => r matches Ok(u) && u@ == text,
            Err(e) => r matches Err(OAuthError::Discovery(s)) && s@ == "join "@ + path + ": "@ + e,
        },
    }
}

fn locate(url: &str, path: &str, what: &str) -> (r: Result<String, OAuthError>)
    ensures
        metadata_url(url@, path@, what@, r),
{
    match parse_url(url) {
        Err(e) => Err(OAuthError::Discovery(text2(what, e.as_str()))),
        Ok(u) => join_well_known(u.text.as_str(), path),
    }
}

/// Starts the search: where the MCP server at `server_url` says which
/// authorization servers it trusts.
pub fn discover_authorization_server(server_url: &str) -> (r: Result<String, OAuthError>)
    ensures
        metadata_url(server_url@, RESOURCE_METADATA_PATH@, "server url: "@, r),
{
    locate(server_url, RESOURCE_METADATA_PATH, "server url: ")
}

/// What a fetch of `url` comes to.
pub open spec fn fetching<T>(url: Seq<char>, reply: FetchReply<T>, r: Result<T, OAuthError>) -> bool {
    match reply {
        FetchReply::TimedOut => r matches Err(OAuthError::Discovery(s)) && s@ == "timed out"@,
        FetchReply::Failed(e) => r matches Err(OAuthError::Discovery(s)) && s@ == "http: "@ + e@,
        FetchReply::Unreadable(e) => r matches Err(OAuthError::Discovery(s)) && s@ == "body: "@ + e@,
        FetchReply::Answer { status, bytes, document } => if !success(status) {
            r matches Err(OAuthError::Discovery(s)) && s@ == url + " "@ + decimal(status as nat)
                + " "@ + reason_phrase(status)
        } else if bytes > DISCOVERY_MAX_BYTES {
            r matches Err(OAuthError::Discovery(s)) && s@ == "response exceeds "@ + decimal(
                DISCOVERY_MAX_BYTES as nat,
            ) + " bytes"@
        } else {
            match document {
                Ok(doc) => r == Ok::<T, OAuthError>(doc),
                Err(e) => r matches Err(OAuthError::Discovery(s)) && s@ == "parse: "@ + e@,
            }
        },
    }
}

/// Takes the answer to a fetch of `url`: the document, if the answer reports
/// success, is not too long and holds one.
pub fn fetched<T>(url: &str, reply: FetchReply<T>) -> (r: Result<T, OAuthError>)
    ensures
        fetching(url@, reply, r),
{
    match reply {
        FetchReply::TimedOut => Err(OAuthError::Discovery("timed out".to_owned())),
        FetchReply::Failed(e) => Err(OAuthError::Discovery(text2("http: ", e.as_str()))),
        FetchReply::Unreadable(e) => Err(OAuthError::Discovery(text2("body: ", e.as_str()))),
        FetchReply::Answer { status, bytes, document } => {
            if !is_success(status) {
                let mut s = text2(url, " ");
                push_decimal(&mut s, status as u64);
                s.append(" ");
                s.append(canonical_reason(status).as_str());
                return Err(OAuthError::Discovery(s));
            }
            if bytes > DISCOVERY_MAX_BYTES {
                return Err(
                    OAuthError::Discovery(
                        text_number("response exceeds ", DISCOVERY_MAX_BYTES, " bytes"),
                    ),
                );
            }
            match document {
                Ok(doc) => Ok(doc),
                Err(e) => Err(OAuthError::Discovery(text2("parse: ", e.as_str()))),
            }
        },
    }
}

/// The first of the authorization servers that an MCP server names.
pub open spec fn first_server(servers: Option<Vec<String>>) -> Option<Seq<char>> {
    match servers {
        Some(list) => if list@.len() > 0 {
            Some(list@[0]@)
        } else {
            None
        },
        None => None,
    }
}

/// Takes what the MCP server says: the authorization server to ask, and where it
/// describes itself.
pub fn resource_answered(url: &str, reply: FetchReply<Option<Vec<String>>>) -> (r: Result<
    (String, String),
    OAuthError,
>)
    ensures
        match r {
            Ok((issuer, next)) => exists|servers: Option<Vec<String>>|
                {
                    &&& #[trigger] fetching(url@, reply, Ok(servers))
                    &&& first_server(servers) == Some(issuer@)
                    &&& metadata_url(
                        issuer@,
                        AUTHORITY_METADATA_PATH@,
                        "issuer url: "@,
                        Ok(next),
                    )
                },
            Err(e) => {
                ||| fetching(url@, reply, Err(e))
                ||| exists|servers: Option<Vec<String>>|
                    {
                        &&& #[trigger] fetching(url@, reply, Ok(servers))
                        &&& match first_server(servers) {
                            None => e matches OAuthError::Discovery(s) && s@
                                == "no authorization_servers advertised"@,
                            Some(issuer) => metadata_url(
                                issuer,
                                AUTHORITY_METADATA_PATH@,
                                "issuer url: "@,
                                Err(e),
                            ),
                        }
                    }
            },
        },
{
    let servers = match fetched(url, reply) {
        Ok(servers) => servers,
        Err(e) => {
            return Err(e);
        },
    };
    let ghost doc = servers;
    proof {
        assert(fetching(url@, reply, Ok(doc)));
    }
    let issuer = match servers {
        Some(mut list) => {
            if list.len() == 0 {
                return Err(
                    OAuthError::Discovery("no authorization_servers advertised".to_owned()),
                );
            }
            list.remove(0)
        },
        None => {
            return Err(OAuthError::Discovery("no authorization_servers advertised".to_owned()));
        },
    };
    proof {
        assert(first_server(doc) == Some(issuer@));
    }
    match locate(issuer.as_str(), AUTHORITY_METADATA_PATH, "issuer url: ") {
        Ok(next) => Ok((issuer, next)),
        Err(e) => Err(e),
    }
}

/// Takes what the authorization server says of itself. It must be the one that
/// was asked: an MCP server that names another issuer than the document does is
/// not believed.
pub fn authority_answered(issuer: &str, url: &str, reply: FetchReply<AsMetadata>) -> (r: Result<
    AsMetadata,
    OAuthError,
>)
    ensures
        match r {
            Ok(meta) => fetching(url@, reply, Ok(meta)) && meta.issuer@ == issuer@,
            Err(e) => {
                ||| fetching(url@, reply, Err(e))
                ||| exists|meta: AsMetadata|
                    {
                        &&& #[trigger] fetching(url@, reply, Ok(meta))
                        &&& meta.issuer@ != issuer@
                        &&& e matches OAuthError::Discovery(s) && s@
                            == "issuer mismatch: resource says "@ + issuer@
                            + ", AS metadata says "@ + meta.issuer@
                    }
            },
        },
{
    match fetched(url, reply) {
        Err(e) => Err(e),
        Ok(meta) => {
            if !text_equal(meta.issuer.as_str(), issuer) {
                return Err(
                    OAuthError::Discovery(
                        text4(
                            "issuer mismatch: resource says ",
                            issuer,
                            ", AS metadata says ",
                            meta.issuer.as_str(),
                        ),
                    ),
                );
            }
            Ok(meta)
        },
    }
}

/// One slash stands between a server and a path, however many the server ends
/// with.
pub proof fn law_trailing_slashes_do_not_matter(base: Seq<char>, path: Seq<char>)
    ensures
        below(base + "/"@, path) == below(base, path),
{
    reveal_strlit("/");
    assert((base + "/"@).last() == '/');
    assert((base + "/"@).drop_last() =~= base);
}

/// Below a server means below all of it but its trailing slashes: what precedes the one slash
/// before the path ends in none, and what was dropped are slashes alone.
pub proof fn law_path_stands_below_the_server(base: Seq<char>, path: Seq<char>)
    ensures
        exists|n: int|
            {
                &&& 0 <= n <= base.len()
                &&& below(base, path) == #[trigger] base.take(n) + "/"@ + path
                &&& n > 0 ==> base[n - 1] != '/'
                &&& forall|i: int| n <= i < base.len() ==> #[trigger] base[i] == '/'
            },
    decreases base.len(),
{
    if base.len() > 0 && base.last() == '/' {
        let rest = base.drop_last();
        law_path_stands_below_the_server(rest, path);
        let n = choose|n: int|
            {
                &&& 0 <= n <= rest.len()
                &&& below(rest, path) == #[trigger] rest.take(n) + "/"@ + path
                &&& n > 0 ==> rest[n - 1] != '/'
                &&& forall|i: int| n <= i < rest.len() ==> #[trigger] rest[i] == '/'
            };
        assert(rest.take(n) =~= base.take(n));
        assert forall|i: int| n <= i < base.len() implies #[trigger] base[i] == '/' by {
            if i < rest.len() {
                assert(rest[i] == base[i]);
            }
        }
    } else {
        assert(base.take(base.len() as int) =~= base);
    }
}

/// A document is taken exactly from an answer that reports success, holds no more bytes than
/// allowed, and holds a document; it is taken as it is. Everything else is an error of
/// discovery.
pub proof fn law_only_sound_answers_are_taken<T>(
    url: Seq<char>,
    reply: FetchReply<T>,
    r: Result<T, OAuthError>,
)
    requires
        fetching(url, reply, r),
    ensures
        r is Ok <==> (reply matches FetchReply::Answer { status, bytes, document } && 200 <= status
            < 300 && bytes <= 32_768 && document is Ok),
        r matches Ok(doc) ==> (reply matches FetchReply::Answer { document, .. } && document == Ok::<
            T,
            String,
        >(doc)),
        r matches Err(e) ==> e is Discovery,
{
}

/// The authorization server that is asked is the first that the MCP server names.
pub proof fn law_first_server_is_asked(servers: Option<Vec<String>>)
    ensures
        first_server(servers) is Some <==> servers is Some && servers->0@.len() > 0,
        first_server(servers) matches Some(s) ==> s == servers->0@[0]@,
{
}

/// A server describes itself below its own URL: a description is only ever fetched from where
/// the parsed URL of the server leads.
pub proof fn law_description_is_fetched_below_the_server(
    url: Seq<char>,
    path: Seq<char>,
    what: Seq<char>,
    r: Result<String, OAuthError>,
)
    requires
        metadata_url(url, path, what, r),
    ensures
        r matches Ok(u) ==> {
            &&& parsed_url(url) is Ok
            &&& parsed_url(below(parsed_url(url)->Ok_0.2, path)) is Ok
            &&& u@ == parsed_url(below(parsed_url(url)->Ok_0.2, path))->Ok_0.2
        },
        parsed_url(url) is Ok && parsed_url(below(parsed_url(url)->Ok_0.2, path)) is Ok ==> r is Ok,
{
}

/// What became of a fetch is told: that it took too long, that it failed or could not be read
/// and why, the place and the status of a refusal, the limit that was passed, or what is wrong
/// with the document.
pub proof fn law_failed_fetches_say_why<T>(
    url: Seq<char>,
    reply: FetchReply<T>,
    r: Result<T, OAuthError>,
)
    requires
        fetching(url, reply, r),
        r is Err,
    ensures
        r->Err_0 is Discovery,
        ({
            let said = r->Err_0->Discovery_0@;
            &&& reply is TimedOut ==> said == "timed out"@
            &&& reply matches FetchReply::Failed(e) ==> said == "http: "@ + e@
            &&& reply matches FetchReply::Unreadable(e) ==> said == "body: "@ + e@
            &&& reply matches FetchReply::Answer { status, bytes, document } ==> {
                let sound = 200 <= status && status < 300;
                &&& !sound ==> said == url + " "@ + decimal(status as nat) + " "@ + reason_phrase(
                    status,
                )
                &&& sound && bytes > 32_768 ==> said == "response exceeds "@ + decimal(32_768)
                    + " bytes"@
                &&& sound && bytes <= 32_768 ==> document is Err && said == "parse: "@
                    + document->Err_0@
            }
        }),
{
}

} // verus!
