//! Protection against forged requests: the web app sends the token of a cookie
//! back in a header, which a foreign site cannot do.

use crate::auth::CSRF_TOKEN_MAX_LEN;
use crate::text::{byte_len, lemma_ascii_len, text_equal, utf8_len};
use crate::tokens::{random_token, url_safe, url_safe_char};
use vstd::prelude::*;
use vstd::utf8::encode_utf8;

verus! {

/// Why a request is taken to be forged.
#[derive(Clone, Copy, Debug, PartialEq, Eq, Structural)]
pub enum CsrfError {
    /// The cookie or the header is missing.
    Missing,
    /// The cookie and the header do not agree.
    Mismatch,
}

impl CsrfError {
    /// The text of the error.
    pub open spec fn text(self) -> Seq<char> {
        match self {
            CsrfError::Missing => "csrf token missing from request"@,
            CsrfError::Mismatch => "csrf token mismatch"@,
        }
    }

    /// What is answered: a status, and the text of the error.
    pub fn into_response(self) -> (r: (u16, String))
        ensures
            r.0 == 403,
            r.1@ == self.text(),
    {
        match self {
            CsrfError::Missing => (403, "csrf token missing from request".to_owned()),
            CsrfError::Mismatch => (403, "csrf token mismatch".to_owned()),
        }
    }
}

/// A new token: 16 random bytes in URL-safe base64.
pub fn mint_csrf_token() -> (s: String)
    ensures
        s@.len() == 22,
        url_safe(s@),
        csrf_shaped(s@),
{
    let s = random_token(16);
    proof {
        assert forall|i: int| 0 <= i < s@.len() implies (#[trigger] s@[i] as u32) < 0x80 by {
            assert(url_safe_char(s@[i]));
        }
        lemma_ascii_len(s@);
    }
    s
}

/// A method that changes nothing.
pub open spec fn safe_method(method: Seq<char>) -> bool {
    method == "GET"@ || method == "HEAD"@ || method == "OPTIONS"@
}

/// A text that can be a token.
pub open spec fn csrf_shaped(s: Seq<char>) -> bool {
    0 < utf8_len(s) <= CSRF_TOKEN_MAX_LEN
}

/// Why a request with this cookie and this header is taken to be forged.
pub open spec fn csrf_error(
    method: Seq<char>,
    cookie: Option<Seq<char>>,
    header: Option<Seq<char>>,
) -> Option<CsrfError> {
    if safe_method(method) {
        None
    } else {
        match (cookie, header) {
            (Some(c), Some(h)) => if csrf_shaped(c) && c == h {
                None
            } else {
                Some(CsrfError::Mismatch)
            },
            _ => Some(CsrfError::Missing),
        }
    }
}

/// The characters of a text that may be missing.
pub open spec fn seen(s: Option<&str>) -> Option<Seq<char>> {
    match s {
        Some(t) => Some(t@),
        None => None,
    }
}

/// Whether two byte strings are equal. Every pair of bytes is looked at, whatever
/// the ones before it were: how long that takes does not tell where they differ.
pub fn constant_time_eq(a: &[u8], b: &[u8]) -> (r: bool)
    ensures
        r == (a@ == b@),
{
    if a.len() != b.len() {
        return false;
    }
    let mut diff: u8 = 0;
    let mut i: usize = 0;
    while i < a.len()
        invariant
            i <= a@.len() == b@.len(),
            diff == 0 <==> (forall|j: int| 0 <= j < i ==> a@[j] == b@[j]),
        decreases a.len() - i,
    {
        let x: u8 = a[i];
        let y: u8 = b[i];
        let before: u8 = diff;
        assert(((before | (x ^ y)) == 0) == (before == 0 && x == y)) by (bit_vector);
        diff = before | (x ^ y);
        proof {
            if diff == 0 {
                assert forall|j: int| 0 <= j < i + 1 implies a@[j] == b@[j] by {}
            } else if before == 0 {
                assert(a@[i as int] != b@[i as int]);
            }
        }
        i += 1;
    }
    proof {
        if diff == 0 {
            assert(a@ =~= b@);
        }
    }
    diff == 0
}

/// Two texts with the same bytes are the same text.
proof fn lemma_same_bytes(a: Seq<char>, b: Seq<char>)
    ensures
        encode_utf8(a) == encode_utf8(b) ==> a == b,
{
    broadcast use vstd::utf8::encode_utf8_decode_utf8;

    assert(vstd::utf8::decode_utf8(encode_utf8(a)) == a);
    assert(vstd::utf8::decode_utf8(encode_utf8(b)) == b);
}

/// Lets a request through, or not. One that changes something must bring the
/// token of its cookie back in its header.
pub fn require_csrf(method: &str, cookie: Option<&str>, header: Option<&str>) -> (r: Result<
    (),
    CsrfError,
>)
    ensures
        match csrf_error(method@, seen(cookie), seen(header)) {
            None => r is Ok,
            Some(e) => r == Err::<(), CsrfError>(e),
        },
{
    if text_equal(method, "GET") || text_equal(method, "HEAD") || text_equal(method, "OPTIONS") {
        return Ok(());
    }
    match (cookie, header) {
        (Some(c), Some(h)) => {
            let c_len = byte_len(c);
            let h_len = byte_len(h);
            if c_len == 0 || h_len == 0 || c_len > CSRF_TOKEN_MAX_LEN || h_len > CSRF_TOKEN_MAX_LEN {
                return Err(CsrfError::Mismatch);
            }
            proof {
                lemma_same_bytes(c@, h@);
            }
            if !constant_time_eq(c.as_bytes(), h.as_bytes()) {
                return Err(CsrfError::Mismatch);
            }
            Ok(())
        },
        _ => Err(CsrfError::Missing),
    }
}

/// Whether the browser needs a new token: it has none that
/// [`require_csrf`] would take.
pub fn needs_csrf(cookie: Option<&str>) -> (r: bool)
    ensures
        r == !(seen(cookie) matches Some(c) && csrf_shaped(c)),
{
    match cookie {
        Some(c) => {
            let n = byte_len(c);
            n == 0 || n > CSRF_TOKEN_MAX_LEN
        },
        None => true,
    }
}

/// A browser that keeps the token it was given and sends it back is let through,
/// whatever the method.
pub proof fn law_echoed_token_passes(method: Seq<char>, token: Seq<char>)
    requires
        csrf_shaped(token),
    ensures
        csrf_error(method, Some(token), Some(token)) is None,
{
}

/// A request that changes something passes with the token of its cookie and with
/// nothing else.
pub proof fn law_only_the_token_passes(
    method: Seq<char>,
    cookie: Option<Seq<char>>,
    header: Option<Seq<char>>,
)
    requires
        !safe_method(method),
        csrf_error(method, cookie, header) is None,
    ensures
        cookie is Some,
        cookie == header,
{
}

/// What is asked of a request: one that only reads is let through; any other must bring both
/// the cookie and the header, or it is told that the token is missing, and they must be one
/// token of one to sixty-four bytes, or it is told that they do not match.
pub proof fn law_forged_requests_are_told_why(
    method: Seq<char>,
    cookie: Option<Seq<char>>,
    header: Option<Seq<char>>,
)
    ensures
        method == "GET"@ || method == "HEAD"@ || method == "OPTIONS"@ ==> csrf_error(
            method,
            cookie,
            header,
        ) is None,
        method != "GET"@ && method != "HEAD"@ && method != "OPTIONS"@ ==> {
            &&& cookie is None || header is None ==> csrf_error(method, cookie, header) == Some(
                CsrfError::Missing,
            )
            &&& cookie is Some && header is Some && cookie == header && 0 < utf8_len(cookie->0)
                && utf8_len(cookie->0) <= 64 ==> csrf_error(method, cookie, header) is None
            &&& cookie is Some && header is Some && (cookie != header || utf8_len(cookie->0) == 0
                || utf8_len(cookie->0) > 64) ==> csrf_error(method, cookie, header) == Some(
                CsrfError::Mismatch,
            )
        },
{
}

} // verus!
