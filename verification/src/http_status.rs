//! HTTP status codes.

use vstd::prelude::*;

verus! {

/// The phrase that `http` gives for a status code, and nothing where it gives
/// none.
pub uninterp spec fn reason_phrase(code: u16) -> Seq<char>;

/// `http::StatusCode::canonical_reason`, and nothing for a code that
/// `http::StatusCode::from_u16` refuses: the phrase depends on the code alone.
#[verifier::external_body]
pub(crate) fn canonical_reason(code: u16) -> (s: String)
    ensures
        s@ == reason_phrase(code),
{
    match http::StatusCode::from_u16(code) {
        Ok(status) => status.canonical_reason().unwrap_or("").to_owned(),
        Err(_) => String::new(),
    }
}

/// A status code that reports success.
pub open spec fn success(code: u16) -> bool {
    200 <= code < 300
}

/// Whether a status code reports success.
pub fn is_success(code: u16) -> (r: bool)
    ensures
        r == success(code),
{
    200 <= code && code < 300
}

} // verus!
