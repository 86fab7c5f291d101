//! Random tokens.

use vstd::prelude::*;

verus! {

/// A character of the URL-safe base64 alphabet.
pub open spec fn url_safe_char(c: char) -> bool {
    ||| 'a' as u32 <= c as u32 <= 'z' as u32
    ||| 'A' as u32 <= c as u32 <= 'Z' as u32
    ||| '0' as u32 <= c as u32 <= '9' as u32
    ||| c == '_'
    ||| c == '-'
}

/// A text over the URL-safe base64 alphabet.
pub open spec fn url_safe(s: Seq<char>) -> bool {
    forall|i: int| 0 <= i < s.len() ==> url_safe_char(#[trigger] s[i])
}

/// `oauth2::CsrfToken::new_random_len`: so many random bytes, in URL-safe base64
/// without padding. Which bytes depends on chance.
#[verifier::external_body]
pub(crate) fn random_token(num_bytes: u32) -> (s: String)
    requires
        num_bytes <= 1024,
    ensures
        url_safe(s@),
        s@.len() == (4 * num_bytes + 2) / 3,
{
    oauth2::CsrfToken::new_random_len(num_bytes).into_secret()
}

} // verus!
