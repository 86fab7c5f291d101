//! Parsed URLs.

use vstd::prelude::*;

verus! {

/// What a parsed URL says of itself.
#[derive(Debug)]
pub struct UrlParts {
    /// The scheme, in small letters.
    pub scheme: String,
    /// Whether the URL names a host.
    pub has_host: bool,
    /// The URL in its normal form.
    pub text: String,
}

/// What `url::Url::parse` makes of a text: the scheme of the URL, whether it
/// names a host, and its serialization; or why the text is no URL, as
/// `url::ParseError` words it.
pub uninterp spec fn parsed_url(text: Seq<char>) -> Result<(Seq<char>, bool, Seq<char>), Seq<char>>;

/// `url::Url::parse`, the parts read off with `scheme`, `host` and `as_str`.
/// All of it depends on the text alone. The serialization starts with the
/// scheme and a colon, and an HTTP URL is parsed back from it:
/// `Url::check_invariants` lists both among what every `Url` keeps to.
#[verifier::external_body]
pub(crate) fn parse_url(text: &str) -> (r: Result<UrlParts, String>)
    ensures
        match r {
            Ok(u) => parsed_url(text@) == Ok::<(Seq<char>, bool, Seq<char>), Seq<char>>(
                (u.scheme@, u.has_host, u.text@),
            ),
            Err(e) => parsed_url(text@) == Err::<(Seq<char>, bool, Seq<char>), Seq<char>>(e@),
        },
        r matches Ok(u) ==> (u.scheme@ + ":"@).is_prefix_of(u.text@),
        r matches Ok(u) ==> (u.has_host && (u.scheme@ == "http"@ || u.scheme@ == "https"@)
            ==> parsed_url(u.text@) == parsed_url(text@)),
{
    match url::Url::parse(text) {
        Ok(u) => Ok(
            UrlParts {
                scheme: u.scheme().to_owned(),
                has_host: u.host().is_some(),
                text: u.as_str().to_owned(),
            },
        ),
        Err(e) => Err(e.to_string()),
    }
}

} // verus!
