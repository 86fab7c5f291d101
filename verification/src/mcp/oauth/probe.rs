//! Asking an MCP server without a token where it describes itself.
//!
//! A server that has no description at the usual place answers a request without a
//! token with a challenge, `Bearer resource_metadata="…"`, that names the place.

use crate::mcp::oauth::discovery::FetchReply;
use crate::mcp::oauth::errors::OAuthError;
use crate::text::{
    ascii_lowercase, chars_of, has_substring, is_white_space, lowercase_chars, matches_at,
    occurs_at, text_of, white_space,
};
use crate::web_url::{parse_url, parsed_url};
use vstd::prelude::*;

verus! {

/// The scheme of the challenge, in small letters.
pub const CHALLENGE_SCHEME: &'static str = "bearer ";

/// The parameter of the challenge that names the place.
pub const CHALLENGE_PARAMETER: &'static str = "resource_metadata=";

/// What a server answers to a request without a token: the status, and what its
/// `WWW-Authenticate` headers say.
#[derive(Debug)]
pub struct ProbeReply {
    pub status: u16,
    pub challenges: Vec<String>,
}

/// Whether the server is to be asked: it has no description at the usual place.
pub fn probe_due<T>(reply: &FetchReply<T>) -> (r: bool)
    ensures
        r == (*reply matches FetchReply::Answer { status, .. } && status == 404),
{
    match reply {
        FetchReply::Answer { status, .. } => *status == 404,
        _ => false,
    }
}

/// What follows the first `needle` in `hay`.
pub open spec fn after_first(hay: Seq<char>, needle: Seq<char>) -> Option<Seq<char>>
    decreases hay.len(),
{
    if needle.is_prefix_of(hay) {
        Some(hay.skip(needle.len() as int))
    } else if hay.len() == 0 {
        None
    } else {
        after_first(hay.drop_first(), needle)
    }
}

/// The position after the first `needle` in `hay`.
fn find_after(hay: &Vec<char>, needle: &Vec<char>) -> (r: Option<usize>)
    ensures
        match r {
            Some(i) => i <= hay@.len() && after_first(hay@, needle@) == Some(hay@.skip(i as int)),
            None => after_first(hay@, needle@) is None,
        },
{
    let len = hay.len();
    let mut i: usize = 0;
    proof {
        assert(hay@.skip(0) =~= hay@);
    }
    loop
        invariant
            i <= len,
            len == hay@.len(),
            after_first(hay@, needle@) == after_first(hay@.skip(i as int), needle@),
        decreases hay@.len() - i,
    {
        let ghost rest = hay@.skip(i as int);
        let here = matches_at(hay, needle, i);
        proof {
            if i + needle@.len() <= hay@.len() {
                assert(rest.subrange(0, needle@.len() as int) =~= hay@.subrange(
                    i as int,
                    i + needle@.len(),
                ));
            }
            assert(here == needle@.is_prefix_of(rest));
        }
        if here {
            proof {
                assert(rest.skip(needle@.len() as int) =~= hay@.skip(i + needle@.len()));
            }
            return Some(i + needle.len());
        }
        if i == len {
            return None;
        }
        proof {
            assert(rest.drop_first() =~= hay@.skip(i + 1));
        }
        i += 1;
    }
}

/// A character that ends the value of a parameter.
pub open spec fn ends_value(c: char, quoted: bool) -> bool {
    if quoted {
        c == '"'
    } else {
        c == ',' || white_space(c)
    }
}

fn is_end(c: char, quoted: bool) -> (r: bool)
    ensures
        r == ends_value(c, quoted),
{
    if quoted {
        c == '"'
    } else {
        c == ',' || is_white_space(c)
    }
}

/// The value that `s` starts with.
pub open spec fn leading_value(s: Seq<char>, quoted: bool) -> Seq<char>
    decreases s.len(),
{
    if s.len() == 0 || ends_value(s[0], quoted) {
        Seq::empty()
    } else {
        seq![s[0]] + leading_value(s.drop_first(), quoted)
    }
}

/// The place that a challenge names: the value of its parameter, with or without
/// quotes.
pub open spec fn named_place(challenge: Seq<char>) -> Option<Seq<char>> {
    if !CHALLENGE_SCHEME@.is_prefix_of(ascii_lowercase(challenge)) {
        None
    } else {
        match after_first(challenge, CHALLENGE_PARAMETER@) {
            None => None,
            Some(rest) => Some(
                if rest.len() > 0 && rest[0] == '"' {
                    leading_value(rest.drop_first(), true)
                } else {
                    leading_value(rest, false)
                },
            ),
        }
    }
}

fn read_value(v: &Vec<char>, from: usize, quoted: bool) -> (s: String)
    requires
        from <= v@.len(),
    ensures
        s@ == leading_value(v@.skip(from as int), quoted),
{
    let ghost whole = v@.skip(from as int);
    let mut to: usize = from;
    proof {
        assert(whole.take(0) + leading_value(whole.skip(0), quoted) =~= leading_value(
            whole.skip(0),
            quoted,
        ));
        assert(whole.skip(0) =~= whole);
    }
    while to < v.len() && !is_end(v[to], quoted)
        invariant
            from <= to <= v@.len(),
            whole == v@.skip(from as int),
            leading_value(whole, quoted) == whole.take(to - from) + leading_value(
                whole.skip(to - from),
                quoted,
            ),
        decreases v.len() - to,
    {
        proof {
            let n = to - from;
            let rest = whole.skip(n);
            assert(rest[0] == v@[to as int]);
            assert(rest.drop_first() =~= whole.skip(n + 1));
            assert(whole.take(n) + (seq![rest[0]] + leading_value(rest.drop_first(), quoted))
                =~= whole.take(n + 1) + leading_value(whole.skip(n + 1), quoted));
        }
        to += 1;
    }
    let s = text_of(v, from, to);
    proof {
        let rest = whole.skip(to - from);
        if to < v@.len() {
            assert(rest[0] == v@[to as int]);
        }
        assert(leading_value(rest, quoted).len() == 0);
        assert(s@ =~= leading_value(whole, quoted));
    }
    s
}

/// The place that a challenge names.
pub fn read_challenge(challenge: &str) -> (r: Option<String>)
    ensures
        match r {
            Some(s) => named_place(challenge@) == Some(s@),
            None => named_place(challenge@) is None,
        },
{
    let lower = lowercase_chars(challenge);
    let scheme = chars_of(CHALLENGE_SCHEME);
    let v = chars_of(challenge);
    if !matches_at(&lower, &scheme, 0) {
        return None;
    }
    match find_after(&v, &chars_of(CHALLENGE_PARAMETER)) {
        None => None,
        Some(i) => {
            let ghost rest = v@.skip(i as int);
            if i < v.len() && v[i] == '"' {
                proof {
                    assert(rest[0] == v@[i as int]);
                    assert(rest.drop_first() =~= v@.skip(i + 1));
                }
                Some(read_value(&v, i + 1, true))
            } else {
                proof {
                    if rest.len() > 0 {
                        assert(rest[0] == v@[i as int]);
                    }
                }
                Some(read_value(&v, i, false))
            }
        },
    }
}

/// The URL of the place that a challenge names, if it names one by a URL.
pub open spec fn named_url(challenge: Seq<char>) -> Option<Seq<char>> {
    match named_place(challenge) {
        Some(place) => match parsed_url(place) {
            Ok((_, _, text)) => Some(text),
            Err(_) => None,
        },
        None => None,
    }
}

/// The URL that the first of the challenges that name one does.
pub open spec fn first_named(challenges: Seq<String>) -> Option<Seq<char>>
    decreases challenges.len(),
{
    if challenges.len() == 0 {
        None
    } else {
        match named_url(challenges[0]@) {
            Some(url) => Some(url),
            None => first_named(challenges.drop_first()),
        }
    }
}

/// Takes what came of asking the server without a token: where it describes itself.
/// A server that could not be asked, that does not answer with a challenge, or whose
/// challenge names no place, is reported as `missing`, for which it was asked.
pub fn probe_answered(missing: OAuthError, probe: Option<ProbeReply>) -> (r: Result<
    String,
    OAuthError,
>)
    ensures
        match probe {
            Some(p) => match first_named(p.challenges@) {
                Some(url) => if p.status == 401 {
                    r matches Ok(u) && u@ == url
                } else {
                    r == Err::<String, OAuthError>(missing)
                },
                None => r == Err::<String, OAuthError>(missing),
            },
            None => r == Err::<String, OAuthError>(missing),
        },
{
    let p = match probe {
        Some(p) => p,
        None => {
            return Err(missing);
        },
    };
    if p.status != 401 {
        return Err(missing);
    }
    let ghost all = p.challenges@;
    let mut i: usize = 0;
    proof {
        assert(all.skip(0) =~= all);
    }
    while i < p.challenges.len()
        invariant
            i <= all.len(),
            all == p.challenges@,
            p.status == 401,
            probe == Some(p),
            first_named(all) == first_named(all.skip(i as int)),
        decreases all.len() - i,
    {
        proof {
            assert(all.skip(i as int)[0] == all[i as int]);
            assert(all.skip(i as int).drop_first() =~= all.skip(i + 1));
        }
        if let Some(place) = read_challenge(p.challenges[i].as_str()) {
            if let Ok(u) = parse_url(place.as_str()) {
                return Ok(u.text);
            }
        }
        i += 1;
    }
    Err(missing)
}

/// What follows the first occurrence of a text is exactly that, and there is something that
/// follows exactly where the text occurs.
pub proof fn law_first_occurrence_is_found(hay: Seq<char>, needle: Seq<char>)
    ensures
        match after_first(hay, needle) {
            Some(rest) => exists|p: int|
                {
                    &&& #[trigger] occurs_at(hay, needle, p)
                    &&& rest == hay.skip(p + needle.len())
                    &&& forall|q: int| 0 <= q < p ==> !#[trigger] occurs_at(hay, needle, q)
                },
            None => forall|q: int| !#[trigger] occurs_at(hay, needle, q),
        },
    decreases hay.len(),
{
    if needle.is_prefix_of(hay) {
        assert(hay.subrange(0, 0 + needle.len() as int) =~= needle);
        assert(occurs_at(hay, needle, 0));
        assert(hay.skip(0 + needle.len() as int) =~= hay.skip(needle.len() as int));
    } else if hay.len() == 0 {
        assert forall|q: int| !#[trigger] occurs_at(hay, needle, q) by {
            if occurs_at(hay, needle, q) {
                assert(needle =~= hay);
            }
        }
    } else {
        let less = hay.drop_first();
        law_first_occurrence_is_found(less, needle);
        assert forall|q: int| #[trigger] occurs_at(hay, needle, q) implies q > 0 && occurs_at(
            less,
            needle,
            q - 1,
        ) by {
            if q == 0 {
                assert(needle =~= hay.subrange(0, needle.len() as int));
            } else {
                assert(less.subrange(q - 1, q - 1 + needle.len()) =~= hay.subrange(
                    q,
                    q + needle.len(),
                ));
            }
        }
        match after_first(less, needle) {
            Some(rest) => {
                let p = choose|p: int|
                    {
                        &&& #[trigger] occurs_at(less, needle, p)
                        &&& rest == less.skip(p + needle.len())
                        &&& forall|q: int| 0 <= q < p ==> !#[trigger] occurs_at(less, needle, q)
                    };
                assert(hay.subrange(p + 1, p + 1 + needle.len()) =~= less.subrange(
                    p,
                    p + needle.len(),
                ));
                assert(occurs_at(hay, needle, p + 1));
                assert(hay.skip(p + 1 + needle.len()) =~= less.skip(p + needle.len()));
            },
            None => {},
        }
    }
}

/// A value reaches to the first character that ends it, or to the end of the text.
pub proof fn law_value_reaches_to_its_end(s: Seq<char>, quoted: bool)
    ensures
        ({
            let n = leading_value(s, quoted).len() as int;
            &&& n <= s.len()
            &&& leading_value(s, quoted) == s.take(n)
            &&& n < s.len() ==> if quoted {
                s[n] == '"'
            } else {
                s[n] == ',' || white_space(s[n])
            }
            &&& forall|i: int|
                0 <= i < n ==> if quoted {
                    #[trigger] s[i] != '"'
                } else {
                    s[i] != ',' && !white_space(s[i])
                }
        }),
    decreases s.len(),
{
    if s.len() > 0 && !ends_value(s[0], quoted) {
        let rest = s.drop_first();
        law_value_reaches_to_its_end(rest, quoted);
        let n = leading_value(rest, quoted).len() as int;
        assert(leading_value(s, quoted) =~= s.take(n + 1));
        if n + 1 < s.len() {
            assert(rest[n] == s[n + 1]);
        }
        assert forall|i: int| 0 <= i < n + 1 implies if quoted {
            #[trigger] s[i] != '"'
        } else {
            s[i] != ',' && !white_space(s[i])
        } by {
            if i > 0 {
                assert(rest[i - 1] == s[i]);
            }
        }
    } else {
        assert(leading_value(s, quoted) =~= s.take(0));
    }
}

/// A challenge of the bearer scheme, in capitals or not, names the place that its parameter
/// gives: between quotes where it is quoted, and up to the next comma or space where it is
/// not. A challenge of another scheme, or without the parameter, names none.
pub proof fn law_challenge_names_a_place(challenge: Seq<char>)
    ensures
        !"bearer "@.is_prefix_of(ascii_lowercase(challenge)) ==> named_place(challenge) is None,
        !has_substring(challenge, "resource_metadata="@) ==> named_place(challenge) is None,
        "bearer "@.is_prefix_of(ascii_lowercase(challenge)) && has_substring(
            challenge,
            "resource_metadata="@,
        ) ==> named_place(challenge) is Some && exists|p: int|
            {
                let rest = challenge.skip(p + "resource_metadata="@.len());
                &&& #[trigger] occurs_at(challenge, "resource_metadata="@, p)
                &&& forall|q: int|
                    0 <= q < p ==> !#[trigger] occurs_at(challenge, "resource_metadata="@, q)
                &&& rest.len() > 0 && rest[0] == '"' ==> named_place(challenge)->0
                    == leading_value(rest.drop_first(), true)
                &&& rest.len() == 0 || rest[0] != '"' ==> named_place(challenge)->0
                    == leading_value(rest, false)
            },
{
    law_first_occurrence_is_found(challenge, "resource_metadata="@);
    if has_substring(challenge, "resource_metadata="@) {
        let i = choose|i: int| occurs_at(challenge, "resource_metadata="@, i);
        assert(after_first(challenge, "resource_metadata="@) is Some);
    }
}

proof fn lemma_after_only(hay: Seq<char>, needle: Seq<char>, p: int)
    requires
        occurs_at(hay, needle, p),
        forall|q: int| 0 <= q < p ==> !#[trigger] occurs_at(hay, needle, q),
    ensures
        after_first(hay, needle) == Some(hay.skip(p + needle.len())),
{
    law_first_occurrence_is_found(hay, needle);
    match after_first(hay, needle) {
        Some(rest) => {
            let k = choose|k: int|
                {
                    &&& #[trigger] occurs_at(hay, needle, k)
                    &&& rest == hay.skip(k + needle.len())
                    &&& forall|q: int| 0 <= q < k ==> !#[trigger] occurs_at(hay, needle, q)
                };
            assert(k == p);
        },
        None => {
            assert(!occurs_at(hay, needle, p));
        },
    }
}

proof fn lemma_quoted_value(place: Seq<char>, tail: Seq<char>)
    requires
        forall|i: int| 0 <= i < place.len() ==> #[trigger] place[i] != '"',
    ensures
        leading_value(place + seq!['"'] + tail, true) == place,
{
    let value = place + seq!['"'] + tail;
    law_value_reaches_to_its_end(value, true);
    let n = leading_value(value, true).len() as int;
    assert(value[place.len() as int] == '"');
    if n < place.len() {
        assert(value[n] == place[n]);
    } else if n > place.len() {
        assert(value[place.len() as int] != '"');
    }
    assert(value.take(n) =~= place);
}

proof fn lemma_scheme_of_lead(lead: Seq<char>, rest: Seq<char>, scheme: Seq<char>)
    requires
        scheme.is_prefix_of(ascii_lowercase(lead)),
    ensures
        scheme.is_prefix_of(ascii_lowercase(lead + rest)),
{
    let low = ascii_lowercase(lead);
    let all = ascii_lowercase(lead + rest);
    let n = scheme.len() as int;
    assert(low.subrange(0, n) =~= all.subrange(0, n));
}

/// A quoted place is read back as it is, whatever follows it.
pub proof fn law_quoted_place_is_read_back(
    lead: Seq<char>,
    place: Seq<char>,
    tail: Seq<char>,
)
    requires
        "bearer "@.is_prefix_of(ascii_lowercase(lead)),
        forall|i: int| 0 <= i < place.len() ==> #[trigger] place[i] != '"',
        forall|q: int|
            0 <= q < lead.len() ==> !#[trigger] occurs_at(
                lead + ("resource_metadata="@ + (seq!['"'] + (place + seq!['"'] + tail))),
                "resource_metadata="@,
                q,
            ),
    ensures
        named_place(lead + ("resource_metadata="@ + (seq!['"'] + (place + seq!['"'] + tail))))
            == Some(place),
{
    let name = "resource_metadata="@;
    let value = place + seq!['"'] + tail;
    let rest = seq!['"'] + value;
    let all = lead + (name + rest);
    let p = lead.len() as int;
    lemma_scheme_of_lead(lead, name + rest, "bearer "@);
    assert(all.subrange(p, p + name.len()) =~= name);
    assert(occurs_at(all, name, p));
    lemma_after_only(all, name, p);
    assert(all.skip(p + name.len()) =~= rest);
    assert(rest.drop_first() =~= value);
    lemma_quoted_value(place, tail);
}

/// The first challenge that names a place by a URL is believed, and those after it do not
/// matter.
pub proof fn law_first_named_place_is_believed(challenges: Seq<String>)
    ensures
        match first_named(challenges) {
            Some(url) => exists|i: int|
                {
                    &&& 0 <= i < challenges.len()
                    &&& named_url((#[trigger] challenges[i])@) == Some(url)
                    &&& forall|j: int| 0 <= j < i ==> named_url((#[trigger] challenges[j])@) is None
                },
            None => forall|j: int|
                0 <= j < challenges.len() ==> named_url((#[trigger] challenges[j])@) is None,
        },
    decreases challenges.len(),
{
    if challenges.len() > 0 && named_url(challenges[0]@) is None {
        let rest = challenges.drop_first();
        law_first_named_place_is_believed(rest);
        assert forall|j: int| 1 <= j < challenges.len() implies #[trigger] challenges[j] == rest[j
            - 1] by {}
        match first_named(rest) {
            Some(url) => {
                let i = choose|i: int|
                    {
                        &&& 0 <= i < rest.len()
                        &&& named_url((#[trigger] rest[i])@) == Some(url)
                        &&& forall|j: int| 0 <= j < i ==> named_url((#[trigger] rest[j])@) is None
                    };
                assert(challenges[i + 1] == rest[i]);
            },
            None => {},
        }
    }
}

} // verus!
