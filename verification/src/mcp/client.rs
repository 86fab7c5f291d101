//! What is decided around the connection to a server.

use crate::chat::ToolInput;
use crate::mcp::credentials::CredentialPayload;
use crate::mcp::error::McpError;
use crate::mcp::types::{header_name_char, header_value_char, McpHeaderName, McpHeaderValue};
use crate::text::{
    ascii_lowercase, chars_of, has_substring, occurs_at, text2, text3, text4, text_equal, utf8_len,
};
use vstd::prelude::*;

verus! {

/// A text that `http` takes as the name of a header: 1 to 65535 bytes, all of
/// them token characters.
pub open spec fn http_name(s: Seq<char>) -> bool {
    &&& 0 < s.len()
    &&& utf8_len(s) <= 65535
    &&& forall|i: int| 0 <= i < s.len() ==> header_name_char(#[trigger] s[i])
}

/// A text that `http` takes as the value of a header: no control character but
/// the tab.
pub open spec fn http_value(s: Seq<char>) -> bool {
    forall|i: int|
        0 <= i < s.len() ==> {
            ||| #[trigger] s[i] == '\t'
            ||| s[i] as u32 >= 32 && s[i] as u32 != 127
        }
}

/// `http::HeaderName::try_from` on a text: the name in small letters, or the
/// text of `InvalidHeaderName`. The table `HEADER_CHARS` of the crate lists the
/// token characters, and no name has more than 65535 bytes.
#[verifier::external_body]
fn parse_header_name(name: &str) -> (r: Result<String, String>)
    ensures
        match r {
            Ok(n) => http_name(name@) && n@ == ascii_lowercase(name@),
            Err(e) => !http_name(name@) && e@ == "invalid HTTP header name"@,
        },
{
    match http::HeaderName::try_from(name) {
        Ok(n) => Ok(n.as_str().to_owned()),
        Err(e) => Err(e.to_string()),
    }
}

/// `http::HeaderValue::from_str`: whether the text is taken, or the text of
/// `InvalidHeaderValue`. The bytes that it refuses are those below 32 but for
/// the tab, and 127.
#[verifier::external_body]
fn parse_header_value(value: &str) -> (r: Result<(), String>)
    ensures
        match r {
            Ok(_) => http_value(value@),
            Err(e) => !http_value(value@) && e@ == "failed to parse header value"@,
        },
{
    match http::HeaderValue::from_str(value) {
        Ok(_) => Ok(()),
        Err(e) => Err(e.to_string()),
    }
}

/// What is wrong with a header that goes to a server.
pub open spec fn header_fault(name: Seq<char>, value: Seq<char>) -> Option<Seq<char>> {
    if !http_name(name) {
        Some("header name `"@ + name + "`: "@ + "invalid HTTP header name"@)
    } else if !http_value(value) {
        Some("header value rejected: "@ + "failed to parse header value"@)
    } else {
        None
    }
}

/// A header as it is sent: the name in small letters, and the value.
pub fn connect_header(name: &str, value: &str) -> (r: Result<(String, String), McpError>)
    ensures
        match r {
            Ok(h) => {
                &&& header_fault(name@, value@) is None
                &&& h.0@ == ascii_lowercase(name@)
                &&& h.1@ == value@
            },
            Err(e) => e matches McpError::InvalidConfig(s) && header_fault(name@, value@) == Some(s@),
        },
{
    let header = match parse_header_name(name) {
        Ok(n) => n,
        Err(e) => {
            return Err(
                McpError::InvalidConfig(text4("header name `", name, "`: ", e.as_str())),
            );
        },
    };
    match parse_header_value(value) {
        Ok(_) => Ok((header, value.to_owned())),
        Err(e) => Err(McpError::InvalidConfig(text2("header value rejected: ", e.as_str()))),
    }
}

/// The headers that go with the requests to a server that has `credentials`,
/// name and value of each.
pub open spec fn credential_headers(credentials: Option<CredentialPayload>) -> Seq<
    (Seq<char>, Seq<char>),
> {
    match credentials {
        None => Seq::empty(),
        Some(CredentialPayload::StaticHeaders { headers }) => headers.list().map_values(
            |e: (McpHeaderName, McpHeaderValue)| (e.0@, e.1@),
        ),
        Some(CredentialPayload::Oauth2(p)) => seq![("authorization"@, "Bearer "@ + p.access_token@)],
    }
}

/// The headers as they are sent.
pub open spec fn sent(headers: Seq<(String, String)>) -> Seq<(Seq<char>, Seq<char>)> {
    headers.map_values(|h: (String, String)| (h.0@, h.1@))
}

/// A header whose name and value were validated is never refused: a server with
/// static headers can always be connected to.
pub proof fn law_static_headers_are_sendable(name: Seq<char>, value: Seq<char>)
    requires
        McpHeaderName::refusal(name) is None,
        McpHeaderValue::refusal(value) is None,
    ensures
        header_fault(name, value) is None,
{
    assert forall|i: int| 0 <= i < name.len() implies header_name_char(#[trigger] name[i]) by {
    }
    assert forall|i: int| 0 <= i < value.len() implies {
        ||| #[trigger] value[i] == '\t'
        ||| value[i] as u32 >= 32 && value[i] as u32 != 127
    } by {
        assert(header_value_char(value[i]));
    }
}

/// The headers to connect with. Static headers were validated, so none of them
/// is refused; an access token is refused where it holds a control character.
pub fn connect_headers(credentials: Option<&CredentialPayload>) -> (r: Result<
    Vec<(String, String)>,
    McpError,
>)
    ensures
        match credentials {
            Some(CredentialPayload::Oauth2(p)) => match header_fault(
                "authorization"@,
                "Bearer "@ + p.access_token@,
            ) {
                Some(detail) => r matches Err(McpError::InvalidConfig(s)) && s@ == detail,
                None => r matches Ok(h) && sent(h@) == credential_headers(Some(*credentials->0)),
            },
            Some(p) => r matches Ok(h) && sent(h@) == credential_headers(Some(*p)),
            None => r matches Ok(h) && h@.len() == 0,
        },
{
    let mut out: Vec<(String, String)> = Vec::new();
    match credentials {
        None => {},
        Some(CredentialPayload::StaticHeaders { headers }) => {
            let mut i: usize = 0;
            while i < headers.len()
                invariant
                    i <= headers.list().len(),
                    out@.len() == i,
                    forall|j: int|
                        0 <= j < i ==> (#[trigger] out@[j]).0@ == headers.list()[j].0@ && out@[j].1@
                            == headers.list()[j].1@,
                decreases headers.list().len() - i,
            {
                let e = headers.at(i);
                let name = e.0.as_str();
                let value = e.1.as_str();
                proof {
                    law_static_headers_are_sendable(name@, value@);
                }
                match connect_header(name, value) {
                    Ok(h) => {
                        out.push(h);
                    },
                    Err(e) => {
                        return Err(e);
                    },
                }
                i += 1;
            }
            proof {
                assert(sent(out@) =~= credential_headers(Some(*credentials->0)));
            }
        },
        Some(CredentialPayload::Oauth2(p)) => {
            let value = text2("Bearer ", p.access_token.as_str());
            proof {
                reveal_strlit("authorization");
            }
            match connect_header("authorization", value.as_str()) {
                Ok(h) => {
                    out.push(h);
                },
                Err(e) => {
                    return Err(e);
                },
            }
            proof {
                assert(ascii_lowercase("authorization"@) =~= "authorization"@);
                assert(sent(out@) =~= credential_headers(Some(*credentials->0)));
            }
        },
    }
    Ok(out)
}

/// The arguments object of a tool call whose input is the JSON value `input`, in
/// its compact form: nothing for `null`, an object as it is, and any other value
/// under the key `input`.
pub open spec fn tool_arguments(input: Seq<char>) -> Option<Seq<char>> {
    if input == "null"@ {
        None
    } else if 0 < input.len() && input[0] == '{' {
        Some(input)
    } else {
        Some("{\"input\":"@ + input + "}"@)
    }
}

/// The arguments object of a tool call.
pub fn call_arguments(input: &ToolInput) -> (r: Option<String>)
    ensures
        match r {
            None => tool_arguments(input@) is None,
            Some(s) => tool_arguments(input@) == Some(s@),
        },
{
    let text = input.as_str();
    if text_equal(text, "null") {
        return None;
    }
    let chars = chars_of(text);
    if chars.len() > 0 && chars[0] == '{' {
        return Some(text.to_owned());
    }
    Some(text3("{\"input\":", text, "}"))
}

/// What goes with the requests to a server is what its credentials say: an access token as a
/// bearer token, static headers each under its name, and nothing without credentials.
pub proof fn law_credentials_go_along(credentials: Option<CredentialPayload>)
    ensures
        credentials is None ==> credential_headers(credentials).len() == 0,
        credentials matches Some(CredentialPayload::Oauth2(p)) ==> {
            &&& credential_headers(credentials).len() == 1
            &&& credential_headers(credentials)[0].0 == "authorization"@
            &&& credential_headers(credentials)[0].1 == "Bearer "@ + p.access_token@
        },
        credentials matches Some(CredentialPayload::StaticHeaders { headers }) ==> {
            &&& credential_headers(credentials).len() == headers.list().len()
            &&& forall|i: int|
                0 <= i < headers.list().len() ==> (#[trigger] credential_headers(
                    credentials,
                )[i]).0 == headers.list()[i].0@ && credential_headers(credentials)[i].1
                    == headers.list()[i].1@
        },
{
}

/// The arguments of a call are an object that has the input, whole: the input itself where it
/// is an object, and otherwise an object with the input under one key. Only `null` stands
/// for no arguments.
pub proof fn law_arguments_hold_the_input(input: Seq<char>)
    ensures
        tool_arguments(input) is None <==> input == "null"@,
        tool_arguments(input) matches Some(args) ==> {
            &&& args.len() > 0 && args[0] == '{'
            &&& has_substring(args, input)
            &&& input.len() > 0 && input[0] == '{' ==> args == input
            &&& input.len() == 0 || input[0] != '{' ==> args.len() == "{\"input\":"@.len()
                + input.len() + 1 && args.last() == '}'
        },
{
    reveal_strlit("null");
    reveal_strlit("{\"input\":");
    reveal_strlit("}");
    if input != "null"@ {
        let args = tool_arguments(input)->0;
        if input.len() > 0 && input[0] == '{' {
            assert(args.subrange(0, 0 + input.len() as int) =~= input);
            assert(occurs_at(args, input, 0));
        } else {
            let p = "{\"input\":"@.len() as int;
            assert(args.subrange(p, p + input.len()) =~= input);
            assert(occurs_at(args, input, p));
        }
    }
}

} // verus!
