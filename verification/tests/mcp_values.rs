use relay::mcp::limits::MCP_ALIAS_MAX_LEN;
use relay::mcp::types::{
    McpHeaderName, McpHeaderValue, McpHttpUrl, McpServerAlias, McpTransport, McpTransportInput,
};

#[test]
fn alias_rejects_uppercase_and_spaces() {
    assert!(McpServerAlias::try_from("hello").is_ok());
    assert!(McpServerAlias::try_from("h-1_2").is_ok());
    assert!(McpServerAlias::try_from("Hello").is_err());
    assert!(McpServerAlias::try_from("hi there").is_err());
    assert!(McpServerAlias::try_from("").is_err());
    assert!(McpServerAlias::try_from("a".repeat(MCP_ALIAS_MAX_LEN + 1).as_str()).is_err());
}

#[test]
fn url_requires_http_scheme_and_host() {
    assert!(McpHttpUrl::try_from("https://example.com/mcp").is_ok());
    assert!(McpHttpUrl::try_from("http://localhost:9000").is_ok());
    assert!(McpHttpUrl::try_from("file:///etc/passwd").is_err());
    assert!(McpHttpUrl::try_from("not a url").is_err());
    assert!(McpHttpUrl::try_from("").is_err());
}

#[test]
fn header_name_rejects_separators_and_controls() {
    assert!(McpHeaderName::try_from("Authorization".to_owned()).is_ok());
    assert!(McpHeaderName::try_from("X-Custom_Header".to_owned()).is_ok());
    assert!(McpHeaderName::try_from("bad header".to_owned()).is_err());
    assert!(McpHeaderName::try_from("bad/header".to_owned()).is_err());
    assert!(McpHeaderName::try_from(String::new()).is_err());
}

#[test]
fn header_name_is_canonicalised_to_lowercase() {
    let upper = McpHeaderName::try_from("Authorization".to_owned()).expect("valid");
    let lower = McpHeaderName::try_from("authorization".to_owned()).expect("valid");
    assert_eq!(upper.as_str(), "authorization");
    assert_eq!(upper, lower);
}

#[test]
fn header_value_rejects_crlf() {
    assert!(McpHeaderValue::try_from("Bearer abc.def".to_owned()).is_ok());
    assert!(McpHeaderValue::try_from("oops\r\nInjected: 1".to_owned()).is_err());
    assert!(McpHeaderValue::try_from("nul\0byte".to_owned()).is_err());
}

#[test]
fn transport_round_trips_through_serde() {
    let original = McpTransport::Http {
        url: McpHttpUrl::try_from("https://example.com/mcp").expect("valid"),
    };
    let round = McpTransport::try_from(original.written()).expect("read back");
    assert_eq!(round, original);
}

#[test]
fn transport_rejects_unknown_scheme_via_serde() {
    let res = McpTransport::try_from(McpTransportInput::Http { url: "ftp://x".to_owned() });
    assert!(res.is_err());
}
