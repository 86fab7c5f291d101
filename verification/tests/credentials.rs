use relay::ids::{McpServerId, OrgId};
use relay::mcp::client::{call_arguments, connect_header, connect_headers};
use relay::mcp::credentials::{
    open_payload, seal_payload, CredentialPayload, CredentialRow, McpHeaders, OAuth2Payload,
    MAX_CREDENTIAL_PLAINTEXT,
};
use relay::chat::ToolInput;
use relay::mcp::error::McpError;
use relay::mcp::types::{McpHeaderName, McpHeaderValue};
use relay::time::Timestamp;

fn name(s: &str) -> McpHeaderName {
    McpHeaderName::try_from(s.to_owned()).expect("valid")
}

fn value(s: &str) -> McpHeaderValue {
    McpHeaderValue::try_from(s.to_owned()).expect("valid")
}

fn tokens(access: &str) -> OAuth2Payload {
    OAuth2Payload {
        access_token: access.to_owned(),
        refresh_token: None,
        expires_at: Timestamp::from_secs(1_700_000_000).expect("in the calendar"),
        scope: None,
        issuer: "https://issuer.example".to_owned(),
        token_endpoint: "https://issuer.example/token".to_owned(),
    }
}

#[test]
fn static_headers_roundtrip() {
    let mut headers = McpHeaders::new();
    headers.insert(name("authorization"), value("Bearer sk-test-xyz"));
    let p = CredentialPayload::StaticHeaders { headers };
    let encoded = b"encoded".to_vec();
    let (kind, blob) = seal_payload(&p, Ok(encoded.clone())).expect("seal");
    assert_eq!(kind, "static_headers");
    assert_eq!(blob, encoded);
    let back = open_payload(&kind, Ok(p)).expect("open");
    match back {
        CredentialPayload::StaticHeaders { headers } => {
            let v = headers.get(&name("authorization")).expect("header preserved");
            assert_eq!(v.as_str(), "Bearer sk-test-xyz");
        }
        CredentialPayload::Oauth2(_) => panic!("variant mismatch"),
    }
}

#[test]
fn kind_mismatch_is_rejected() {
    let p = CredentialPayload::StaticHeaders { headers: McpHeaders::new() };
    let err = open_payload("oauth2", Ok(p)).expect_err("kind mismatch");
    assert!(matches!(err, McpError::Backend(_)));
    assert_eq!(
        err.message(),
        "mcp store backend error: credential kind/oauth2 mismatches payload/static_headers"
    );
}

#[test]
fn a_payload_that_cannot_be_encoded_or_is_too_long_is_not_sealed() {
    let p = CredentialPayload::Oauth2(tokens("t"));
    let err = seal_payload(&p, Err("no".to_owned())).expect_err("encode");
    assert_eq!(err.message(), "mcp store backend error: encode credential: no");
    let err = seal_payload(&p, Ok(vec![0; MAX_CREDENTIAL_PLAINTEXT + 1])).expect_err("too long");
    assert_eq!(
        err.message(),
        "config rejected: credential payload exceeds 65536 bytes"
    );
    let (kind, _) = seal_payload(&p, Ok(vec![0; MAX_CREDENTIAL_PLAINTEXT])).expect("fits");
    assert_eq!(kind, "oauth2");
    let err = open_payload("oauth2", Err("garbled".to_owned())).expect_err("decode");
    assert_eq!(err.message(), "mcp store backend error: decode credential: garbled");
}

#[test]
fn a_later_header_replaces_an_earlier_one_of_its_name() {
    let mut headers = McpHeaders::new();
    headers.insert(name("X-Key"), value("one"));
    headers.insert(name("x-other"), value("two"));
    headers.insert(name("x-key"), value("three"));
    assert_eq!(headers.len(), 2);
    assert_eq!(headers.get(&name("X-KEY")).map(|v| v.as_str()), Some("three"));
    assert!(headers.get(&name("x-none")).is_none());
    assert_eq!(headers.at(0).0.as_str(), "x-key");
}

#[test]
fn a_row_needs_a_whole_nonce() {
    let mut row = CredentialRow {
        server_id: McpServerId::new(),
        org_id: OrgId::new(),
        kind: "oauth2".to_owned(),
        ciphertext: vec![1, 2, 3],
        nonce: (0u8..12).collect(),
        key_version: 4,
    };
    let blob = row.blob().expect("whole");
    assert_eq!(blob.nonce, [0, 1, 2, 3, 4, 5, 6, 7, 8, 9, 10, 11]);
    assert_eq!(blob.ciphertext, vec![1, 2, 3]);
    assert_eq!(blob.key_version, 4);
    row.nonce.pop();
    assert_eq!(
        row.blob().expect_err("short").message(),
        "mcp store backend error: credential nonce: wrong byte length"
    );
    assert_eq!(
        row.oauth2_blob().expect_err("short").message(),
        "misconfigured: credential nonce wrong length"
    );
    let server = row.server_id;
    let rec = row.into_record(Ok(CredentialPayload::Oauth2(tokens("t")))).expect("record");
    assert_eq!(rec.server_id, server);
    assert_eq!(rec.payload.kind_label(), "oauth2");
}

#[test]
fn static_headers_are_always_sendable() {
    let mut headers = McpHeaders::new();
    headers.insert(name("X-Api-Key"), value("a b\tc"));
    let p = CredentialPayload::StaticHeaders { headers };
    let sent = connect_headers(Some(&p)).expect("validated");
    assert_eq!(sent, vec![("x-api-key".to_owned(), "a b\tc".to_owned())]);
    assert!(connect_headers(None).expect("none").is_empty());
}

#[test]
fn an_access_token_goes_as_a_bearer_token() {
    let p = CredentialPayload::Oauth2(tokens("abc"));
    assert_eq!(
        connect_headers(Some(&p)).expect("sendable"),
        vec![("authorization".to_owned(), "Bearer abc".to_owned())]
    );
    let bad = CredentialPayload::Oauth2(tokens("a\nb"));
    assert_eq!(
        connect_headers(Some(&bad)).expect_err("control character").message(),
        "config rejected: header value rejected: failed to parse header value"
    );
}

#[test]
fn header_names_and_values_are_checked_before_they_are_sent() {
    assert_eq!(
        connect_header("X-Name", "caf\u{e9}").expect("taken"),
        ("x-name".to_owned(), "caf\u{e9}".to_owned())
    );
    assert_eq!(
        connect_header("bad name", "v").expect_err("space").message(),
        "config rejected: header name `bad name`: invalid HTTP header name"
    );
    assert!(connect_header("", "v").is_err());
    assert!(connect_header(&"a".repeat(65_535), "v").is_ok());
    assert!(connect_header(&"a".repeat(65_536), "v").is_err());
    assert!(connect_header("x", "\u{7f}").is_err());
    assert!(connect_header("x", "").is_ok());
}

#[test]
fn tool_input_becomes_an_arguments_object() {
    let args = |raw: &str| call_arguments(&ToolInput::from_json(raw).expect("json"));
    assert_eq!(args(" null "), None);
    assert_eq!(args("{ \"a\" : 1 }"), Some("{\"a\":1}".to_owned()));
    assert_eq!(args("[1, 2]"), Some("{\"input\":[1,2]}".to_owned()));
    assert_eq!(args("\"{\""), Some("{\"input\":\"{\"}".to_owned()));
}
