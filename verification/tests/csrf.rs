use relay::auth::CSRF_TOKEN_MAX_LEN;
use relay::http::csrf::{
    constant_time_eq, mint_csrf_token, needs_csrf, require_csrf, CsrfError,
};

#[test]
fn constant_time_eq_matches_eq_for_equal_inputs() {
    assert!(constant_time_eq(b"abc", b"abc"));
    assert!(constant_time_eq(b"", b""));
}

#[test]
fn constant_time_eq_rejects_different_inputs() {
    assert!(!constant_time_eq(b"abc", b"abd"));
    assert!(!constant_time_eq(b"abc", b"abcd"));
    assert!(!constant_time_eq(b"abc", b""));
}

#[test]
fn mint_csrf_token_produces_nonempty_url_safe_value() {
    let t = mint_csrf_token();
    assert!(!t.is_empty());
    assert!(
        t.len() <= CSRF_TOKEN_MAX_LEN,
        "mint exceeded {CSRF_TOKEN_MAX_LEN} chars: {t}"
    );
    assert!(t
        .chars()
        .all(|c| c.is_ascii_alphanumeric() || c == '_' || c == '-'));
}

#[test]
fn minted_tokens_differ_and_have_their_length() {
    let a = mint_csrf_token();
    let b = mint_csrf_token();
    assert_eq!(a.len(), 22);
    assert_ne!(a, b);
}

#[test]
fn safe_methods_need_no_token() {
    for method in ["GET", "HEAD", "OPTIONS"] {
        assert_eq!(require_csrf(method, None, None), Ok(()));
    }
    assert_eq!(require_csrf("get", None, None), Err(CsrfError::Missing));
}

#[test]
fn an_echoed_token_passes() {
    let t = mint_csrf_token();
    assert_eq!(require_csrf("POST", Some(&t), Some(&t)), Ok(()));
    assert_eq!(require_csrf("DELETE", Some(&t), Some(&t)), Ok(()));
}

#[test]
fn only_the_token_of_the_cookie_passes() {
    assert_eq!(require_csrf("POST", None, Some("abc")), Err(CsrfError::Missing));
    assert_eq!(require_csrf("POST", Some("abc"), None), Err(CsrfError::Missing));
    assert_eq!(require_csrf("POST", Some("abc"), Some("abd")), Err(CsrfError::Mismatch));
    assert_eq!(require_csrf("POST", Some(""), Some("")), Err(CsrfError::Mismatch));
    let long = "a".repeat(CSRF_TOKEN_MAX_LEN + 1);
    assert_eq!(require_csrf("POST", Some(&long), Some(&long)), Err(CsrfError::Mismatch));
    let cap = "a".repeat(CSRF_TOKEN_MAX_LEN);
    assert_eq!(require_csrf("POST", Some(&cap), Some(&cap)), Ok(()));
}

#[test]
fn refusals_are_answered_with_403() {
    assert_eq!(
        CsrfError::Missing.into_response(),
        (403, "csrf token missing from request".to_owned())
    );
    assert_eq!(
        CsrfError::Mismatch.into_response(),
        (403, "csrf token mismatch".to_owned())
    );
}

#[test]
fn a_malformed_cookie_is_repaired() {
    assert!(needs_csrf(None));
    assert!(needs_csrf(Some("")));
    assert!(needs_csrf(Some(&"a".repeat(CSRF_TOKEN_MAX_LEN + 1))));
    assert!(!needs_csrf(Some("abc")));
}
