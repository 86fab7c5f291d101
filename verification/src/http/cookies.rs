//! Cookies that the server sets.

use crate::auth::{COOKIE_NAME, CSRF_COOKIE_NAME};
use vstd::prelude::*;

verus! {

/// Whether a cookie goes along with requests from other sites.
#[derive(Clone, Copy, Debug, PartialEq, Eq, Structural)]
pub enum SameSite {
    /// Never.
    Strict,
    /// With navigation only.
    Lax,
}

/// A cookie to set.
#[derive(Debug)]
pub struct CookieSpec {
    pub name: String,
    pub value: String,
    /// Whether scripts are kept from reading it.
    pub http_only: bool,
    pub path: String,
    pub same_site: SameSite,
    /// Whether it is sent over `https` only.
    pub secure: bool,
    /// Seconds until it expires.
    pub max_age_secs: i64,
}

impl CookieSpec {
    /// The cookie `name` with `value`, for the whole site.
    pub open spec fn sets(
        self,
        name: Seq<char>,
        value: Seq<char>,
        http_only: bool,
        secure: bool,
        max_age_secs: i64,
    ) -> bool {
        &&& self.name@ == name
        &&& self.value@ == value
        &&& self.http_only == http_only
        &&& self.path@ == "/"@
        &&& self.same_site == SameSite::Lax
        &&& self.secure == secure
        &&& self.max_age_secs == max_age_secs
    }

    /// The cookie of a session. Scripts cannot read it.
    pub open spec fn is_session(self, token: Seq<char>, secure: bool, ttl_secs: i64) -> bool {
        self.sets(COOKIE_NAME@, token, true, secure, ttl_secs)
    }

    /// The cookie of a CSRF token. Scripts of the web app have to read it.
    pub open spec fn is_csrf(self, token: Seq<char>, secure: bool, ttl_secs: i64) -> bool {
        self.sets(CSRF_COOKIE_NAME@, token, false, secure, ttl_secs)
    }
}

fn site_cookie(name: &str, value: String, http_only: bool, secure: bool, max_age_secs: i64) -> (c:
    CookieSpec)
    ensures
        c.sets(name@, value@, http_only, secure, max_age_secs),
{
    CookieSpec {
        name: name.to_owned(),
        value,
        http_only,
        path: "/".to_owned(),
        same_site: SameSite::Lax,
        secure,
        max_age_secs,
    }
}

/// The cookie of a session.
pub fn build_session_cookie(token: String, secure: bool, ttl_secs: i64) -> (c: CookieSpec)
    ensures
        c.is_session(token@, secure, ttl_secs),
{
    site_cookie(COOKIE_NAME, token, true, secure, ttl_secs)
}

/// The cookie that ends a session.
pub fn build_expired_session_cookie(secure: bool) -> (c: CookieSpec)
    ensures
        c.is_session(Seq::empty(), secure, 0),
{
    let empty = String::new();
    proof {
        assert(empty@ =~= Seq::empty());
    }
    site_cookie(COOKIE_NAME, empty, true, secure, 0)
}

/// The cookie of a CSRF token. It expires together with the session.
pub fn build_csrf_cookie(token: String, secure: bool, ttl_secs: i64) -> (c: CookieSpec)
    ensures
        c.is_csrf(token@, secure, ttl_secs),
{
    site_cookie(CSRF_COOKIE_NAME, token, false, secure, ttl_secs)
}

/// The cookie that takes a CSRF token back.
pub fn build_expired_csrf_cookie(secure: bool) -> (c: CookieSpec)
    ensures
        c.is_csrf(Seq::empty(), secure, 0),
{
    let empty = String::new();
    proof {
        assert(empty@ =~= Seq::empty());
    }
    site_cookie(CSRF_COOKIE_NAME, empty, false, secure, 0)
}

/// Both cookies hold their token for the whole site and for as long as they are told, are not
/// sent along from other sites but for navigation, and are kept to `https` where that is
/// asked. Only the one of the session is kept from scripts.
pub proof fn law_cookies_hold_their_token(
    c: CookieSpec,
    token: Seq<char>,
    secure: bool,
    ttl_secs: i64,
)
    requires
        c.is_session(token, secure, ttl_secs) || c.is_csrf(token, secure, ttl_secs),
    ensures
        c.value@ == token,
        c.secure == secure,
        c.max_age_secs == ttl_secs,
        c.path@ == "/"@,
        c.same_site == SameSite::Lax,
        c.is_session(token, secure, ttl_secs) ==> c.http_only && c.name@ == COOKIE_NAME@,
        c.is_csrf(token, secure, ttl_secs) ==> !c.http_only && c.name@ == CSRF_COOKIE_NAME@,
{
}

} // verus!
