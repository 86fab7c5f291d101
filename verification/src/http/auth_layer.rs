//! Who a request comes from.

use crate::auth::{AuthError, Claims, Principal, Role};
use crate::http::error::HttpError;
use vstd::prelude::*;

verus! {

/// The session token that a request brings in its cookie: there must be one.
pub fn session_token(cookie: Option<&str>) -> (r: Result<String, HttpError>)
    ensures
        match cookie {
            Some(c) => r matches Ok(t) && t@ == c@,
            None => r == Err::<String, HttpError>(HttpError::Auth(AuthError::Unauthenticated)),
        },
{
    match cookie {
        Some(c) => Ok(c.to_owned()),
        None => Err(HttpError::Auth(AuthError::Unauthenticated)),
    }
}

/// What a verified session token claims. Why one is not valid is not told.
pub fn verified_claims(verified: Result<Claims, AuthError>) -> (r: Result<Claims, HttpError>)
    ensures
        match verified {
            Ok(claims) => r == Ok::<Claims, HttpError>(claims),
            Err(_) => r == Err::<Claims, HttpError>(HttpError::Auth(AuthError::Unauthenticated)),
        },
{
    match verified {
        Ok(claims) => Ok(claims),
        Err(_) => Err(HttpError::Auth(AuthError::Unauthenticated)),
    }
}

/// Who a request with these claims comes from, given the role of the user in the
/// organisation: who is no member is turned away like who is not logged in.
pub fn require_principal(claims: Claims, role: Option<Role>) -> (r: Result<Principal, HttpError>)
    ensures
        match role {
            Some(role) => r == Ok::<Principal, HttpError>(
                Principal { user_id: claims.sub, active_org_id: claims.org, role },
            ),
            None => r == Err::<Principal, HttpError>(HttpError::Auth(AuthError::Unauthenticated)),
        },
{
    match role {
        Some(role) => Ok(Principal { user_id: claims.sub, active_org_id: claims.org, role }),
        None => Err(HttpError::Auth(AuthError::Unauthenticated)),
    }
}

/// A handler was reached without anyone having found out who the request comes
/// from.
#[derive(Clone, Copy, Debug, PartialEq, Eq)]
pub struct MissingPrincipal;

impl MissingPrincipal {
    /// What is answered: it is a fault of the server.
    pub fn into_response(self) -> (r: (u16, String))
        ensures
            r.0 == 500,
            r.1@ == "principal missing — auth layer not applied"@,
    {
        (500, "principal missing — auth layer not applied".to_owned())
    }
}

/// Who a handler was reached by, given what was found out.
pub fn extract_principal(found: Option<Principal>) -> (r: Result<Principal, MissingPrincipal>)
    ensures
        match found {
            Some(p) => r == Ok::<Principal, MissingPrincipal>(p),
            None => r == Err::<Principal, MissingPrincipal>(MissingPrincipal),
        },
{
    match found {
        Some(p) => Ok(p),
        None => Err(MissingPrincipal),
    }
}

} // verus!
