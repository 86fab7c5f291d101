//! Who is logged in, and in which organisation.

use crate::auth::{AuthError, Language, OrgMembership, Principal, Role, User};
use crate::http::cookies::{
    build_csrf_cookie, build_expired_csrf_cookie, build_expired_session_cookie,
    build_session_cookie, CookieSpec,
};
use crate::http::csrf::{csrf_shaped, mint_csrf_token, needs_csrf, seen};
use crate::http::error::HttpError;
use crate::ids::{OrgId, UserId};
use vstd::prelude::*;

verus! {

/// A user, as the web app sees them.
#[derive(Debug)]
pub struct UserView {
    pub id: UserId,
    pub email: String,
    pub display_name: Option<String>,
    pub avatar_url: Option<String>,
}

/// An organisation of the user, as the web app sees it.
#[derive(Debug)]
pub struct OrgView {
    pub id: OrgId,
    pub name: String,
    pub slug: String,
    pub role: Role,
    pub default_language: Language,
}

/// Who is logged in.
#[derive(Debug)]
pub struct MeResponse {
    pub user: UserView,
    pub orgs: Vec<OrgView>,
    pub active_org_id: OrgId,
    pub role: Role,
}

/// `v` shows `u`.
pub open spec fn shows_user(v: UserView, u: User) -> bool {
    &&& v.id == u.id
    &&& v.email@ == u.email@
    &&& v.display_name == u.display_name
    &&& v.avatar_url == u.avatar_url
}

/// `v` shows `m`.
pub open spec fn shows_org(v: OrgView, m: OrgMembership) -> bool {
    &&& v.id == m.org_id
    &&& v.name@ == m.org_name@
    &&& v.slug@ == m.org_slug@
    &&& v.role == m.role
    &&& v.default_language == m.default_language
}

/// A user, as the web app sees them.
pub fn view_user(u: User) -> (v: UserView)
    ensures
        shows_user(v, u),
{
    UserView {
        id: u.id,
        email: u.email.as_str().to_owned(),
        display_name: u.display_name,
        avatar_url: u.avatar_url,
    }
}

/// An organisation of the user, as the web app sees it.
pub fn view_org(m: &OrgMembership) -> (v: OrgView)
    ensures
        shows_org(v, *m),
{
    OrgView {
        id: m.org_id,
        name: m.org_name.clone(),
        slug: m.org_slug.as_str().to_owned(),
        role: m.role,
        default_language: m.default_language,
    }
}

/// Answers who is logged in. A browser without a token that could be taken gets a
/// new one; one that has such a token keeps it.
pub fn me(
    principal: Principal,
    user: Option<User>,
    orgs: &Vec<OrgMembership>,
    csrf_cookie: Option<&str>,
    secure: bool,
    ttl_secs: i64,
) -> (r: Result<(MeResponse, Option<CookieSpec>), HttpError>)
    ensures
        match user {
            None => r == Err::<(MeResponse, Option<CookieSpec>), HttpError>(
                HttpError::Auth(AuthError::Unauthenticated),
            ),
            Some(user) => r matches Ok((body, cookie)) && {
                &&& shows_user(body.user, user)
                &&& body.orgs@.len() == orgs@.len()
                &&& forall|i: int|
                    0 <= i < orgs@.len() ==> shows_org(#[trigger] body.orgs@[i], orgs@[i])
                &&& body.active_org_id == principal.active_org_id
                &&& body.role == principal.role
                &&& match cookie {
                    Some(c) => csrf_shaped(c.value@) && c.is_csrf(c.value@, secure, ttl_secs),
                    None => true,
                }
                &&& cookie is None <==> (seen(csrf_cookie) matches Some(c) && csrf_shaped(c))
            },
        },
{
    match user {
        None => Err(HttpError::Auth(AuthError::Unauthenticated)),
        Some(user) => {
            let cookie = if needs_csrf(csrf_cookie) {
                Some(build_csrf_cookie(mint_csrf_token(), secure, ttl_secs))
            } else {
                None
            };
            let mut views: Vec<OrgView> = Vec::new();
            let mut i: usize = 0;
            while i < orgs.len()
                invariant
                    i <= orgs@.len(),
                    views@.len() == i,
                    forall|j: int| 0 <= j < i ==> shows_org(#[trigger] views@[j], orgs@[j]),
                decreases orgs.len() - i,
            {
                views.push(view_org(&orgs[i]));
                i += 1;
            }
            Ok(
                (
                    MeResponse {
                        user: view_user(user),
                        orgs: views,
                        active_org_id: principal.active_org_id,
                        role: principal.role,
                    },
                    cookie,
                ),
            )
        },
    }
}

/// The cookies that end a session: that of the session, and that of the CSRF
/// token.
pub fn logout(secure: bool) -> (r: (CookieSpec, CookieSpec))
    ensures
        r.0.is_session(Seq::empty(), secure, 0),
        r.1.is_csrf(Seq::empty(), secure, 0),
{
    (build_expired_session_cookie(secure), build_expired_csrf_cookie(secure))
}

/// The role that a user has in the organisation `org` that they change to: only
/// a member may.
pub fn switch_role(org: OrgId, membership: Option<Role>) -> (r: Result<Role, HttpError>)
    ensures
        match membership {
            Some(role) => r == Ok::<Role, HttpError>(role),
            None => r == Err::<Role, HttpError>(HttpError::Auth(AuthError::NotMember(org))),
        },
{
    match membership {
        Some(role) => Ok(role),
        None => Err(HttpError::Auth(AuthError::NotMember(org))),
    }
}

/// The cookies of a session that starts with `token`: both are new.
pub fn switch_org(token: String, secure: bool, ttl_secs: i64) -> (r: (CookieSpec, CookieSpec))
    ensures
        r.0.is_session(token@, secure, ttl_secs),
        csrf_shaped(r.1.value@),
        r.1.is_csrf(r.1.value@, secure, ttl_secs),
{
    (
        build_session_cookie(token, secure, ttl_secs),
        build_csrf_cookie(mint_csrf_token(), secure, ttl_secs),
    )
}

/// Whether the language of the organisation may be changed: owners and admins
/// may, since it is that of everybody in it.
pub fn set_org_language(principal: Principal) -> (r: Result<(), HttpError>)
    ensures
        match principal.role {
            Role::Member => r matches Err(HttpError::Forbidden(s)) && s@
                == "owner or admin role required"@,
            _ => r is Ok,
        },
{
    match principal.role {
        Role::Owner => Ok(()),
        Role::Admin => Ok(()),
        Role::Member => Err(HttpError::Forbidden("owner or admin role required")),
    }
}

/// The web app sees the user and their organisations as they are.
pub proof fn law_user_and_organisations_are_shown(u: UserView, user: User, v: OrgView, m: OrgMembership)
    requires
        shows_user(u, user),
        shows_org(v, m),
    ensures
        u.id == user.id && u.email@ == user.email@,
        u.display_name == user.display_name && u.avatar_url == user.avatar_url,
        v.id == m.org_id && v.name@ == m.org_name@ && v.slug@ == m.org_slug@,
        v.role == m.role && v.default_language == m.default_language,
{
}

} // verus!
