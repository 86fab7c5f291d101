//! Logging in with the login provider.
//!
//! A login goes out to the provider with a new state and proof key, and comes
//! back with the state and a code. What the callback takes is done outside, one
//! step after the other: [`CallbackRun`] says which is next.

use crate::auth::{OAuthState, OAuthStateRow, OrgMembership, User, OAUTH_STATE_TTL};
use crate::http::cookies::{build_csrf_cookie, build_session_cookie, CookieSpec};
use crate::http::csrf::{csrf_shaped, mint_csrf_token};
use crate::http::error::HttpError;
use crate::ids::{OrgId, UserId};
use crate::text::{byte_len, chars_of, starts_with_text, text2, text_of, utf8_len};
use crate::time::{in_calendar, Timestamp};
use vstd::prelude::*;

verus! {

/// Maximum bytes of the place to which a login returns.
pub const RETURN_TO_MAX_BYTES: usize = 2048;

/// A place on this site: a path, and not one that names a host.
pub open spec fn safe_return(s: Seq<char>) -> bool {
    &&& "/"@.is_prefix_of(s)
    &&& !"//"@.is_prefix_of(s)
    &&& utf8_len(s) <= RETURN_TO_MAX_BYTES
}

/// Keeps the place to which a login returns, if it is on this site: a login
/// leads nowhere else.
pub fn sanitize_return_to(raw: &str) -> (r: Option<String>)
    ensures
        match r {
            Some(s) => safe_return(raw@) && s@ == raw@,
            None => !safe_return(raw@),
        },
{
    if starts_with_text(raw, "/") && !starts_with_text(raw, "//") && byte_len(raw)
        <= RETURN_TO_MAX_BYTES {
        Some(raw.to_owned())
    } else {
        None
    }
}

/// Starts a login: what is kept of it until the callback.
pub fn login(
    return_to: Option<&str>,
    state: String,
    pkce_verifier: String,
    now: Timestamp,
) -> (row: OAuthStateRow)
    requires
        in_calendar(now@ + OAUTH_STATE_TTL * 1_000_000),
    ensures
        row.state == state,
        row.pkce_verifier == pkce_verifier,
        match row.redirect_to {
            Some(s) => return_to matches Some(raw) && safe_return(raw@) && s@ == raw@,
            None => !(return_to matches Some(raw) && safe_return(raw@)),
        },
        row.created_at == now,
        row.expires_at@ == now@ + OAUTH_STATE_TTL * 1_000_000,
{
    let redirect_to = match return_to {
        Some(raw) => sanitize_return_to(raw),
        None => None,
    };
    let expires_at = match now.plus_micros(600_000_000) {
        Some(t) => t,
        None => now,
    };
    OAuthStateRow { state, pkce_verifier, redirect_to, created_at: now, expires_at }
}

/// What the provider sends the browser back with.
#[derive(Debug)]
pub struct CallbackQuery {
    pub code: String,
    pub state: String,
    /// Why the user was not logged in.
    pub error: Option<String>,
}

/// What is to be done next for a callback.
#[allow(inconsistent_fields)]
#[derive(Debug)]
pub enum CallbackAction {
    /// Take the login that is under way under the state.
    ConsumeState { state: OAuthState },
    /// Exchange the code for the profile of the user.
    Exchange { code: String, pkce_verifier: String },
    /// Create or update the user with that profile.
    UpsertUser,
    /// List the organisations of the user.
    ListOrgs { user: UserId },
    /// Create an organisation for the user alone.
    CreatePersonalOrg { user: UserId, slug_seed: String, display: String },
    /// Create the default agent of the organisation.
    SeedDefaultAgent { org: OrgId },
    /// Make a session token.
    MintToken { user: UserId, org: OrgId },
    /// Set the cookies, and send the browser on.
    Finish { session: CookieSpec, csrf: CookieSpec, location: String },
}

/// What came of the action before.
#[derive(Debug)]
pub enum CallbackReply {
    /// The login that was under way.
    Consumed { pkce_verifier: String, redirect_to: Option<String> },
    /// The code was exchanged.
    Exchanged,
    /// The user.
    Upserted { user: User },
    /// The organisations of the user.
    Orgs { orgs: Vec<OrgMembership> },
    /// The organisation that was created.
    OrgCreated { org: OrgId },
    /// The default agent is there.
    Seeded,
    /// The session token, whether cookies are for `https` only, and how many
    /// seconds they last.
    Minted { token: String, secure: bool, ttl_secs: i64 },
}

/// Where a callback stands.
#[derive(Clone, Copy, Debug, PartialEq, Eq, Structural)]
pub enum CallbackStage {
    Consuming,
    Exchanging,
    Upserting,
    Listing,
    Creating,
    Seeding,
    Minting,
    Over,
}

/// A callback that is under way.
#[derive(Debug)]
pub struct CallbackRun {
    stage: CallbackStage,
    code: String,
    redirect_to: Option<String>,
    user: Option<User>,
    org: Option<OrgId>,
}

/// What stands before the first `@` of `s`.
pub open spec fn local_part(s: Seq<char>) -> Seq<char>
    decreases s.len(),
{
    if s.len() == 0 || s[0] == '@' {
        Seq::empty()
    } else {
        seq![s[0]] + local_part(s.drop_first())
    }
}

fn before_at(s: &str) -> (r: String)
    ensures
        r@ == local_part(s@),
{
    let chars = chars_of(s);
    let mut n: usize = 0;
    proof {
        assert(s@.skip(0) =~= s@);
        assert(s@.take(0) + local_part(s@) =~= local_part(s@));
    }
    while n < chars.len() && chars[n] != '@'
        invariant
            n <= chars@.len(),
            chars@ == s@,
            local_part(s@) == s@.take(n as int) + local_part(s@.skip(n as int)),
        decreases chars.len() - n,
    {
        proof {
            let rest = s@.skip(n as int);
            assert(rest.drop_first() =~= s@.skip(n + 1));
            assert(rest[0] == s@[n as int]);
            assert(s@.take(n + 1) =~= s@.take(n as int).push(s@[n as int]));
            assert(s@.take(n as int) + (seq![rest[0]] + local_part(rest.drop_first()))
                =~= s@.take(n + 1) + local_part(s@.skip(n + 1)));
        }
        n += 1;
    }
    let out = text_of(&chars, 0, n);
    proof {
        let rest = s@.skip(n as int);
        if n < s@.len() {
            assert(rest[0] == s@[n as int]);
        }
        assert(local_part(rest) =~= Seq::empty());
        assert(out@ =~= s@.take(n as int) + local_part(rest));
    }
    out
}

/// How an organisation that is made for `user` alone is called.
pub open spec fn personal_name(user: User) -> Seq<char> {
    match user.display_name {
        Some(name) => name@,
        None => user.email@,
    }
}

/// Starts a callback. A login that the user broke off is reported; the state must
/// have the form of one.
pub fn callback(query: CallbackQuery) -> (r: Result<(CallbackRun, CallbackAction), HttpError>)
    ensures
        match query.error {
            Some(err) => r matches Err(HttpError::BadRequest(s)) && s@ == "oauth: "@ + err@,
            None => match OAuthState::refusal(query.state@) {
                Some(e) => r == Err::<(CallbackRun, CallbackAction), HttpError>(HttpError::Parse(e)),
                None => r matches Ok((run, action)) && {
                    &&& run.stage() == CallbackStage::Consuming
                    &&& run.wf()
                    &&& run.code() == query.code@
                    &&& action matches CallbackAction::ConsumeState { state } && state@
                        == query.state@
                },
            },
        },
{
    if let Some(err) = &query.error {
        return Err(HttpError::BadRequest(text2("oauth: ", err.as_str())));
    }
    match OAuthState::try_from(query.state.as_str()) {
        Err(e) => Err(HttpError::Parse(e)),
        Ok(state) => Ok(
            (
                CallbackRun {
                    stage: CallbackStage::Consuming,
                    code: query.code,
                    redirect_to: None,
                    user: None,
                    org: None,
                },
                CallbackAction::ConsumeState { state },
            ),
        ),
    }
}

impl CallbackRun {
    /// Where the callback stands.
    pub closed spec fn stage(self) -> CallbackStage {
        self.stage
    }

    /// The code that it brought.
    pub closed spec fn code(self) -> Seq<char> {
        self.code@
    }

    /// Where the browser goes afterwards, if that was said.
    pub closed spec fn redirect_to(self) -> Option<String> {
        self.redirect_to
    }

    /// The user who logs in, once that is known.
    pub closed spec fn user(self) -> Option<User> {
        self.user
    }

    /// The organisation that was created, once it is.
    pub closed spec fn org(self) -> Option<OrgId> {
        self.org
    }

    /// The user is known from the moment on at which organisations are listed,
    /// and the organisation that was created while its agent is.
    pub open spec fn wf(self) -> bool {
        &&& match self.stage() {
            CallbackStage::Consuming => true,
            CallbackStage::Exchanging => true,
            CallbackStage::Upserting => true,
            _ => self.user() is Some,
        }
        &&& self.stage() == CallbackStage::Seeding ==> self.org() is Some
    }

    /// Whether `reply` answers what was last asked for.
    pub open spec fn expects(self, reply: CallbackReply) -> bool {
        match self.stage() {
            CallbackStage::Consuming => reply is Consumed,
            CallbackStage::Exchanging => reply is Exchanged,
            CallbackStage::Upserting => reply is Upserted,
            CallbackStage::Listing => reply is Orgs,
            CallbackStage::Creating => reply is OrgCreated,
            CallbackStage::Seeding => reply is Seeded,
            CallbackStage::Minting => reply is Minted,
            CallbackStage::Over => false,
        }
    }

    /// What `reply` leads to.
    pub open spec fn steps(self, reply: CallbackReply, after: CallbackRun, action: CallbackAction) -> bool {
        &&& after.code() == self.code()
        &&& !(reply is Consumed) ==> after.redirect_to() == self.redirect_to()
        &&& !(reply is Upserted) ==> after.user() == self.user()
        &&& match reply {
            CallbackReply::Consumed { pkce_verifier, redirect_to } => {
                &&& after.stage() == CallbackStage::Exchanging
                &&& after.redirect_to() == redirect_to
                &&& action matches CallbackAction::Exchange { code, pkce_verifier: v }
                &&& code@ == self.code()
                &&& v == pkce_verifier
            },
            CallbackReply::Exchanged => {
                &&& after.stage() == CallbackStage::Upserting
                &&& action is UpsertUser
            },
            CallbackReply::Upserted { user } => {
                &&& after.stage() == CallbackStage::Listing
                &&& after.user() == Some(user)
                &&& action == (CallbackAction::ListOrgs { user: user.id })
            },
            CallbackReply::Orgs { orgs } => {
                let user = self.user()->0;
                if orgs@.len() > 0 {
                    &&& after.stage() == CallbackStage::Minting
                    &&& action == (CallbackAction::MintToken { user: user.id, org: orgs@[0].org_id })
                } else {
                    &&& after.stage() == CallbackStage::Creating
                    &&& action matches CallbackAction::CreatePersonalOrg { user: u, slug_seed, display }
                    &&& u == user.id
                    &&& slug_seed@ == local_part(user.email@)
                    &&& display@ == personal_name(user)
                }
            },
            CallbackReply::OrgCreated { org } => {
                &&& after.stage() == CallbackStage::Seeding
                &&& after.org() == Some(org)
                &&& action == (CallbackAction::SeedDefaultAgent { org })
            },
            CallbackReply::Seeded => {
                &&& after.stage() == CallbackStage::Minting
                &&& action == (CallbackAction::MintToken {
                    user: self.user()->0.id,
                    org: self.org()->0,
                })
            },
            CallbackReply::Minted { token, secure, ttl_secs } => {
                &&& after.stage() == CallbackStage::Over
                &&& action matches CallbackAction::Finish { session, csrf, location }
                &&& session.is_session(token@, secure, ttl_secs)
                &&& csrf_shaped(csrf.value@)
                &&& csrf.is_csrf(csrf.value@, secure, ttl_secs)
                &&& location@ == match self.redirect_to() {
                    Some(s) => s@,
                    None => "/"@,
                }
            },
        }
    }

    /// Takes what came of the action before, and says what is to be done next. A
    /// user without an organisation gets one, with a default agent in it, before
    /// the session starts.
    pub fn advance(&mut self, reply: CallbackReply) -> (action: CallbackAction)
        requires
            old(self).wf(),
            old(self).expects(reply),
        ensures
            final(self).wf(),
            old(self).steps(reply, *final(self), action),
    {
        match reply {
            CallbackReply::Consumed { pkce_verifier, redirect_to } => {
                self.redirect_to = redirect_to;
                self.stage = CallbackStage::Exchanging;
                CallbackAction::Exchange { code: self.code.clone(), pkce_verifier }
            },
            CallbackReply::Exchanged => {
                self.stage = CallbackStage::Upserting;
                CallbackAction::UpsertUser
            },
            CallbackReply::Upserted { user } => {
                let id = user.id;
                self.user = Some(user);
                self.stage = CallbackStage::Listing;
                CallbackAction::ListOrgs { user: id }
            },
            CallbackReply::Orgs { orgs } => {
                match &self.user {
                    None => CallbackAction::UpsertUser,
                    Some(user) => {
                        if orgs.len() > 0 {
                            let action = CallbackAction::MintToken {
                                user: user.id,
                                org: orgs[0].org_id,
                            };
                            self.stage = CallbackStage::Minting;
                            return action;
                        }
                        let display = match &user.display_name {
                            Some(name) => name.clone(),
                            None => user.email.as_str().to_owned(),
                        };
                        let slug_seed = before_at(user.email.as_str());
                        let id = user.id;
                        self.stage = CallbackStage::Creating;
                        CallbackAction::CreatePersonalOrg { user: id, slug_seed, display }
                    },
                }
            },
            CallbackReply::OrgCreated { org } => {
                self.org = Some(org);
                self.stage = CallbackStage::Seeding;
                CallbackAction::SeedDefaultAgent { org }
            },
            CallbackReply::Seeded => {
                self.stage = CallbackStage::Minting;
                match (&self.user, self.org) {
                    (Some(user), Some(org)) => CallbackAction::MintToken { user: user.id, org },
                    _ => CallbackAction::UpsertUser,
                }
            },
            CallbackReply::Minted { token, secure, ttl_secs } => {
                self.stage = CallbackStage::Over;
                let session = build_session_cookie(token, secure, ttl_secs);
                let csrf = build_csrf_cookie(mint_csrf_token(), secure, ttl_secs);
                let location = match &self.redirect_to {
                    Some(s) => s.clone(),
                    None => "/".to_owned(),
                };
                CallbackAction::Finish { session, csrf, location }
            },
        }
    }
}

/// A login leads to this site only: what is kept of a login to return to is a
/// path on it.
pub proof fn law_login_returns_to_this_site(row: OAuthStateRow, return_to: Option<&str>)
    requires
        match row.redirect_to {
            Some(s) => return_to matches Some(raw) && safe_return(raw@) && s@ == raw@,
            None => true,
        },
    ensures
        row.redirect_to matches Some(s) ==> {
            &&& s@.len() > 0
            &&& s@[0] == '/'
            &&& s@.len() > 1 ==> s@[1] != '/'
        },
{
    reveal_strlit("/");
    reveal_strlit("//");
    if row.redirect_to is Some {
        let s = row.redirect_to->0@;
        assert("/"@[0] == '/');
        if s.len() > 1 && s[1] == '/' {
            assert("//"@ =~= s.take(2));
        }
    }
}

/// A login returns exactly to paths of this site that are not too long: those that start with
/// one slash and not with two.
pub proof fn law_only_paths_are_returned_to(s: Seq<char>)
    ensures
        safe_return(s) <==> s.len() > 0 && s[0] == '/' && (s.len() == 1 || s[1] != '/') && utf8_len(s)
            <= 2_048,
{
    reveal_strlit("/");
    reveal_strlit("//");
    if s.len() > 0 && s[0] == '/' {
        assert("/"@ =~= s.subrange(0, 1));
        if s.len() > 1 && s[1] == '/' {
            assert("//"@ =~= s.subrange(0, 2));
        }
    }
    if "/"@.is_prefix_of(s) {
        assert("/"@[0] == s.subrange(0, 1)[0]);
    }
    if "//"@.is_prefix_of(s) {
        assert("//"@[1] == s.subrange(0, 2)[1]);
    }
}

/// The seed of a personal organisation is what stands before the first `@` of the address,
/// all of it and no more.
pub proof fn law_local_part_ends_at_the_sign(s: Seq<char>)
    ensures
        ({
            let n = local_part(s).len() as int;
            &&& n <= s.len()
            &&& local_part(s) == s.take(n)
            &&& forall|i: int| 0 <= i < n ==> #[trigger] s[i] != '@'
            &&& n < s.len() ==> s[n] == '@'
        }),
    decreases s.len(),
{
    if s.len() > 0 && s[0] != '@' {
        let rest = s.drop_first();
        law_local_part_ends_at_the_sign(rest);
        let n = local_part(rest).len() as int;
        assert(local_part(s) =~= s.take(n + 1));
        assert forall|i: int| 0 <= i < n + 1 implies #[trigger] s[i] != '@' by {
            if i > 0 {
                assert(rest[i - 1] == s[i]);
            }
        }
        if n + 1 < s.len() {
            assert(rest[n] == s[n + 1]);
        }
    } else {
        assert(local_part(s) =~= s.take(0));
    }
}

/// A login ends as it should: the code is exchanged with the verifier that was kept for it, the
/// session is the user's own, in their first organisation or in the one that was made for
/// them, and the browser goes where the login said, or to the start.
pub proof fn law_login_ends_in_the_users_own_session(
    run: CallbackRun,
    reply: CallbackReply,
    after: CallbackRun,
    action: CallbackAction,
)
    requires
        run.steps(reply, after, action),
    ensures
        reply matches CallbackReply::Consumed { pkce_verifier, redirect_to } ==> {
            &&& after.redirect_to() == redirect_to
            &&& action matches CallbackAction::Exchange { code, pkce_verifier: v } && code@
                == run.code() && v == pkce_verifier
        },
        reply matches CallbackReply::Upserted { user } ==> {
            &&& after.user() == Some(user)
            &&& action matches CallbackAction::ListOrgs { user: u } && u == user.id
        },
        reply matches CallbackReply::Orgs { orgs } ==> {
            &&& orgs@.len() > 0 ==> (action matches CallbackAction::MintToken { user, org }
                && user == run.user()->0.id && org == orgs@[0].org_id)
            &&& orgs@.len() == 0 ==> (action matches CallbackAction::CreatePersonalOrg {
                user,
                slug_seed,
                display,
            } && user == run.user()->0.id && slug_seed@ == local_part(run.user()->0.email@)
                && display@ == (if run.user()->0.display_name is Some {
                run.user()->0.display_name->0@
            } else {
                run.user()->0.email@
            }))
        },
        reply matches CallbackReply::OrgCreated { org } ==> (
        action matches CallbackAction::SeedDefaultAgent { org: o } && o == org) && after.org()
            == Some(org),
        reply is Seeded ==> (action matches CallbackAction::MintToken { user, org } && user
            == run.user()->0.id && org == run.org()->0),
        reply matches CallbackReply::Minted { token, secure, ttl_secs } ==> (
        action matches CallbackAction::Finish { session, csrf, location } && session.value@
            == token@ && session.http_only && !csrf.http_only && session.secure == secure
            && csrf.secure == secure && session.max_age_secs == ttl_secs && csrf.max_age_secs
            == ttl_secs && location@ == (if run.redirect_to() is Some {
            run.redirect_to()->0@
        } else {
            "/"@
        })),
        !(reply is Upserted) ==> after.user() == run.user(),
        !(reply is Consumed) ==> after.redirect_to() == run.redirect_to(),
{
}

} // verus!
