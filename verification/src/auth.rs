//! Users, organisations and who a request comes from.

use crate::db::DbFault;
use crate::ids::{uuid_text, OrgId, UserId};
use crate::text::{blank, text2, text_equal, utf8_len};
use crate::time::Timestamp;
use crate::types::{check_text, text_error, ParseError};
use vstd::prelude::*;
use vstd::std_specs::convert::TryFromSpecImpl;

verus! {

/// The cookie that holds the session token.
pub const COOKIE_NAME: &'static str = "relay_session";

/// The cookie that holds the CSRF token. Scripts of the web app read it.
pub const CSRF_COOKIE_NAME: &'static str = "relay_csrf";

/// The header in which the web app sends the CSRF token back.
pub const CSRF_HEADER_NAME: &'static str = "X-CSRF-Token";

/// Maximum bytes of a CSRF token.
pub const CSRF_TOKEN_MAX_LEN: usize = 64;

/// Seconds that a login may take.
pub const OAUTH_STATE_TTL: u64 = 600;

/// Maximum bytes of an e-mail address.
pub const EMAIL_MAX_BYTES: usize = 320;

/// Maximum bytes of the slug of an organisation.
pub const ORG_SLUG_MAX_BYTES: usize = 64;

/// Maximum bytes of the state of a login.
pub const OAUTH_STATE_MAX_BYTES: usize = 128;

/// What a member may do in an organisation.
#[derive(Clone, Copy, Debug, PartialEq, Eq, Hash, Structural)]
pub enum Role {
    /// Everything.
    Owner,
    /// Everything but giving the organisation away.
    Admin,
    /// Using it.
    Member,
}

impl Role {
    /// The wire label.
    pub open spec fn label(self) -> Seq<char> {
        match self {
            Role::Owner => "owner"@,
            Role::Admin => "admin"@,
            Role::Member => "member"@,
        }
    }

    /// The wire label.
    pub fn as_str(self) -> (s: &'static str)
        ensures
            s@ == self.label(),
    {
        match self {
            Role::Owner => "owner",
            Role::Admin => "admin",
            Role::Member => "member",
        }
    }

    /// Every variant, in declaration order.
    pub fn all() -> (v: Vec<Role>)
        ensures
            v@ == seq![Role::Owner, Role::Admin, Role::Member],
            forall|k: Role| v@.contains(k),
    {
        let v = vec![Role::Owner, Role::Admin, Role::Member];
        proof {
            assert(v@ =~= seq![Role::Owner, Role::Admin, Role::Member]);
            assert forall|k: Role| v@.contains(k) by {
                match k {
                    Role::Owner => assert(v@[0] == k),
                    Role::Admin => assert(v@[1] == k),
                    Role::Member => assert(v@[2] == k),
                }
            }
        }
        v
    }

    /// The variant with the label `s`.
    pub fn parse(s: &str) -> (r: Option<Role>)
        ensures
            match r {
                Some(k) => s@ == k.label(),
                None => forall|k: Role| s@ != #[trigger] k.label(),
            },
    {
        if text_equal(s, "owner") {
            Some(Role::Owner)
        } else if text_equal(s, "admin") {
            Some(Role::Admin)
        } else if text_equal(s, "member") {
            Some(Role::Member)
        } else {
            None
        }
    }

    /// No two variants share a label: what a label parses to is the variant
    /// that it labels.
    pub proof fn lemma_labels_distinct(a: Role, b: Role)
        ensures
            a.label() == b.label() ==> a == b,
    {
        reveal_strlit("owner");
        reveal_strlit("admin");
        reveal_strlit("member");
        assert("owner"@[0] != "admin"@[0]);
        assert("owner"@.len() != "member"@.len());
        assert("admin"@.len() != "member"@.len());
    }
}

/// The language of an organisation.
#[derive(Clone, Copy, Debug, PartialEq, Eq, Hash, Structural)]
pub enum Language {
    /// English.
    English,
    /// Vietnamese.
    Vietnamese,
}

impl Language {
    /// The wire label.
    pub open spec fn label(self) -> Seq<char> {
        match self {
            Language::English => "en"@,
            Language::Vietnamese => "vi"@,
        }
    }

    /// The wire label.
    pub fn as_str(self) -> (s: &'static str)
        ensures
            s@ == self.label(),
    {
        match self {
            Language::English => "en",
            Language::Vietnamese => "vi",
        }
    }

    /// Every variant, in declaration order.
    pub fn all() -> (v: Vec<Language>)
        ensures
            v@ == seq![Language::English, Language::Vietnamese],
            forall|k: Language| v@.contains(k),
    {
        let v = vec![Language::English, Language::Vietnamese];
        proof {
            assert(v@ =~= seq![Language::English, Language::Vietnamese]);
            assert forall|k: Language| v@.contains(k) by {
                match k {
                    Language::English => assert(v@[0] == k),
                    Language::Vietnamese => assert(v@[1] == k),
                }
            }
        }
        v
    }

    /// The variant with the label `s`.
    pub fn parse(s: &str) -> (r: Option<Language>)
        ensures
            match r {
                Some(k) => s@ == k.label(),
                None => forall|k: Language| s@ != #[trigger] k.label(),
            },
    {
        if text_equal(s, "en") {
            Some(Language::English)
        } else if text_equal(s, "vi") {
            Some(Language::Vietnamese)
        } else {
            None
        }
    }

    /// No two variants share a label: what a label parses to is the variant
    /// that it labels.
    pub proof fn lemma_labels_distinct(a: Language, b: Language)
        ensures
            a.label() == b.label() ==> a == b,
    {
        reveal_strlit("en");
        reveal_strlit("vi");
        assert("en"@[0] != "vi"@[0]);
    }
}

/// The address of a user, as the login provider verified it.
#[derive(Debug)]
pub struct EmailAddress {
    text: String,
}

impl View for EmailAddress {
    type V = Seq<char>;

    closed spec fn view(&self) -> Seq<char> {
        self.text@
    }
}

impl EmailAddress {
    /// What is wrong with `s` as a value of this type.
    pub open spec fn refusal(s: Seq<char>) -> Option<ParseError> {
        text_error(s, "email", EMAIL_MAX_BYTES)
    }

    #[verifier::type_invariant]
    spec fn checked(self) -> bool {
        EmailAddress::refusal(self.text@) is None
    }

    /// The text.
    pub fn as_str(&self) -> (s: &str)
        ensures
            s@ == self@,
            EmailAddress::refusal(self@) is None,
    {
        proof {
            use_type_invariant(self);
        }
        self.text.as_str()
    }
}

impl Clone for EmailAddress {
    fn clone(&self) -> (r: EmailAddress)
        ensures
            r == *self,
    {
        proof {
            use_type_invariant(self);
        }
        EmailAddress { text: self.text.clone() }
    }
}

impl TryFrom<&str> for EmailAddress {
    type Error = ParseError;

    fn try_from(raw: &str) -> (r: Result<EmailAddress, ParseError>)
        ensures
            match r {
                Ok(v) => EmailAddress::refusal(raw@) is None && v@ == raw@,
                Err(e) => EmailAddress::refusal(raw@) == Some(e),
            },
    {
        match check_text(raw, "email", EMAIL_MAX_BYTES) {
            Some(e) => Err(e),
            None => Ok(EmailAddress { text: raw.to_owned() }),
        }
    }
}

impl TryFromSpecImpl<&str> for EmailAddress {
    open spec fn obeys_try_from_spec() -> bool {
        false
    }

    open spec fn try_from_spec(v: &str) -> Result<EmailAddress, ParseError> {
        arbitrary()
    }
}

/// The short name of an organisation.
#[derive(Debug)]
pub struct OrgSlug {
    text: String,
}

impl View for OrgSlug {
    type V = Seq<char>;

    closed spec fn view(&self) -> Seq<char> {
        self.text@
    }
}

impl OrgSlug {
    /// What is wrong with `s` as a value of this type.
    pub open spec fn refusal(s: Seq<char>) -> Option<ParseError> {
        text_error(s, "org_slug", ORG_SLUG_MAX_BYTES)
    }

    #[verifier::type_invariant]
    spec fn checked(self) -> bool {
        OrgSlug::refusal(self.text@) is None
    }

    /// The text.
    pub fn as_str(&self) -> (s: &str)
        ensures
            s@ == self@,
            OrgSlug::refusal(self@) is None,
    {
        proof {
            use_type_invariant(self);
        }
        self.text.as_str()
    }
}

impl Clone for OrgSlug {
    fn clone(&self) -> (r: OrgSlug)
        ensures
            r == *self,
    {
        proof {
            use_type_invariant(self);
        }
        OrgSlug { text: self.text.clone() }
    }
}

impl TryFrom<&str> for OrgSlug {
    type Error = ParseError;

    fn try_from(raw: &str) -> (r: Result<OrgSlug, ParseError>)
        ensures
            match r {
                Ok(v) => OrgSlug::refusal(raw@) is None && v@ == raw@,
                Err(e) => OrgSlug::refusal(raw@) == Some(e),
            },
    {
        match check_text(raw, "org_slug", ORG_SLUG_MAX_BYTES) {
            Some(e) => Err(e),
            None => Ok(OrgSlug { text: raw.to_owned() }),
        }
    }
}

impl TryFromSpecImpl<&str> for OrgSlug {
    open spec fn obeys_try_from_spec() -> bool {
        false
    }

    open spec fn try_from_spec(v: &str) -> Result<OrgSlug, ParseError> {
        arbitrary()
    }
}

/// The state of a login, which comes back with the callback.
#[derive(Debug)]
pub struct OAuthState {
    text: String,
}

impl View for OAuthState {
    type V = Seq<char>;

    closed spec fn view(&self) -> Seq<char> {
        self.text@
    }
}

impl OAuthState {
    /// What is wrong with `s` as a value of this type.
    pub open spec fn refusal(s: Seq<char>) -> Option<ParseError> {
        text_error(s, "oauth_state", OAUTH_STATE_MAX_BYTES)
    }

    #[verifier::type_invariant]
    spec fn checked(self) -> bool {
        OAuthState::refusal(self.text@) is None
    }

    /// The text.
    pub fn as_str(&self) -> (s: &str)
        ensures
            s@ == self@,
            OAuthState::refusal(self@) is None,
    {
        proof {
            use_type_invariant(self);
        }
        self.text.as_str()
    }
}

impl Clone for OAuthState {
    fn clone(&self) -> (r: OAuthState)
        ensures
            r == *self,
    {
        proof {
            use_type_invariant(self);
        }
        OAuthState { text: self.text.clone() }
    }
}

impl TryFrom<&str> for OAuthState {
    type Error = ParseError;

    fn try_from(raw: &str) -> (r: Result<OAuthState, ParseError>)
        ensures
            match r {
                Ok(v) => OAuthState::refusal(raw@) is None && v@ == raw@,
                Err(e) => OAuthState::refusal(raw@) == Some(e),
            },
    {
        match check_text(raw, "oauth_state", OAUTH_STATE_MAX_BYTES) {
            Some(e) => Err(e),
            None => Ok(OAuthState { text: raw.to_owned() }),
        }
    }
}

impl TryFromSpecImpl<&str> for OAuthState {
    open spec fn obeys_try_from_spec() -> bool {
        false
    }

    open spec fn try_from_spec(v: &str) -> Result<OAuthState, ParseError> {
        arbitrary()
    }
}

/// A user.
#[derive(Debug)]
pub struct User {
    pub id: UserId,
    pub email: EmailAddress,
    pub display_name: Option<String>,
    pub avatar_url: Option<String>,
}

/// The membership of a user in an organisation.
#[derive(Debug)]
pub struct OrgMembership {
    pub org_id: OrgId,
    pub org_name: String,
    pub org_slug: OrgSlug,
    pub role: Role,
    pub default_language: Language,
}

/// Who a request comes from.
#[derive(Clone, Copy, Debug, PartialEq, Eq)]
pub struct Principal {
    pub user_id: UserId,
    pub active_org_id: OrgId,
    pub role: Role,
}

/// What a session token claims.
#[derive(Clone, Copy, Debug, PartialEq, Eq)]
pub struct Claims {
    /// The user.
    pub sub: UserId,
    /// The active organisation.
    pub org: OrgId,
}

/// A login that is under way.
#[derive(Debug)]
pub struct OAuthStateRow {
    pub state: String,
    pub pkce_verifier: String,
    /// Where the browser goes afterwards.
    pub redirect_to: Option<String>,
    pub created_at: Timestamp,
    pub expires_at: Timestamp,
}

/// Every way in which authentication fails.
#[derive(Debug)]
pub enum AuthError {
    /// There is no valid session.
    Unauthenticated,
    /// The session token is not valid, for this reason.
    Jwt(String),
    /// The callback is for no login that is under way.
    OAuthStateInvalid,
    /// The login provider did not verify the address.
    EmailUnverified,
    /// The user does not belong to the organisation.
    NotMember(OrgId),
    /// The login provider failed.
    OAuthProvider(String),
    /// A value does not have the form it must have.
    Parse(ParseError),
    /// The tables underneath failed.
    Db(DbFault),
}

impl AuthError {
    /// The text of the error.
    pub open spec fn text(self) -> Seq<char> {
        match self {
            AuthError::Unauthenticated => "unauthenticated"@,
            AuthError::Jwt(detail) => "jwt: "@ + detail@,
            AuthError::OAuthStateInvalid => "oauth state invalid or expired"@,
            AuthError::EmailUnverified => "email not verified"@,
            AuthError::NotMember(org) => "not a member of org "@ + uuid_text(org.0),
            AuthError::OAuthProvider(detail) => "oauth provider: "@ + detail@,
            AuthError::Parse(e) => "parse: "@ + e.text(),
            AuthError::Db(fault) => "db: "@ + fault.text(),
        }
    }

    /// The error as one line of text.
    pub fn message(&self) -> (s: String)
        ensures
            s@ == self.text(),
    {
        match self {
            AuthError::Unauthenticated => "unauthenticated".to_owned(),
            AuthError::Jwt(detail) => text2("jwt: ", detail.as_str()),
            AuthError::OAuthStateInvalid => "oauth state invalid or expired".to_owned(),
            AuthError::EmailUnverified => "email not verified".to_owned(),
            AuthError::NotMember(org) => text2("not a member of org ", org.text().as_str()),
            AuthError::OAuthProvider(detail) => text2("oauth provider: ", detail.as_str()),
            AuthError::Parse(e) => text2("parse: ", e.message().as_str()),
            AuthError::Db(fault) => text2("db: ", fault.message().as_str()),
        }
    }
}

/// How long each text of a login may be.
pub proof fn law_logins_have_their_limits(s: Seq<char>)
    ensures
        EmailAddress::refusal(s) is None <==> !blank(s) && utf8_len(s) <= 320,
        OrgSlug::refusal(s) is None <==> !blank(s) && utf8_len(s) <= 64,
        OAuthState::refusal(s) is None <==> !blank(s) && utf8_len(s) <= 128,
{
    if s.len() == 0 {
        assert(blank(s));
    }
}

/// On the wire each role goes by a name of its own.
pub proof fn law_role_goes_by_its_name(x: Role)
    ensures
        x.label() == "owner"@ <==> x is Owner,
        x.label() == "admin"@ <==> x is Admin,
        x.label() == "member"@ <==> x is Member,
{
    Role::lemma_labels_distinct(x, Role::Owner);
    Role::lemma_labels_distinct(x, Role::Admin);
    Role::lemma_labels_distinct(x, Role::Member);
}

/// On the wire each language goes by a name of its own.
pub proof fn law_language_goes_by_its_name(x: Language)
    ensures
        x.label() == "en"@ <==> x is English,
        x.label() == "vi"@ <==> x is Vietnamese,
{
    Language::lemma_labels_distinct(x, Language::English);
    Language::lemma_labels_distinct(x, Language::Vietnamese);
}

/// The message says which fault it was, and carries its detail.
pub proof fn law_auth_error_says_what_is_wrong(error: AuthError)
    ensures
        error is Unauthenticated ==> error.text() == "unauthenticated"@,
        error matches AuthError::Jwt(detail) ==> error.text() == "jwt: "@ + detail@,
        error is OAuthStateInvalid ==> error.text() == "oauth state invalid or expired"@,
        error is EmailUnverified ==> error.text() == "email not verified"@,
        error matches AuthError::NotMember(org) ==> error.text() == "not a member of org "@
            + uuid_text(org.0),
        error matches AuthError::OAuthProvider(detail) ==> error.text() == "oauth provider: "@
            + detail@,
        error matches AuthError::Parse(e) ==> error.text() == "parse: "@ + e.text(),
        error matches AuthError::Db(fault) ==> error.text() == "db: "@ + fault.text(),
{
}

} // verus!
