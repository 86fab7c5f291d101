//! What the stores of registered OAuth clients and pending authorizations keep
//! and decide.

use crate::crypto::{nonce_of, CryptoError, EncryptedBlob, NONCE_BYTES};
use crate::db::DbFault;
use crate::ids::{McpServerId, OrgId, UserId};
use crate::mcp::oauth::errors::OAuthError;
use crate::text::{text2, text_equal, text_of_utf8};
use crate::time::Timestamp;
use crate::types::SecretString;
use vstd::prelude::*;
use vstd::utf8::{decode_utf8, valid_utf8};

verus! {

/// How a client authenticates at a token endpoint.
#[derive(Clone, Copy, Debug, PartialEq, Eq, Hash, Structural)]
pub enum TokenAuthMethod {
    /// Not at all: a public client, with a proof key only.
    NoSecret,
    /// With its secret in the `Authorization` header.
    ClientSecretBasic,
    /// With its secret in the body.
    ClientSecretPost,
}

impl TokenAuthMethod {
    /// The wire label.
    pub open spec fn label(self) -> Seq<char> {
        match self {
            TokenAuthMethod::NoSecret => "none"@,
            TokenAuthMethod::ClientSecretBasic => "client_secret_basic"@,
            TokenAuthMethod::ClientSecretPost => "client_secret_post"@,
        }
    }

    /// The wire label.
    pub fn as_str(self) -> (s: &'static str)
        ensures
            s@ == self.label(),
    {
        match self {
            TokenAuthMethod::NoSecret => "none",
            TokenAuthMethod::ClientSecretBasic => "client_secret_basic",
            TokenAuthMethod::ClientSecretPost => "client_secret_post",
        }
    }

    /// Every variant, in declaration order.
    pub fn all() -> (v: Vec<TokenAuthMethod>)
        ensures
            v@ == seq![TokenAuthMethod::NoSecret, TokenAuthMethod::ClientSecretBasic, TokenAuthMethod::ClientSecretPost],
            forall|k: TokenAuthMethod| v@.contains(k),
    {
        let v = vec![TokenAuthMethod::NoSecret, TokenAuthMethod::ClientSecretBasic, TokenAuthMethod::ClientSecretPost];
        proof {
            assert(v@ =~= seq![TokenAuthMethod::NoSecret, TokenAuthMethod::ClientSecretBasic, TokenAuthMethod::ClientSecretPost]);
            assert forall|k: TokenAuthMethod| v@.contains(k) by {
                match k {
                    TokenAuthMethod::NoSecret => assert(v@[0] == k),
                    TokenAuthMethod::ClientSecretBasic => assert(v@[1] == k),
                    TokenAuthMethod::ClientSecretPost => assert(v@[2] == k),
                }
            }
        }
        v
    }

    /// The variant with the label `s`.
    pub fn parse(s: &str) -> (r: Option<TokenAuthMethod>)
        ensures
            match r {
                Some(k) => s@ == k.label(),
                None => forall|k: TokenAuthMethod| s@ != #[trigger] k.label(),
            },
    {
        if text_equal(s, "none") {
            Some(TokenAuthMethod::NoSecret)
        } else if text_equal(s, "client_secret_basic") {
            Some(TokenAuthMethod::ClientSecretBasic)
        } else if text_equal(s, "client_secret_post") {
            Some(TokenAuthMethod::ClientSecretPost)
        } else {
            None
        }
    }

    /// No two variants share a label: what a label parses to is the variant
    /// that it labels.
    pub proof fn lemma_labels_distinct(a: TokenAuthMethod, b: TokenAuthMethod)
        ensures
            a.label() == b.label() ==> a == b,
    {
        reveal_strlit("none");
        reveal_strlit("client_secret_basic");
        reveal_strlit("client_secret_post");
        assert("none"@.len() != "client_secret_basic"@.len());
        assert("none"@.len() != "client_secret_post"@.len());
        assert("client_secret_basic"@.len() != "client_secret_post"@.len());
    }
}

/// A client that an authorization server just registered.
pub struct NewOAuthClient {
    pub org_id: OrgId,
    pub issuer: String,
    pub client_id: String,
    pub client_secret: Option<SecretString>,
    pub authorization_endpoint: String,
    pub token_endpoint: String,
    pub registration_client_uri: Option<String>,
    pub registration_access_token: Option<SecretString>,
    pub token_endpoint_auth_method: TokenAuthMethod,
    pub scope: Option<String>,
}

/// A registered client, its secret opened.
pub struct DcrClientRecord {
    pub org_id: OrgId,
    pub issuer: String,
    pub client_id: String,
    pub client_secret: Option<SecretString>,
    pub authorization_endpoint: String,
    pub token_endpoint: String,
    pub token_endpoint_auth_method: TokenAuthMethod,
    pub scope: Option<String>,
}

/// A row of the table of clients. Secrets are sealed.
#[derive(Debug)]
pub struct OAuthClientRow {
    pub org_id: OrgId,
    pub issuer: String,
    pub client_id: String,
    pub authorization_endpoint: String,
    pub token_endpoint: String,
    pub registration_client_uri: Option<String>,
    pub registration_access_token_ciphertext: Option<Vec<u8>>,
    pub registration_access_token_nonce: Option<Vec<u8>>,
    pub client_secret_ciphertext: Option<Vec<u8>>,
    pub client_secret_nonce: Option<Vec<u8>>,
    pub key_version: i16,
    pub token_endpoint_auth_method: TokenAuthMethod,
    pub scope: Option<String>,
    pub created_at: Timestamp,
}

/// `c` and `n` hold the ciphertext and nonce of `blob`.
pub open spec fn holds_blob(
    c: Option<Vec<u8>>,
    n: Option<Vec<u8>>,
    blob: Option<EncryptedBlob>,
) -> bool {
    match blob {
        None => c is None && n is None,
        Some(b) => {
            &&& c == Some(b.ciphertext)
            &&& n matches Some(bytes) && bytes@ == b.nonce@
        },
    }
}

fn nonce_column(blob: &EncryptedBlob) -> (v: Vec<u8>)
    ensures
        v@ == blob.nonce@,
{
    let mut v: Vec<u8> = Vec::new();
    let mut i: usize = 0;
    while i < 12
        invariant
            i <= 12,
            v@ == blob.nonce@.take(i as int),
        decreases 12 - i,
    {
        v.push(blob.nonce[i]);
        proof {
            assert(blob.nonce@.take(i + 1) =~= blob.nonce@.take(i as int).push(blob.nonce@[i as int]));
        }
        i += 1;
    }
    proof {
        assert(blob.nonce@.take(12) =~= blob.nonce@);
    }
    v
}

fn blob_columns(blob: Option<EncryptedBlob>) -> (r: (Option<Vec<u8>>, Option<Vec<u8>>))
    ensures
        holds_blob(r.0, r.1, blob),
{
    match blob {
        None => (None, None),
        Some(b) => {
            let n = nonce_column(&b);
            (Some(b.ciphertext), Some(n))
        },
    }
}

impl OAuthClientRow {
    /// The row of the client `new`, its secret and its registration token sealed
    /// as `secret` and `token`.
    pub open spec fn of(
        self,
        new: NewOAuthClient,
        secret: Option<EncryptedBlob>,
        token: Option<EncryptedBlob>,
        key_version: i16,
        now: Timestamp,
    ) -> bool {
        &&& self.org_id == new.org_id
        &&& self.issuer == new.issuer
        &&& self.client_id == new.client_id
        &&& self.authorization_endpoint == new.authorization_endpoint
        &&& self.token_endpoint == new.token_endpoint
        &&& self.registration_client_uri == new.registration_client_uri
        &&& holds_blob(
            self.registration_access_token_ciphertext,
            self.registration_access_token_nonce,
            token,
        )
        &&& holds_blob(self.client_secret_ciphertext, self.client_secret_nonce, secret)
        &&& self.key_version == key_version
        &&& self.token_endpoint_auth_method == new.token_endpoint_auth_method
        &&& self.scope == new.scope
        &&& self.created_at == now
    }

    /// The row to insert for the client `new`.
    pub fn new(
        new: NewOAuthClient,
        secret: Option<EncryptedBlob>,
        token: Option<EncryptedBlob>,
        key_version: i16,
        now: Timestamp,
    ) -> (row: OAuthClientRow)
        ensures
            row.of(new, secret, token, key_version, now),
    {
        let (client_secret_ciphertext, client_secret_nonce) = blob_columns(secret);
        let (registration_access_token_ciphertext, registration_access_token_nonce) = blob_columns(
            token,
        );
        OAuthClientRow {
            org_id: new.org_id,
            issuer: new.issuer,
            client_id: new.client_id,
            authorization_endpoint: new.authorization_endpoint,
            token_endpoint: new.token_endpoint,
            registration_client_uri: new.registration_client_uri,
            registration_access_token_ciphertext,
            registration_access_token_nonce,
            client_secret_ciphertext,
            client_secret_nonce,
            key_version,
            token_endpoint_auth_method: new.token_endpoint_auth_method,
            scope: new.scope,
            created_at: now,
        }
    }

    /// Whether the row holds a sealed secret.
    pub open spec fn has_secret(self) -> bool {
        self.client_secret_ciphertext is Some && self.client_secret_nonce is Some
    }

    /// The sealed secret of the client, if it has one.
    pub fn secret_blob(&self) -> (r: Result<Option<EncryptedBlob>, OAuthError>)
        ensures
            if !self.has_secret() {
                r matches Ok(None)
            } else if self.client_secret_nonce->0@.len() == NONCE_BYTES {
                r matches Ok(Some(blob)) && {
                    &&& blob.key_version == self.key_version
                    &&& blob.nonce@ == self.client_secret_nonce->0@
                    &&& blob.ciphertext@ == self.client_secret_ciphertext->0@
                }
            } else {
                r matches Err(OAuthError::Misconfigured(s)) && s@
                    == "oauth client_secret nonce wrong length"@
            },
    {
        match (&self.client_secret_ciphertext, &self.client_secret_nonce) {
            (Some(c), Some(n)) => match nonce_of(n) {
                None => Err(
                    OAuthError::Misconfigured("oauth client_secret nonce wrong length".to_owned()),
                ),
                Some(nonce) => Ok(
                    Some(
                        EncryptedBlob { key_version: self.key_version, nonce, ciphertext: c.clone() },
                    ),
                ),
            },
            _ => Ok(None),
        }
    }

    /// The record of the row, once its secret was opened.
    pub fn into_record(self, client_secret: Option<SecretString>) -> (rec: DcrClientRecord)
        ensures
            rec == (DcrClientRecord {
                org_id: self.org_id,
                issuer: self.issuer,
                client_id: self.client_id,
                client_secret,
                authorization_endpoint: self.authorization_endpoint,
                token_endpoint: self.token_endpoint,
                token_endpoint_auth_method: self.token_endpoint_auth_method,
                scope: self.scope,
            }),
    {
        DcrClientRecord {
            org_id: self.org_id,
            issuer: self.issuer,
            client_id: self.client_id,
            client_secret,
            authorization_endpoint: self.authorization_endpoint,
            token_endpoint: self.token_endpoint,
            token_endpoint_auth_method: self.token_endpoint_auth_method,
            scope: self.scope,
        }
    }
}

/// The secret that opening a sealed one gave.
pub fn decode_client_secret(opened: Result<Vec<u8>, CryptoError>) -> (r: Result<
    SecretString,
    OAuthError,
>)
    ensures
        match opened {
            Err(e) => r == Err::<SecretString, OAuthError>(OAuthError::Crypto(e)),
            Ok(bytes) => if !valid_utf8(bytes@) {
                r matches Err(OAuthError::Misconfigured(s)) && s@ == "oauth client_secret not utf-8"@
            } else {
                match SecretString::refusal(decode_utf8(bytes@)) {
                    Some(e) => r matches Err(OAuthError::Misconfigured(s)) && s@
                        == "oauth client_secret invalid: "@ + e.text(),
                    None => r matches Ok(secret) && secret@ == decode_utf8(bytes@),
                }
            },
        },
{
    match opened {
        Err(e) => Err(OAuthError::Crypto(e)),
        Ok(bytes) => match text_of_utf8(bytes) {
            None => Err(OAuthError::Misconfigured("oauth client_secret not utf-8".to_owned())),
            Some(text) => match SecretString::try_from(text.as_str()) {
                Ok(secret) => Ok(secret),
                Err(e) => Err(
                    OAuthError::Misconfigured(
                        text2("oauth client_secret invalid: ", e.message().as_str()),
                    ),
                ),
            },
        },
    }
}

/// Whether `row` is the client of `org` at `issuer`.
pub open spec fn client_of(row: OAuthClientRow, org: OrgId, issuer: Seq<char>) -> bool {
    row.org_id == org && row.issuer@ == issuer
}

/// The registered clients: one for each organisation and issuer.
#[derive(Debug)]
pub struct OAuthClients {
    rows: Vec<OAuthClientRow>,
}

impl OAuthClients {
    /// The rows, in the order in which they were inserted.
    pub closed spec fn rows(self) -> Seq<OAuthClientRow> {
        self.rows@
    }

    /// Whether `org` has a client at `issuer`.
    pub open spec fn has(self, org: OrgId, issuer: Seq<char>) -> bool {
        exists|i: int| 0 <= i < self.rows().len() && client_of(#[trigger] self.rows()[i], org, issuer)
    }

    #[verifier::type_invariant]
    spec fn unique(self) -> bool {
        clients_differ(self.rows@)
    }

    /// No clients.
    pub fn new() -> (c: OAuthClients)
        ensures
            c.rows() == Seq::<OAuthClientRow>::empty(),
    {
        OAuthClients { rows: Vec::new() }
    }

    fn position(&self, org: OrgId, issuer: &str) -> (r: Option<usize>)
        ensures
            match r {
                Some(i) => i < self.rows@.len() && client_of(self.rows@[i as int], org, issuer@),
                None => !self.has(org, issuer@),
            },
    {
        let mut i: usize = 0;
        while i < self.rows.len()
            invariant
                i <= self.rows@.len(),
                forall|j: int| 0 <= j < i ==> !client_of(#[trigger] self.rows()[j], org, issuer@),
            decreases self.rows.len() - i,
        {
            if self.rows[i].org_id.0 == org.0 && text_equal(self.rows[i].issuer.as_str(), issuer) {
                return Some(i);
            }
            i += 1;
        }
        None
    }

    /// Inserts `row`, unless its organisation has a client at its issuer: then
    /// that one stays as it is. Gives the row that is there afterwards.
    pub fn upsert(&mut self, row: OAuthClientRow) -> (r: &OAuthClientRow)
        ensures
            final(self).rows().contains(*r),
            client_of(*r, row.org_id, row.issuer@),
            if old(self).has(row.org_id, row.issuer@) {
                final(self).rows() == old(self).rows()
            } else {
                final(self).rows() == old(self).rows().push(row) && *r == row
            },
    {
        proof {
            use_type_invariant(&*self);
        }
        match self.position(row.org_id, row.issuer.as_str()) {
            Some(i) => &self.rows[i],
            None => {
                let mut rows: Vec<OAuthClientRow> = Vec::new();
                std::mem::swap(&mut rows, &mut self.rows);
                let ghost before = rows@;
                rows.push(row);
                proof {
                    assert forall|i: int, j: int|
                        0 <= i < j < rows@.len() implies !same_client(
                        #[trigger] rows@[i],
                        #[trigger] rows@[j],
                    ) by {
                        if j < before.len() {
                            assert(!same_client(before[i], before[j]));
                        } else {
                            assert(!client_of(old(self).rows()[i], row.org_id, row.issuer@));
                        }
                    }
                }
                self.rows = rows;
                &self.rows[self.rows.len() - 1]
            },
        }
    }

    /// The client of `org` at `issuer`.
    pub fn read(&self, org: OrgId, issuer: &str) -> (r: Option<&OAuthClientRow>)
        ensures
            match r {
                Some(row) => self.rows().contains(*row) && client_of(*row, org, issuer@),
                None => !self.has(org, issuer@),
            },
    {
        match self.position(org, issuer) {
            Some(i) => Some(&self.rows[i]),
            None => None,
        }
    }
}

/// Two rows of one organisation and issuer.
pub open spec fn same_client(a: OAuthClientRow, b: OAuthClientRow) -> bool {
    client_of(a, b.org_id, b.issuer@)
}

/// No organisation has two clients at one issuer.
pub open spec fn clients_differ(rows: Seq<OAuthClientRow>) -> bool {
    forall|i: int, j: int|
        0 <= i < j < rows.len() ==> !same_client(#[trigger] rows[i], #[trigger] rows[j])
}

/// An authorization to be completed by a callback.
#[derive(Debug)]
pub struct PendingAuthorizationWrite {
    pub state: String,
    pub server_id: McpServerId,
    pub user_id: UserId,
    pub org_id: OrgId,
    pub issuer: String,
    pub pkce_verifier: String,
    pub redirect_to: Option<String>,
    pub expires_at: Timestamp,
}

/// An authorization whose callback came.
#[derive(Debug)]
pub struct PendingAuthorization {
    pub state: String,
    pub server_id: McpServerId,
    pub user_id: UserId,
    pub org_id: OrgId,
    pub issuer: String,
    pub pkce_verifier: String,
    pub redirect_to: Option<String>,
}

impl PendingAuthorizationWrite {
    /// What is handed out of the row.
    pub open spec fn record(self) -> PendingAuthorization {
        PendingAuthorization {
            state: self.state,
            server_id: self.server_id,
            user_id: self.user_id,
            org_id: self.org_id,
            issuer: self.issuer,
            pkce_verifier: self.pkce_verifier,
            redirect_to: self.redirect_to,
        }
    }

    /// What is handed out of the row.
    pub fn into_record(self) -> (rec: PendingAuthorization)
        ensures
            rec == self.record(),
    {
        PendingAuthorization {
            state: self.state,
            server_id: self.server_id,
            user_id: self.user_id,
            org_id: self.org_id,
            issuer: self.issuer,
            pkce_verifier: self.pkce_verifier,
            redirect_to: self.redirect_to,
        }
    }
}

/// Whether `row` can still be completed with `state` at `now`.
pub open spec fn completes(row: PendingAuthorizationWrite, state: Seq<char>, now: Timestamp) -> bool {
    row.state@ == state && row.expires_at@ > now@
}

/// The authorizations under way, each under its own state.
#[derive(Debug)]
pub struct PendingAuthorizations {
    rows: Vec<PendingAuthorizationWrite>,
}

/// No two authorizations share a state.
pub open spec fn states_differ(rows: Seq<PendingAuthorizationWrite>) -> bool {
    forall|i: int, j: int|
        0 <= i < j < rows.len() ==> (#[trigger] rows[i]).state@ != (#[trigger] rows[j]).state@
}

impl PendingAuthorizations {
    /// The rows, in the order in which they were inserted.
    pub closed spec fn rows(self) -> Seq<PendingAuthorizationWrite> {
        self.rows@
    }

    /// Whether an authorization is under way under `state`.
    pub open spec fn has(self, state: Seq<char>) -> bool {
        exists|i: int| 0 <= i < self.rows().len() && (#[trigger] self.rows()[i]).state@ == state
    }

    #[verifier::type_invariant]
    spec fn unique(self) -> bool {
        states_differ(self.rows@)
    }

    /// No authorizations.
    pub fn new() -> (p: PendingAuthorizations)
        ensures
            p.rows() == Seq::<PendingAuthorizationWrite>::empty(),
    {
        PendingAuthorizations { rows: Vec::new() }
    }

    fn position(&self, state: &str) -> (r: Option<usize>)
        ensures
            match r {
                Some(i) => i < self.rows@.len() && self.rows@[i as int].state@ == state@,
                None => !self.has(state@),
            },
    {
        let mut i: usize = 0;
        while i < self.rows.len()
            invariant
                i <= self.rows@.len(),
                forall|j: int| 0 <= j < i ==> (#[trigger] self.rows()[j]).state@ != state@,
            decreases self.rows.len() - i,
        {
            if text_equal(self.rows[i].state.as_str(), state) {
                return Some(i);
            }
            i += 1;
        }
        None
    }

    /// Starts an authorization. Its state must be new.
    pub fn insert(&mut self, row: PendingAuthorizationWrite) -> (r: Result<(), OAuthError>)
        ensures
            if old(self).has(row.state@) {
                &&& r == Err::<(), OAuthError>(OAuthError::Db(DbFault::DuplicateKey))
                &&& final(self).rows() == old(self).rows()
            } else {
                &&& r is Ok
                &&& final(self).rows() == old(self).rows().push(row)
            },
    {
        proof {
            use_type_invariant(&*self);
        }
        if self.position(row.state.as_str()).is_some() {
            return Err(OAuthError::Db(DbFault::DuplicateKey));
        }
        let mut rows: Vec<PendingAuthorizationWrite> = Vec::new();
        std::mem::swap(&mut rows, &mut self.rows);
        let ghost before = rows@;
        rows.push(row);
        proof {
            assert forall|i: int, j: int| 0 <= i < j < rows@.len() implies (
            #[trigger] rows@[i]).state@ != (#[trigger] rows@[j]).state@ by {
                if j < before.len() {
                    assert(before[i].state@ != before[j].state@);
                } else {
                    assert(old(self).rows()[i].state@ != row.state@);
                }
            }
        }
        self.rows = rows;
        Ok(())
    }

    /// Completes the authorization under `state`: it is handed out once, and is
    /// gone then. One that has expired is not handed out.
    pub fn consume(&mut self, state: &str, now: Timestamp) -> (r: Option<PendingAuthorization>)
        ensures
            match r {
                Some(rec) => exists|i: int|
                    {
                        &&& 0 <= i < old(self).rows().len()
                        &&& completes(#[trigger] old(self).rows()[i], state@, now)
                        &&& rec == old(self).rows()[i].record()
                        &&& final(self).rows() == old(self).rows().remove(i)
                        &&& !final(self).has(state@)
                    },
                None => {
                    &&& final(self).rows() == old(self).rows()
                    &&& forall|i: int|
                        0 <= i < old(self).rows().len() ==> !completes(
                            #[trigger] old(self).rows()[i],
                            state@,
                            now,
                        )
                },
            },
    {
        proof {
            use_type_invariant(&*self);
        }
        let ghost before = self.rows@;
        match self.position(state) {
            None => {
                proof {
                    assert forall|i: int| 0 <= i < before.len() implies !completes(
                        #[trigger] before[i],
                        state@,
                        now,
                    ) by {
                        assert(self.rows()[i].state@ != state@);
                    }
                }
                None
            },
            Some(i) => {
                if self.rows[i].expires_at.micros() <= now.micros() {
                    proof {
                        lemma_only_state(before, i as int);
                    }
                    return None;
                }
                let mut rows: Vec<PendingAuthorizationWrite> = Vec::new();
                std::mem::swap(&mut rows, &mut self.rows);
                let row = rows.remove(i);
                proof {
                    lemma_only_state(before, i as int);
                    assert forall|a: int, b: int| 0 <= a < b < rows@.len() implies (
                    #[trigger] rows@[a]).state@ != (#[trigger] rows@[b]).state@ by {
                        let a2 = if a < i { a } else { a + 1 };
                        let b2 = if b < i { b } else { b + 1 };
                        assert(before[a2].state@ != before[b2].state@);
                    }
                    assert(completes(before[i as int], state@, now));
                }
                self.rows = rows;
                proof {
                    assert forall|a: int| 0 <= a < self.rows().len() implies (
                    #[trigger] self.rows()[a]).state@ != state@ by {
                        let a2 = if a < i { a } else { a + 1 };
                        assert(self.rows()[a] == before[a2]);
                    }
                }
                Some(row.into_record())
            },
        }
    }
}

/// Where a state was found is the one place that has it.
proof fn lemma_only_state(rows: Seq<PendingAuthorizationWrite>, i: int)
    requires
        states_differ(rows),
        0 <= i < rows.len(),
    ensures
        forall|j: int| 0 <= j < rows.len() && j != i ==> (#[trigger] rows[j]).state@ != rows[i].state@,
{
    assert forall|j: int| 0 <= j < rows.len() && j != i implies (#[trigger] rows[j]).state@
        != rows[i].state@ by {
        if j < i {
            assert(rows[j].state@ != rows[i].state@);
        } else {
            assert(rows[i].state@ != rows[j].state@);
        }
    }
}

/// An authorization cannot be replayed: after its callback, no other is handed
/// out under its state, whenever that is tried.
pub proof fn law_authorization_is_one_shot(
    after: PendingAuthorizations,
    state: Seq<char>,
    later: Timestamp,
)
    requires
        !after.has(state),
    ensures
        forall|i: int|
            0 <= i < after.rows().len() ==> !completes(#[trigger] after.rows()[i], state, later),
{
    assert forall|i: int| 0 <= i < after.rows().len() implies !completes(
        #[trigger] after.rows()[i],
        state,
        later,
    ) by {
        assert(after.rows()[i].state@ != state);
    }
}

/// An authorization that has expired stays so.
pub proof fn law_expired_authorization_stays_expired(
    row: PendingAuthorizationWrite,
    state: Seq<char>,
    now: Timestamp,
    later: Timestamp,
)
    requires
        row.state@ == state,
        !completes(row, state, now),
        now@ <= later@,
    ensures
        !completes(row, state, later),
{
}

/// A callback gets back what was kept for it: an authorization that was started is handed out
/// under its own state, with its server, user, organisation, issuer, verifier and return
/// address, until it expires and not from then on.
pub proof fn law_started_authorization_is_handed_out(
    row: PendingAuthorizationWrite,
    state: Seq<char>,
    now: Timestamp,
)
    ensures
        completes(row, row.state@, now) <==> now@ < row.expires_at@,
        completes(row, state, now) ==> state == row.state@,
        row.record().state == row.state,
        row.record().server_id == row.server_id,
        row.record().user_id == row.user_id,
        row.record().org_id == row.org_id,
        row.record().issuer == row.issuer,
        row.record().pkce_verifier == row.pkce_verifier,
        row.record().redirect_to == row.redirect_to,
{
}

/// A registered client is stored as it is: who it is, where it goes, how it authenticates;
/// and its sealed secret can be found again, byte for byte, under the key that sealed it.
pub proof fn law_client_row_keeps_the_client(
    row: OAuthClientRow,
    new: NewOAuthClient,
    secret: Option<EncryptedBlob>,
    token: Option<EncryptedBlob>,
    key_version: i16,
    now: Timestamp,
)
    requires
        row.of(new, secret, token, key_version, now),
    ensures
        row.org_id == new.org_id,
        row.issuer == new.issuer,
        row.client_id == new.client_id,
        row.authorization_endpoint == new.authorization_endpoint,
        row.token_endpoint == new.token_endpoint,
        row.registration_client_uri == new.registration_client_uri,
        row.token_endpoint_auth_method == new.token_endpoint_auth_method,
        row.scope == new.scope,
        row.key_version == key_version,
        row.created_at == now,
        secret is None ==> !row.has_secret(),
        secret matches Some(b) ==> row.has_secret() && row.client_secret_ciphertext->0@
            == b.ciphertext@ && row.client_secret_nonce->0@ == b.nonce@,
        token is None ==> row.registration_access_token_ciphertext is None
            && row.registration_access_token_nonce is None,
        token matches Some(b) ==> row.registration_access_token_ciphertext is Some
            && row.registration_access_token_ciphertext->0@ == b.ciphertext@
            && row.registration_access_token_nonce is Some
            && row.registration_access_token_nonce->0@ == b.nonce@,
{
}

/// A client is found by its organisation and its issuer, and by nothing else.
pub proof fn law_client_is_found_by_organisation_and_issuer(
    row: OAuthClientRow,
    org: OrgId,
    issuer: Seq<char>,
)
    ensures
        client_of(row, org, issuer) <==> row.org_id == org && row.issuer@ == issuer,
{
}

/// On the wire each way of showing a client to a token endpoint goes by a name of its own.
pub proof fn law_token_auth_method_goes_by_its_name(x: TokenAuthMethod)
    ensures
        x.label() == "none"@ <==> x is NoSecret,
        x.label() == "client_secret_basic"@ <==> x is ClientSecretBasic,
        x.label() == "client_secret_post"@ <==> x is ClientSecretPost,
{
    TokenAuthMethod::lemma_labels_distinct(x, TokenAuthMethod::NoSecret);
    TokenAuthMethod::lemma_labels_distinct(x, TokenAuthMethod::ClientSecretBasic);
    TokenAuthMethod::lemma_labels_distinct(x, TokenAuthMethod::ClientSecretPost);
}

} // verus!
