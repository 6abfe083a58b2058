//! Credential resolution and validation: bearer tokens and prefixed API
//! keys, with revocation and expiry checks on stored key records.
//!
//! The host runtime extracts the raw header strings, performs the hash,
//! record-store and signature-verification calls, and hands their
//! results to these functions, which make every decision: which
//! credential a request carries, whether a key record is usable, and
//! which identity and metadata a validated credential yields.

use vstd::prelude::*;

use crate::clock::rfc3339_epoch_millis;
use crate::outcome::ErrorKind;
use crate::strutil::{
    join_spec, pair_views, split_spec, str_starts_with, strip_prefix_str, trim_spec, trim_str,
    views_of,
};

verus! {

/// The failures of credential resolution and validation.
#[derive(Clone, Copy, PartialEq, Eq, Structural, Debug)]
pub enum AuthError {
    /// Neither cookie nor Authorization header carried a token.
    NoToken,
    /// The service container is missing.
    ServicesUnavailable,
    /// The record store is missing.
    DatabaseUnavailable,
    /// The hashing/verification service is missing.
    CryptoUnavailable,
    /// Hashing the presented API key failed.
    HashFailed,
    /// No stored key record matches the presented API key.
    InvalidApiKey,
    /// The matching key record carries a non-null `revoked_at`.
    KeyRevoked,
    /// The matching key record's `expires_at` lies in the past.
    KeyExpired,
    /// The matching key record names no user.
    KeyWithoutUser,
    /// Signature verification of the bearer token failed.
    InvalidToken,
    /// The verified claims resolve to an empty user id.
    TokenWithoutUser,
}

impl AuthError {
    /// Whether this failure blames the infrastructure rather than the
    /// caller's credential.
    pub open spec fn is_infrastructure(&self) -> bool {
        match self {
            AuthError::ServicesUnavailable => true,
            AuthError::DatabaseUnavailable => true,
            AuthError::CryptoUnavailable => true,
            AuthError::HashFailed => true,
            _ => false,
        }
    }

    /// The failure class: 500 for a missing collaborator, 401 otherwise.
    pub fn kind(&self) -> (k: ErrorKind)
        ensures
            k == (if self.is_infrastructure() {
                ErrorKind::InfrastructureUnavailable
            } else {
                ErrorKind::Unauthenticated
            }),
    {
        match self {
            AuthError::ServicesUnavailable => ErrorKind::InfrastructureUnavailable,
            AuthError::DatabaseUnavailable => ErrorKind::InfrastructureUnavailable,
            AuthError::CryptoUnavailable => ErrorKind::InfrastructureUnavailable,
            AuthError::HashFailed => ErrorKind::InfrastructureUnavailable,
            _ => ErrorKind::Unauthenticated,
        }
    }

    /// The HTTP status of this failure.
    pub fn status(&self) -> (s: u16)
        ensures
            s == 500 <==> self.is_infrastructure(),
            s == 401 <==> !self.is_infrastructure(),
    {
        self.kind().status()
    }

    /// The human-readable message of this failure.
    pub fn message(&self) -> (r: String)
        ensures
            r@ == self.message_spec(),
    {
        match self {
            AuthError::NoToken => String::from_str("No authentication token provided"),
            AuthError::ServicesUnavailable => String::from_str("Auth services unavailable"),
            AuthError::DatabaseUnavailable => String::from_str("Database service unavailable"),
            AuthError::CryptoUnavailable => String::from_str("Crypto service unavailable"),
            AuthError::HashFailed => String::from_str("Failed to hash API key"),
            AuthError::InvalidApiKey => String::from_str("Invalid API key"),
            AuthError::KeyRevoked => String::from_str("API key has been revoked"),
            AuthError::KeyExpired => String::from_str("API key has expired"),
            AuthError::KeyWithoutUser => String::from_str("API key has no associated user"),
            AuthError::InvalidToken => String::from_str("Invalid or expired token"),
            AuthError::TokenWithoutUser => String::from_str("Token missing user_id"),
        }
    }

    pub open spec fn message_spec(&self) -> Seq<char> {
        match self {
            AuthError::NoToken => "No authentication token provided"@,
            AuthError::ServicesUnavailable => "Auth services unavailable"@,
            AuthError::DatabaseUnavailable => "Database service unavailable"@,
            AuthError::CryptoUnavailable => "Crypto service unavailable"@,
            AuthError::HashFailed => "Failed to hash API key"@,
            AuthError::InvalidApiKey => "Invalid API key"@,
            AuthError::KeyRevoked => "API key has been revoked"@,
            AuthError::KeyExpired => "API key has expired"@,
            AuthError::KeyWithoutUser => "API key has no associated user"@,
            AuthError::InvalidToken => "Invalid or expired token"@,
            AuthError::TokenWithoutUser => "Token missing user_id"@,
        }
    }
}

/// The identity a validated credential yields: written into the request
/// context for the stages behind the resolver.
pub struct Identity {
    pub user_id: String,
    pub email: String,
    pub roles: Vec<String>,
}

impl Identity {
    /// An identity always names a user.
    pub open spec fn wf(&self) -> bool {
        self.user_id@.len() > 0
    }
}

/// The one credential a request carries, classified by shape.
pub enum Credential {
    /// A token with the key prefix: validated by hash lookup.
    ApiKey(String),
    /// Any other token: validated by signature verification.
    Bearer(String),
}

/// A stored API key record, as the key store holds it.
pub struct ApiKeyRecord {
    /// `Some` where the stored record carries a non-null `revoked_at`.
    pub revoked_at: Option<String>,
    /// `Some` where the stored record carries a string `expires_at`.
    pub expires_at: Option<String>,
    /// The owning user; empty where the record names none.
    pub user_id: String,
}

/// The `Bearer ` marker of an Authorization header.
pub open spec fn bearer_prefix() -> Seq<char> {
    seq!['B', 'e', 'a', 'r', 'e', 'r', ' ']
}

/// The prefix that marks a token as an API key.
pub open spec fn api_key_prefix() -> Seq<char> {
    seq!['s', 'b', '_']
}

/// The token a request carries: a non-empty `auth_token` cookie wins;
/// otherwise the trimmed remainder of a `Bearer ` Authorization header,
/// if non-empty.
pub open spec fn extract_token_spec(cookie: Seq<char>, header: Seq<char>) -> Option<Seq<char>> {
    if cookie.len() > 0 {
        Some(cookie)
    } else if header.len() == 0 {
        None
    } else if bearer_prefix().is_prefix_of(header) && trim_spec(header.skip(7)).len() > 0 {
        Some(trim_spec(header.skip(7)))
    } else {
        None
    }
}

/// Whether a key record with the given fields is expired at `now`:
/// only a non-empty, strictly parseable `expires_at` in the past
/// expires a key.
pub open spec fn key_expired_spec(expires_at: Option<Seq<char>>, now_millis: int) -> bool {
    match expires_at {
        Some(e) => e.len() > 0 && match rfc3339_epoch_millis(e) {
            Some(t) => t < now_millis,
            None => false,
        },
        None => false,
    }
}

/// The usability decision on a key record: revocation first, then
/// expiry, then the presence of an owning user.
pub open spec fn check_api_key_spec(
    revoked: bool,
    expires_at: Option<Seq<char>>,
    user_id: Seq<char>,
    now_millis: int,
) -> Result<(), AuthError> {
    if revoked {
        Err(AuthError::KeyRevoked)
    } else if key_expired_spec(expires_at, now_millis) {
        Err(AuthError::KeyExpired)
    } else if user_id.len() == 0 {
        Err(AuthError::KeyWithoutUser)
    } else {
        Ok(())
    }
}

/// The view of an optional string field.
pub open spec fn opt_view(o: Option<String>) -> Option<Seq<char>> {
    match o {
        Some(s) => Some(s@),
        None => None,
    }
}

/// A string-valued claim of a verified token, keeping absence apart
/// from presence with a non-string value.
pub enum StrClaim {
    /// Present with a string value.
    Str(String),
    /// Present with a non-string value.
    Wrong,
    /// Absent.
    Missing,
}

/// The `roles` claim of a verified token: an array of strings (kept as
/// its string elements), a comma-separated string, or anything else.
pub enum RolesClaim {
    List(Vec<String>),
    Text(String),
    /// Absent, or neither an array nor a string.
    Absent,
}

/// The claim set a verified bearer token yields.
pub struct Claims {
    pub user_id: StrClaim,
    pub sub: StrClaim,
    pub email: StrClaim,
    pub roles: RolesClaim,
}

/// The resolved user id of a claim set: `user_id` where present (empty
/// if present with a non-string value), else the `sub` claim.
pub open spec fn jwt_user_id_spec(c: Claims) -> Seq<char> {
    match c.user_id {
        StrClaim::Str(u) => u@,
        StrClaim::Wrong => Seq::<char>::empty(),
        StrClaim::Missing => match c.sub {
            StrClaim::Str(s) => s@,
            _ => Seq::<char>::empty(),
        },
    }
}

/// The resolved email of a claim set; empty where absent or not a
/// string.
pub open spec fn jwt_email_spec(c: Claims) -> Seq<char> {
    match c.email {
        StrClaim::Str(e) => e@,
        _ => Seq::<char>::empty(),
    }
}

/// Every token of `ts`, trimmed.
pub open spec fn trim_all(ts: Seq<Seq<char>>) -> Seq<Seq<char>> {
    ts.map_values(|t: Seq<char>| trim_spec(t))
}

/// The role list a comma-separated claim string denotes.
pub open spec fn roles_from_text(s: Seq<char>) -> Seq<Seq<char>> {
    trim_all(split_spec(s, ','))
}

/// The resolved role list of a claim set.
pub open spec fn jwt_roles_spec(c: Claims) -> Seq<Seq<char>> {
    match c.roles {
        RolesClaim::List(rs) => views_of(rs@),
        RolesClaim::Text(s) => roles_from_text(s@),
        RolesClaim::Absent => Seq::<Seq<char>>::empty(),
    }
}

/// The metadata entries a resolved identity publishes into the request
/// context: always the user id; the email and the comma-joined roles
/// only where non-empty.
pub open spec fn identity_meta_spec(uid: Seq<char>, email: Seq<char>, roles: Seq<Seq<char>>) -> Seq<
    (Seq<char>, Seq<char>),
> {
    let base = seq![("auth.user_id"@, uid)];
    let with_email = if email.len() > 0 {
        base.push(("auth.user_email"@, email))
    } else {
        base
    };
    if roles.len() > 0 {
        with_email.push(("auth.user_roles"@, join_spec(roles, ',')))
    } else {
        with_email
    }
}


/// The credential resolver: validates what a request presents.
pub struct AuthBlock;

impl AuthBlock {
    pub fn new() -> Self {
        Self
    }

    /// The auth token of a request, from the `auth_token` cookie first,
    /// else from a `Bearer ` Authorization header.
    pub fn extract_token(cookie: &str, auth_header: &str) -> (r: Option<String>)
        ensures
            match r {
                Some(t) => extract_token_spec(cookie@, auth_header@) == Some(t@),
                None => extract_token_spec(cookie@, auth_header@) is None,
            },
    {
        if !cookie.is_empty() {
            return Some(cookie.to_owned());
        }
        if auth_header.is_empty() {
            return None;
        }
        proof {
            reveal_strlit("Bearer ");
            assert("Bearer "@ =~= bearer_prefix());
        }
        match strip_prefix_str(auth_header, "Bearer ") {
            Some(rest) => {
                let t = trim_str(rest.as_str());
                if !t.as_str().is_empty() {
                    Some(t)
                } else {
                    None
                }
            },
            None => None,
        }
    }

    /// Whether a token is an API key, by its prefix.
    pub fn is_api_key(token: &str) -> (r: bool)
        ensures
            r <==> api_key_prefix().is_prefix_of(token@),
    {
        let r = str_starts_with(token, "sb_");
        proof {
            reveal_strlit("sb_");
            assert("sb_"@ =~= api_key_prefix());
        }
        r
    }

    /// Classify a token into the one credential it is.
    pub fn classify_token(token: String) -> (c: Credential)
        ensures
            match c {
                Credential::ApiKey(t) => t@ == token@ && api_key_prefix().is_prefix_of(t@),
                Credential::Bearer(t) => t@ == token@ && !api_key_prefix().is_prefix_of(t@),
            },
    {
        if Self::is_api_key(token.as_str()) {
            Credential::ApiKey(token)
        } else {
            Credential::Bearer(token)
        }
    }

    /// The usability decision on a key record at wall-clock `now_millis`:
    /// a revoked key is always rejected; a past, parseable expiry rejects;
    /// an absent, empty or unparseable expiry never does; a usable key
    /// must name a user.
    pub fn check_api_key(rec: &ApiKeyRecord, now_millis: i64) -> (r: Result<(), AuthError>)
        ensures
            r == check_api_key_spec(
                rec.revoked_at is Some,
                opt_view(rec.expires_at),
                rec.user_id@,
                now_millis as int,
            ),
    {
        if rec.revoked_at.is_some() {
            return Err(AuthError::KeyRevoked);
        }
        match &rec.expires_at {
            Some(e) => {
                if !e.as_str().is_empty() {
                    match crate::clock::parse_rfc3339_millis(e.as_str()) {
                        Some(t) => {
                            if t < now_millis {
                                return Err(AuthError::KeyExpired);
                            }
                        },
                        None => {},
                    }
                }
            },
            None => {},
        }
        if rec.user_id.as_str().is_empty() {
            return Err(AuthError::KeyWithoutUser);
        }
        Ok(())
    }

    /// The full API key decision: no matching record rejects the key;
    /// a matching record is checked for usability; a usable record
    /// yields the identity of its user, with the best-effort email and
    /// role lookups' results attached as given.
    pub fn validate_api_key(
        lookup: Option<ApiKeyRecord>,
        now_millis: i64,
        email: String,
        roles: Vec<String>,
    ) -> (r: Result<Identity, AuthError>)
        ensures
            match lookup {
                None => r == Result::<Identity, AuthError>::Err(AuthError::InvalidApiKey),
                Some(rec) => {
                    let check = check_api_key_spec(
                        rec.revoked_at is Some,
                        opt_view(rec.expires_at),
                        rec.user_id@,
                        now_millis as int,
                    );
                    match check {
                        Err(e) => r == Result::<Identity, AuthError>::Err(e),
                        Ok(_) => r matches Ok(id) && id.user_id@ == rec.user_id@ && id.email@
                            == email@ && views_of(id.roles@) == views_of(roles@) && id.wf(),
                    }
                },
            },
    {
        match lookup {
            None => Err(AuthError::InvalidApiKey),
            Some(rec) => {
                match Self::check_api_key(&rec, now_millis) {
                    Err(e) => Err(e),
                    Ok(_) => Ok(Identity { user_id: rec.user_id, email, roles }),
                }
            },
        }
    }

    /// The full bearer token decision: failed signature verification
    /// rejects the token; verified claims must resolve to a non-empty
    /// user id, and yield the identity with email and roles as the
    /// claims give them.
    pub fn validate_jwt(verified: Option<Claims>) -> (r: Result<Identity, AuthError>)
        ensures
            match verified {
                None => r == Result::<Identity, AuthError>::Err(AuthError::InvalidToken),
                Some(c) => {
                    if jwt_user_id_spec(c).len() == 0 {
                        r == Result::<Identity, AuthError>::Err(AuthError::TokenWithoutUser)
                    } else {
                        r matches Ok(id) && id.user_id@ == jwt_user_id_spec(c) && id.email@
                            == jwt_email_spec(c) && views_of(id.roles@) == jwt_roles_spec(c)
                            && id.wf()
                    }
                },
            },
    {
        let c = match verified {
            None => {
                return Err(AuthError::InvalidToken);
            },
            Some(c) => c,
        };
        let Claims { user_id, sub, email, roles } = c;
        let uid: String = match user_id {
            StrClaim::Str(u) => u,
            StrClaim::Wrong => String::new(),
            StrClaim::Missing => match sub {
                StrClaim::Str(s) => s,
                _ => String::new(),
            },
        };
        let email_s: String = match email {
            StrClaim::Str(e) => e,
            _ => String::new(),
        };
        let roles_v: Vec<String> = match roles {
            RolesClaim::List(rs) => rs,
            RolesClaim::Text(s) => {
                let parts = crate::strutil::split_char(s.as_str(), ',');
                let mut out: Vec<String> = Vec::new();
                let n = parts.len();
                let mut i: usize = 0;
                while i < n
                    invariant
                        n == parts@.len(),
                        i <= n,
                        views_of(out@) == trim_all(views_of(parts@)).take(i as int),
                    decreases n - i,
                {
                    let t = trim_str(parts[i].as_str());
                    proof {
                        crate::strutil::lemma_views_of_push(out@, t);
                        assert(trim_all(views_of(parts@)).take(i + 1) =~= trim_all(
                            views_of(parts@),
                        ).take(i as int).push(trim_spec(parts@[i as int]@)));
                    }
                    out.push(t);
                    i += 1;
                }
                proof {
                    assert(trim_all(views_of(parts@)).take(n as int) =~= trim_all(
                        views_of(parts@),
                    ));
                }
                out
            },
            RolesClaim::Absent => Vec::new(),
        };
        proof {
            if views_of(roles_v@).len() == 0 {
                assert(views_of(roles_v@) =~= Seq::<Seq<char>>::empty());
            }
        }
        if uid.as_str().is_empty() {
            return Err(AuthError::TokenWithoutUser);
        }
        Ok(Identity { user_id: uid, email: email_s, roles: roles_v })
    }

    /// The metadata entries a resolved identity publishes.
    pub fn identity_meta(id: &Identity) -> (r: Vec<(String, String)>)
        ensures
            pair_views(r@) == identity_meta_spec(id.user_id@, id.email@, views_of(id.roles@)),
    {
        let mut r: Vec<(String, String)> = Vec::new();
        r.push((String::from_str("auth.user_id"), id.user_id.clone()));
        if !id.email.as_str().is_empty() {
            r.push((String::from_str("auth.user_email"), id.email.clone()));
        }
        if id.roles.len() > 0 {
            proof {
                reveal_strlit(",");
            }
            let joined = crate::strutil::join_strings(&id.roles, ",");
            r.push((String::from_str("auth.user_roles"), joined));
        }
        proof {
            assert(pair_views(r@) =~= identity_meta_spec(
                id.user_id@,
                id.email@,
                views_of(id.roles@),
            ));
        }
        r
    }
}

/// A key record with a non-null `revoked_at` is rejected as revoked,
/// whatever its other fields and whatever the time.
pub proof fn lemma_revoked_key_rejected(
    expires_at: Option<Seq<char>>,
    user_id: Seq<char>,
    now_millis: int,
)
    ensures
        check_api_key_spec(true, expires_at, user_id, now_millis) == Result::<
            (),
            AuthError,
        >::Err(AuthError::KeyRevoked),
{
}

/// A key with a past, parseable expiry is rejected as expired; an
/// absent, empty or unparseable expiry never expires a key.
pub proof fn lemma_key_expiry(
    expires_at: Option<Seq<char>>,
    user_id: Seq<char>,
    now_millis: int,
)
    ensures
        match expires_at {
            Some(e) => {
                (e.len() > 0 && (rfc3339_epoch_millis(e) matches Some(t) && t < now_millis))
                    ==> check_api_key_spec(false, expires_at, user_id, now_millis) == Result::<
                    (),
                    AuthError,
                >::Err(AuthError::KeyExpired)
            },
            None => true,
        },
        (expires_at is None || (expires_at matches Some(e) && (e.len() == 0
            || rfc3339_epoch_millis(e) is None))) ==> check_api_key_spec(
            false,
            expires_at,
            user_id,
            now_millis,
        ) != Result::<(), AuthError>::Err(AuthError::KeyExpired),
{
}

} // verus!
