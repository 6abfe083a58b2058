use wafer_core::auth::{
    ApiKeyRecord, AuthBlock, AuthError, Claims, Credential, RolesClaim, StrClaim,
};
use wafer_core::clock::now_epoch_millis;

fn no_claims() -> Claims {
    Claims {
        user_id: StrClaim::Missing,
        sub: StrClaim::Missing,
        email: StrClaim::Missing,
        roles: RolesClaim::Absent,
    }
}

#[test]
fn cookie_token_wins_over_header() {
    let t = AuthBlock::extract_token("cookie-token", "Bearer header-token");
    assert_eq!(t.as_deref(), Some("cookie-token"));
}

#[test]
fn bearer_header_is_trimmed() {
    let t = AuthBlock::extract_token("", "Bearer   tok123  ");
    assert_eq!(t.as_deref(), Some("tok123"));
}

#[test]
fn missing_token_is_none() {
    assert!(AuthBlock::extract_token("", "").is_none());
    assert!(AuthBlock::extract_token("", "Basic abc").is_none());
    assert!(AuthBlock::extract_token("", "Bearer    ").is_none());
}

#[test]
fn api_key_classification() {
    assert!(AuthBlock::is_api_key("sb_abc123"));
    assert!(!AuthBlock::is_api_key("eyJhbGciOi"));
    match AuthBlock::classify_token(String::from("sb_k")) {
        Credential::ApiKey(t) => assert_eq!(t, "sb_k"),
        Credential::Bearer(_) => panic!("sb_ token must classify as an API key"),
    }
    match AuthBlock::classify_token(String::from("jwt.like.token")) {
        Credential::Bearer(t) => assert_eq!(t, "jwt.like.token"),
        Credential::ApiKey(_) => panic!("plain token must classify as a bearer token"),
    }
}

#[test]
fn unknown_api_key_is_invalid() {
    let r = AuthBlock::validate_api_key(None, now_epoch_millis(), String::new(), Vec::new());
    match r {
        Err(e) => {
            assert_eq!(e, AuthError::InvalidApiKey);
            assert_eq!(e.message(), "Invalid API key");
            assert_eq!(e.status(), 401);
        },
        Ok(_) => panic!("a key without a record must be rejected"),
    }
}

#[test]
fn revoked_key_always_rejected() {
    let rec = ApiKeyRecord {
        revoked_at: Some(String::from("2020-01-01T00:00:00Z")),
        expires_at: None,
        user_id: String::from("u1"),
    };
    assert_eq!(AuthBlock::check_api_key(&rec, 0), Err(AuthError::KeyRevoked));
    // Revocation wins over every other field, even a future expiry.
    let rec2 = ApiKeyRecord {
        revoked_at: Some(String::from("x")),
        expires_at: Some(String::from("2999-01-01T00:00:00Z")),
        user_id: String::from("u1"),
    };
    assert_eq!(AuthBlock::check_api_key(&rec2, 0), Err(AuthError::KeyRevoked));
}

#[test]
fn past_expiry_rejects() {
    let rec = ApiKeyRecord {
        revoked_at: None,
        expires_at: Some(String::from("2000-01-01T00:00:00Z")),
        user_id: String::from("u1"),
    };
    // Well after 2000-01-01, in epoch milliseconds.
    let now = 1_600_000_000_000i64;
    assert_eq!(AuthBlock::check_api_key(&rec, now), Err(AuthError::KeyExpired));
}

#[test]
fn future_expiry_accepts() {
    let rec = ApiKeyRecord {
        revoked_at: None,
        expires_at: Some(String::from("2999-01-01T00:00:00Z")),
        user_id: String::from("u1"),
    };
    assert_eq!(AuthBlock::check_api_key(&rec, 1_600_000_000_000i64), Ok(()));
}

#[test]
fn unparseable_or_empty_expiry_never_expires() {
    for e in ["not a date", "", "2020-13-45T99:99:99Z"] {
        let rec = ApiKeyRecord {
            revoked_at: None,
            expires_at: Some(String::from(e)),
            user_id: String::from("u1"),
        };
        assert_eq!(AuthBlock::check_api_key(&rec, i64::MAX), Ok(()));
    }
    let rec = ApiKeyRecord { revoked_at: None, expires_at: None, user_id: String::from("u1") };
    assert_eq!(AuthBlock::check_api_key(&rec, i64::MAX), Ok(()));
}

#[test]
fn key_without_user_rejected() {
    let rec = ApiKeyRecord { revoked_at: None, expires_at: None, user_id: String::new() };
    assert_eq!(AuthBlock::check_api_key(&rec, 0), Err(AuthError::KeyWithoutUser));
    let r = AuthBlock::validate_api_key(Some(rec), 0, String::new(), Vec::new());
    match r {
        Err(e) => assert_eq!(e.message(), "API key has no associated user"),
        Ok(_) => panic!("a key without a user must be rejected"),
    }
}

#[test]
fn valid_key_yields_identity() {
    let rec = ApiKeyRecord {
        revoked_at: None,
        expires_at: None,
        user_id: String::from("user-7"),
    };
    let roles = vec![String::from("admin")];
    let id = AuthBlock::validate_api_key(
        Some(rec),
        0,
        String::from("a@b.c"),
        roles,
    )
    .expect("usable key must yield an identity");
    assert_eq!(id.user_id, "user-7");
    assert_eq!(id.email, "a@b.c");
    assert_eq!(id.roles, vec![String::from("admin")]);
}

#[test]
fn failed_verification_rejects_token() {
    match AuthBlock::validate_jwt(None) {
        Err(e) => {
            assert_eq!(e, AuthError::InvalidToken);
            assert_eq!(e.message(), "Invalid or expired token");
        },
        Ok(_) => panic!("an unverified token must be rejected"),
    }
}

#[test]
fn comma_separated_roles_claim_splits() {
    let claims = Claims {
        user_id: StrClaim::Str(String::from("u1")),
        roles: RolesClaim::Text(String::from("admin, editor")),
        ..no_claims()
    };
    let id = AuthBlock::validate_jwt(Some(claims)).expect("claims with a user id must pass");
    assert_eq!(id.roles, vec![String::from("admin"), String::from("editor")]);
}

#[test]
fn array_roles_claim_kept() {
    let claims = Claims {
        user_id: StrClaim::Str(String::from("u1")),
        roles: RolesClaim::List(vec![String::from("admin"), String::from("viewer")]),
        ..no_claims()
    };
    let id = AuthBlock::validate_jwt(Some(claims)).expect("claims with a user id must pass");
    assert_eq!(id.roles, vec![String::from("admin"), String::from("viewer")]);
}

#[test]
fn sub_claim_backs_up_user_id() {
    let claims = Claims { sub: StrClaim::Str(String::from("s-9")), ..no_claims() };
    let id = AuthBlock::validate_jwt(Some(claims)).expect("sub claim must resolve the user");
    assert_eq!(id.user_id, "s-9");
}

#[test]
fn missing_user_id_rejects() {
    match AuthBlock::validate_jwt(Some(no_claims())) {
        Err(e) => assert_eq!(e.message(), "Token missing user_id"),
        Ok(_) => panic!("claims without a user id must be rejected"),
    }
    // Present but non-string user_id does not fall back to sub.
    let claims = Claims {
        user_id: StrClaim::Wrong,
        sub: StrClaim::Str(String::from("s-9")),
        ..no_claims()
    };
    assert_eq!(AuthBlock::validate_jwt(Some(claims)).err(), Some(AuthError::TokenWithoutUser));
}

#[test]
fn identity_meta_entries() {
    let id = wafer_core::auth::Identity {
        user_id: String::from("u1"),
        email: String::from("a@b.c"),
        roles: vec![String::from("admin"), String::from("editor")],
    };
    let meta = AuthBlock::identity_meta(&id);
    assert_eq!(meta.len(), 3);
    assert_eq!(meta[0], (String::from("auth.user_id"), String::from("u1")));
    assert_eq!(meta[1], (String::from("auth.user_email"), String::from("a@b.c")));
    assert_eq!(meta[2], (String::from("auth.user_roles"), String::from("admin,editor")));
}

#[test]
fn identity_meta_skips_empty_fields() {
    let id = wafer_core::auth::Identity {
        user_id: String::from("u1"),
        email: String::new(),
        roles: Vec::new(),
    };
    let meta = AuthBlock::identity_meta(&id);
    assert_eq!(meta, vec![(String::from("auth.user_id"), String::from("u1"))]);
}

#[test]
fn infrastructure_failures_are_500() {
    assert_eq!(AuthError::ServicesUnavailable.status(), 500);
    assert_eq!(AuthError::DatabaseUnavailable.status(), 500);
    assert_eq!(AuthError::CryptoUnavailable.status(), 500);
    assert_eq!(AuthError::HashFailed.status(), 500);
    assert_eq!(AuthError::NoToken.status(), 401);
    assert_eq!(AuthError::NoToken.message(), "No authentication token provided");
}
