use wafer_core::iam::{IAMBlock, IamDecision};
use wafer_core::rate::{rate_headers, RateDecision, RateLimitBlock};

#[test]
fn quota_exhausts_at_max_plus_one() {
    let mut block = RateLimitBlock::new();
    let (max, window) = (block.max_requests, block.window_secs);
    assert_eq!(max, 100);
    assert_eq!(window, 60);
    let now = 1000u64;
    for k in 1..=100u32 {
        match block.handle("10.0.0.1", now, max, window) {
            RateDecision::Allowed { limit, remaining } => {
                assert_eq!(limit, 100);
                assert_eq!(remaining, 100 - k);
            },
            _ => panic!("request {} within quota must be admitted", k),
        }
    }
    // The 101st request inside the same window.
    match block.handle("10.0.0.1", now + 30, max, window) {
        RateDecision::Limited { limit, retry_after } => {
            assert_eq!(limit, 100);
            assert!(retry_after <= 60);
            assert_eq!(retry_after, 30);
            let headers = rate_headers(&RateDecision::Limited { limit, retry_after });
            assert_eq!(headers[0], (String::from("Retry-After"), String::from("30")));
            assert_eq!(headers[1], (String::from("X-RateLimit-Limit"), String::from("100")));
            assert_eq!(headers[2], (String::from("X-RateLimit-Remaining"), String::from("0")));
        },
        _ => panic!("the 101st request within one window must be rejected"),
    }
}

#[test]
fn window_expiry_resets_counter() {
    let mut block = RateLimitBlock::new();
    let now = 1000u64;
    for _ in 0..150 {
        block.handle("10.0.0.2", now, 100, 60);
    }
    // More than one window later: the first request is admitted with a
    // counter reset to 1.
    match block.handle("10.0.0.2", now + 61, 100, 60) {
        RateDecision::Allowed { limit, remaining } => {
            assert_eq!(limit, 100);
            assert_eq!(remaining, 99);
        },
        _ => panic!("the first request of a fresh window must be admitted"),
    }
}

#[test]
fn clients_are_limited_independently() {
    let mut block = RateLimitBlock::new();
    for _ in 0..3 {
        block.handle("10.0.0.3", 5, 3, 60);
    }
    match block.handle("10.0.0.3", 6, 3, 60) {
        RateDecision::Limited { .. } => {},
        _ => panic!("the fourth request of one client must be rejected"),
    }
    match block.handle("10.0.0.4", 6, 3, 60) {
        RateDecision::Allowed { remaining, .. } => assert_eq!(remaining, 2),
        _ => panic!("another client's first request must be admitted"),
    }
}

#[test]
fn missing_address_bypasses_limiting() {
    let mut block = RateLimitBlock::new();
    for _ in 0..500 {
        match block.handle("", 0, 3, 60) {
            RateDecision::Bypass => {},
            _ => panic!("requests without a client address are never limited"),
        }
    }
}

#[test]
fn allowed_headers_name_the_quota() {
    let headers = rate_headers(&RateDecision::Allowed { limit: 100, remaining: 42 });
    assert_eq!(headers[0], (String::from("X-RateLimit-Limit"), String::from("100")));
    assert_eq!(headers[1], (String::from("X-RateLimit-Remaining"), String::from("42")));
    assert!(rate_headers(&RateDecision::Bypass).is_empty());
}

#[test]
fn limit_overrides_parse_or_fall_back() {
    let block = RateLimitBlock::new();
    assert_eq!(block.effective_limits(Some("5"), Some("30")), (5, 30));
    assert_eq!(block.effective_limits(Some("nope"), None), (100, 60));
    assert_eq!(block.effective_limits(None, Some("1e3")), (100, 60));
}

#[test]
fn missing_identity_is_unauthenticated() {
    assert_eq!(IAMBlock::handle("", Some(true), "admin", "admin"), IamDecision::Unauthenticated);
}

#[test]
fn store_answer_decides_alone() {
    // A store "no", with the role present in metadata, still denies.
    assert_eq!(IAMBlock::handle("u1", Some(false), "admin,editor", "admin"), IamDecision::Forbidden);
    // A store "yes", with empty metadata, allows.
    assert_eq!(IAMBlock::handle("u1", Some(true), "", "admin"), IamDecision::Allowed);
}

#[test]
fn metadata_fallback_matches_trimmed_entries() {
    assert_eq!(IAMBlock::handle("u1", None, "viewer, admin", "admin"), IamDecision::Allowed);
    assert_eq!(IAMBlock::handle("u1", None, "viewer,editor", "admin"), IamDecision::Forbidden);
    assert!(!IAMBlock::has_role_meta("", "admin"));
    assert!(IAMBlock::has_role_meta(" admin ", "admin"));
}

#[test]
fn forbidden_message_names_the_role() {
    assert_eq!(IAMBlock::forbidden_message("admin"), "Requires 'admin' role");
    assert_eq!(IAMBlock::required_role(None), "admin");
    assert_eq!(IAMBlock::required_role(Some("editor")), "editor");
}
