use wafer_core::cors::{cors_headers, CorsBlock};
use wafer_core::outcome::ErrorKind;
use wafer_core::readonly_guard::ReadonlyGuardBlock;
use wafer_core::strutil::{
    join_strings, parse_bool, parse_u32, parse_u64, split_char, trim_str, u64_to_string,
};

#[test]
fn wildcard_reflects_origin_without_credentials() {
    let d = CorsBlock::decide("https://a.example", "*");
    assert_eq!(d.allow_origin.as_deref(), Some("https://a.example"));
    assert!(!d.credentials);
}

#[test]
fn allowlisted_origin_gets_credentials() {
    let d = CorsBlock::decide("https://a.example", "https://b.example, https://a.example");
    assert_eq!(d.allow_origin.as_deref(), Some("https://a.example"));
    assert!(d.credentials);
}

#[test]
fn unlisted_origin_gets_no_header() {
    let d = CorsBlock::decide("https://evil.example", "https://a.example");
    assert!(d.allow_origin.is_none());
    assert!(!d.credentials);
}

#[test]
fn absent_origin_echoes_the_allowlist() {
    let d = CorsBlock::decide("", "https://a.example");
    assert_eq!(d.allow_origin.as_deref(), Some("https://a.example"));
    assert!(!d.credentials);
}

#[test]
fn cors_header_assembly() {
    let block = CorsBlock::new();
    let d = CorsBlock::decide("https://a.example", "https://a.example");
    let hs = cors_headers(&d, &block.allowed_methods, &block.allowed_headers, &block.max_age);
    assert_eq!(hs.len(), 5);
    assert_eq!(
        hs[0],
        (String::from("Access-Control-Allow-Origin"), String::from("https://a.example"))
    );
    assert_eq!(
        hs[3],
        (String::from("Access-Control-Allow-Credentials"), String::from("true"))
    );
    assert_eq!(hs[4], (String::from("Access-Control-Max-Age"), String::from("86400")));
}

#[test]
fn readonly_guard_blocks_writes_only() {
    assert!(ReadonlyGuardBlock::handle(true, "create"));
    assert!(ReadonlyGuardBlock::handle(true, "update"));
    assert!(ReadonlyGuardBlock::handle(true, "delete"));
    assert!(!ReadonlyGuardBlock::handle(true, "retrieve"));
    assert!(!ReadonlyGuardBlock::handle(false, "delete"));
    let block = ReadonlyGuardBlock::new();
    assert!(!block.enabled);
    assert!(block.readonly_enabled(Some("true")));
    assert!(block.readonly_enabled(Some("1")));
    assert!(!block.readonly_enabled(Some("yes")));
    assert!(!block.readonly_enabled(None));
}

#[test]
fn error_kinds_map_to_statuses() {
    assert_eq!(ErrorKind::Unauthenticated.status(), 401);
    assert_eq!(ErrorKind::Forbidden.status(), 403);
    assert_eq!(ErrorKind::RateLimited.status(), 429);
    assert_eq!(ErrorKind::NotFound.status(), 404);
    assert_eq!(ErrorKind::MethodNotAllowed.status(), 405);
    assert_eq!(ErrorKind::InfrastructureUnavailable.status(), 500);
}

#[test]
fn split_and_join_round_trip() {
    let parts = split_char("a,b,,c", ',');
    assert_eq!(parts, vec!["a", "b", "", "c"]);
    assert_eq!(join_strings(&parts, ","), "a,b,,c");
    assert_eq!(split_char("", ','), vec![""]);
    assert_eq!(split_char(",", ','), vec!["", ""]);
}

#[test]
fn trimming_removes_surrounding_whitespace() {
    assert_eq!(trim_str("  a b \t"), "a b");
    assert_eq!(trim_str("\r\n"), "");
    assert_eq!(trim_str("x"), "x");
}

#[test]
fn decimal_formatting_is_exact() {
    assert_eq!(u64_to_string(0), "0");
    assert_eq!(u64_to_string(31536000), "31536000");
    assert_eq!(u64_to_string(u64::MAX), u64::MAX.to_string());
}

#[test]
fn numeric_parsing_matches_std() {
    assert_eq!(parse_u32("100"), Some(100));
    assert_eq!(parse_u32("+7"), Some(7));
    assert_eq!(parse_u32(""), None);
    assert_eq!(parse_u32("+"), None);
    assert_eq!(parse_u32("12a"), None);
    assert_eq!(parse_u32("4294967295"), Some(u32::MAX));
    assert_eq!(parse_u32("4294967296"), None);
    assert_eq!(parse_u64("18446744073709551615"), Some(u64::MAX));
    assert_eq!(parse_u64("18446744073709551616"), None);
    assert_eq!(parse_bool("true"), Some(true));
    assert_eq!(parse_bool("false"), Some(false));
    assert_eq!(parse_bool("True"), None);
}
