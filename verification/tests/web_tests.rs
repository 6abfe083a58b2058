use wafer_core::web::{
    cache_control, clean_path, directory_target, has_hidden_segment, is_hashed_asset,
    mime_for_path, path_starts_with, plan_request, resolve_step, spa_fallback_headers,
    ResolveOutcome, ServeStep, WebBlock,
};

fn default_config() -> wafer_core::web::WebConfig {
    WebBlock::new().get_config(None, None, None, None, None, None)
}

#[test]
fn clean_path_is_idempotent() {
    let once = clean_path("/a/../a/b");
    assert_eq!(once, "/a/b");
    assert_eq!(clean_path(&once), once);
    assert_eq!(clean_path("/a/b"), "/a/b");
}

#[test]
fn clean_path_never_escapes() {
    assert_eq!(clean_path("/../../etc/passwd"), "/etc/passwd");
    assert_eq!(clean_path("/.."), "/");
    assert_eq!(clean_path("a//b/./c/../d"), "/a/b/d");
    assert_eq!(clean_path(""), "/");
}

#[test]
fn traversal_request_is_not_found() {
    let config = default_config();
    // The normalised relative path cannot name anything under ./public,
    // so resolution fails, and without SPA mode the answer is 404.
    match plan_request("retrieve", "/../../etc/passwd", &config) {
        ServeStep::Resolve { rel } => assert_eq!(rel, "etc/passwd"),
        _ => panic!("a traversal path must still be planned, normalised"),
    }
    match resolve_step("/srv/public", None, config.spa) {
        ResolveOutcome::NotFound => {},
        _ => panic!("an unresolved path without SPA mode must be 404"),
    }
}

#[test]
fn containment_refuses_escapes() {
    // Even a path that resolved somewhere real is refused when it lies
    // outside the canonical root, as a symlink escape would.
    match resolve_step("/srv/public", Some(String::from("/etc/passwd")), true) {
        ResolveOutcome::NotFound => {},
        _ => panic!("a resolved path outside the root must be 404"),
    }
    match resolve_step("/srv/public", Some(String::from("/srv/public-data/x")), false) {
        ResolveOutcome::NotFound => {},
        _ => panic!("a sibling with the root as a string prefix is not inside it"),
    }
    match resolve_step("/srv/public", Some(String::from("/srv/public/app.js")), false) {
        ResolveOutcome::Serve { path } => assert_eq!(path, "/srv/public/app.js"),
        _ => panic!("a path inside the root must be served"),
    }
    assert!(path_starts_with("/srv/public/a/b", "/srv/public"));
    assert!(!path_starts_with("/srv/publicx", "/srv/public"));
}

#[test]
fn hidden_segments_are_not_found() {
    assert!(has_hidden_segment("/.git/config"));
    assert!(!has_hidden_segment("/a/b.txt"));
    let config = default_config();
    match plan_request("retrieve", "/.env", &config) {
        ServeStep::NotFound => {},
        _ => panic!("a hidden file must be 404"),
    }
}

#[test]
fn only_get_equivalents_are_served() {
    let config = default_config();
    match plan_request("create", "/index.html", &config) {
        ServeStep::MethodNotAllowed => {},
        _ => panic!("non-GET requests must be 405"),
    }
    match plan_request("", "/index.html", &config) {
        ServeStep::Resolve { rel } => assert_eq!(rel, "index.html"),
        _ => panic!("an empty action is served"),
    }
}

#[test]
fn empty_path_maps_to_index() {
    let config = default_config();
    match plan_request("retrieve", "/", &config) {
        ServeStep::Resolve { rel } => assert_eq!(rel, "index.html"),
        _ => panic!("the bare slash maps to the index file"),
    }
    let with_prefix = WebBlock::new().get_config(None, Some("/site"), None, None, None, None);
    match plan_request("retrieve", "/site/app.css", &with_prefix) {
        ServeStep::Resolve { rel } => assert_eq!(rel, "app.css"),
        _ => panic!("the configured prefix is stripped"),
    }
}

#[test]
fn spa_fallback_serves_index_with_no_cache() {
    let spa_config = WebBlock::new().get_config(None, None, Some("true"), None, None, None);
    assert!(spa_config.spa);
    match plan_request("retrieve", "/dashboard/settings", &spa_config) {
        ServeStep::Resolve { rel } => assert_eq!(rel, "dashboard/settings"),
        _ => panic!("an SPA route is planned like any path"),
    }
    match resolve_step("/srv/public", None, spa_config.spa) {
        ResolveOutcome::SpaFallback => {},
        _ => panic!("an unresolved path in SPA mode serves the index"),
    }
    let (content_type, cache) = spa_fallback_headers();
    assert_eq!(content_type, "text/html; charset=utf-8");
    assert_eq!(cache, "no-cache");
}

#[test]
fn directories_serve_their_index() {
    let t = directory_target(String::from("/srv/public/docs"), "index.html", true, true);
    assert_eq!(t.as_deref(), Some("/srv/public/docs/index.html"));
    let none = directory_target(String::from("/srv/public/docs"), "index.html", true, false);
    assert!(none.is_none());
    let file = directory_target(String::from("/srv/public/a.js"), "index.html", false, false);
    assert_eq!(file.as_deref(), Some("/srv/public/a.js"));
}

#[test]
fn mime_table_covers_common_types() {
    assert_eq!(mime_for_path("/x/index.html"), "text/html; charset=utf-8");
    assert_eq!(mime_for_path("/x/app.3f9a21.js"), "application/javascript; charset=utf-8");
    assert_eq!(mime_for_path("/x/style.css"), "text/css; charset=utf-8");
    assert_eq!(mime_for_path("/x/LOGO.PNG"), "image/png");
    assert_eq!(mime_for_path("/x/font.woff2"), "font/woff2");
    assert_eq!(mime_for_path("/x/archive.unknownext"), "application/octet-stream");
    assert_eq!(mime_for_path("/x/noext"), "application/octet-stream");
    assert_eq!(mime_for_path("/x/.bashrc"), "application/octet-stream");
}

#[test]
fn hashed_assets_are_immutable() {
    let cc = cache_control(
        "/assets/app.3f9a21.js",
        "application/javascript; charset=utf-8",
        3600,
        31536000,
    );
    assert_eq!(cc, "public, max-age=31536000, immutable");
    // The stem heuristic alone, without a build directory.
    assert!(is_hashed_asset("/js/app-4cafe9.js"));
    let cc2 = cache_control("/js/app-4cafe9.js", "application/javascript; charset=utf-8", 3600, 31536000);
    assert_eq!(cc2, "public, max-age=31536000, immutable");
}

#[test]
fn plain_assets_get_bounded_caching() {
    assert!(!is_hashed_asset("/style.css"));
    let cc = cache_control("/style.css", "text/css; charset=utf-8", 3600, 31536000);
    assert_eq!(cc, "public, max-age=3600");
}

#[test]
fn html_always_revalidates() {
    // Even a hashed path: the content-type check comes first.
    let cc = cache_control("/assets/page.1a2b3c.html", "text/html; charset=utf-8", 3600, 31536000);
    assert_eq!(cc, "no-cache");
}

#[test]
fn hash_heuristic_needs_digits_and_letters() {
    assert!(!is_hashed_asset("/app-abcdef.js"));
    assert!(!is_hashed_asset("/app-123456.js"));
    assert!(is_hashed_asset("/app-abc123.js"));
    assert!(!is_hashed_asset("/app-a1b.js"));
    assert!(is_hashed_asset("/_next/static/whatever.js"));
}

#[test]
fn config_overrides_win_where_they_parse() {
    let block = WebBlock::new();
    let config = block.get_config(
        Some("./dist"),
        Some("/site"),
        Some("yes"),
        Some("home.html"),
        Some("60"),
        Some("oops"),
    );
    assert_eq!(config.root, "./dist");
    assert_eq!(config.prefix, "/site");
    assert!(!config.spa);
    assert_eq!(config.index_file, "home.html");
    assert_eq!(config.cache_max_age, 60);
    assert_eq!(config.immutable_max_age, 31536000);
}
