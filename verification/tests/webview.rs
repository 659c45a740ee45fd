use lartycc::webview::{
    asset_access, asset_headers, asset_relative_path, content_type, ipc_request_body, is_app_url,
    resolution_call, resolution_script, AssetFailure, INITIALIZATION_SCRIPT, MAX_IPC_BYTES,
    PLAIN_TEXT_TYPE,
};

#[test]
fn asset_paths_are_relative_and_cannot_traverse() {
    assert_eq!(asset_relative_path("/"), Some("index.html"));
    assert_eq!(asset_relative_path("/assets/app.js"), Some("assets/app.js"));
    for invalid in ["/../secret", "/assets/../../secret", "/a\\b", "/%2e%2e/secret"] {
        assert_eq!(asset_relative_path(invalid), None);
    }
}

#[test]
fn asset_path_edge_cases() {
    assert_eq!(asset_relative_path(""), Some("index.html"));
    assert_eq!(asset_relative_path("///"), Some("index.html"));
    assert_eq!(asset_relative_path("//a/b.css"), Some("a/b.css"));
    assert_eq!(asset_relative_path("a/b"), Some("a/b"));
    assert_eq!(asset_relative_path("/a//b"), None);
    assert_eq!(asset_relative_path("/a/"), None);
    assert_eq!(asset_relative_path("/./a"), None);
    assert_eq!(asset_relative_path("/a/.."), None);
    assert_eq!(asset_relative_path("/...") , Some("..."));
    assert_eq!(asset_relative_path("/.hidden"), Some(".hidden"));
}

#[test]
fn bridge_and_response_script_use_the_controlled_global() {
    assert!(INITIALIZATION_SCRIPT.contains("window.lartyccHost"));
    assert!(INITIALIZATION_SCRIPT.contains("new TextEncoder()"));
    assert!(INITIALIZATION_SCRIPT.contains("request_too_large"));
    let script = resolution_script(r#"{"version":1,"id":"one","ok":true,"result":{}}"#)
        .expect("valid response");
    assert!(script.starts_with("window.__lartyccHostResolve?.("));
    assert!(resolution_script("not-json").is_err());
    assert_eq!(content_type("assets/app.js"), "text/javascript; charset=utf-8");
}

#[test]
fn response_script_embeds_compact_json() {
    assert_eq!(
        resolution_script("{ \"a\" : [1, 2] }").unwrap(),
        "window.__lartyccHostResolve?.({\"a\":[1,2]});"
    );
    assert_eq!(resolution_call("null"), "window.__lartyccHostResolve?.(null);");
}

#[test]
fn content_types_follow_the_extension() {
    assert_eq!(content_type("index.html"), "text/html; charset=utf-8");
    assert_eq!(content_type("INDEX.HTML"), "text/html; charset=utf-8");
    assert_eq!(content_type("a/b.Css"), "text/css; charset=utf-8");
    assert_eq!(content_type("logo.svg"), "image/svg+xml");
    assert_eq!(content_type("logo.png"), "image/png");
    assert_eq!(content_type("font.woff2"), "font/woff2");
    assert_eq!(content_type("archive.tar.gz"), "application/octet-stream");
    assert_eq!(content_type(".js"), "application/octet-stream");
    assert_eq!(content_type("js"), "application/octet-stream");
    assert_eq!(content_type("dir.js/"), "text/javascript; charset=utf-8");
    assert_eq!(content_type("app.js/."), "text/javascript; charset=utf-8");
    assert_eq!(content_type("x.js/.."), "application/octet-stream");
    assert_eq!(content_type(""), "application/octet-stream");
}

#[test]
fn only_app_urls_are_navigable() {
    assert!(is_app_url("lartycc://localhost/index.html".to_string()));
    assert!(is_app_url("http://lartycc.localhost/x".to_string()));
    assert!(!is_app_url("https://example.com/".to_string()));
    assert!(!is_app_url("lartycc://localhost".to_string()));
}

#[test]
fn oversized_ipc_messages_become_invalid() {
    let small = "x".repeat(MAX_IPC_BYTES);
    assert_eq!(ipc_request_body(small.clone()), small);
    let large = "x".repeat(MAX_IPC_BYTES + 1);
    assert_eq!(ipc_request_body(large), "{");
}

#[test]
fn refused_asset_requests_have_their_status_and_body() {
    assert_eq!(AssetFailure::InvalidPath.status(), 400);
    assert_eq!(AssetFailure::InvalidPath.body(), "invalid path");
    assert_eq!(AssetFailure::NotFound.status(), 404);
    assert_eq!(AssetFailure::NotFound.body(), "not found");
    assert_eq!(AssetFailure::Forbidden.status(), 403);
    assert_eq!(AssetFailure::Forbidden.body(), "forbidden");
    assert_eq!(AssetFailure::ReadFailed.status(), 500);
    assert_eq!(AssetFailure::ReadFailed.body(), "asset read failed");
    assert_eq!(PLAIN_TEXT_TYPE, "text/plain; charset=utf-8");
}

#[test]
fn asset_responses_carry_the_security_headers() {
    let headers = asset_headers("image/png");
    assert_eq!(
        headers,
        vec![
            ("content-type", "image/png"),
            ("x-content-type-options", "nosniff"),
            ("cache-control", "no-store"),
            (
                "content-security-policy",
                "default-src 'self'; script-src 'self'; style-src 'self' 'unsafe-inline'; img-src 'self' data:; connect-src 'none'; object-src 'none'; base-uri 'none'; frame-ancestors 'none'"
            ),
        ]
    );
}

#[test]
fn only_regular_files_under_the_root_are_served() {
    assert_eq!(asset_access(true, true), Ok(()));
    assert_eq!(asset_access(false, true), Err(AssetFailure::Forbidden));
    assert_eq!(asset_access(true, false), Err(AssetFailure::Forbidden));
}
