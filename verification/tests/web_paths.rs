use livekit_monitor::web::{
    base_path_segment, build_index_html, is_api_path, mime_from_path, static_asset_path, strip_base,
};

#[test]
fn mime_types_by_extension() {
    assert_eq!(mime_from_path("index.html"), "text/html; charset=utf-8");
    assert_eq!(mime_from_path("assets/app.js"), "application/javascript; charset=utf-8");
    assert_eq!(mime_from_path("assets/app.mjs"), "application/javascript; charset=utf-8");
    assert_eq!(mime_from_path("assets/app.css"), "text/css; charset=utf-8");
    assert_eq!(mime_from_path("data.json"), "application/json; charset=utf-8");
    assert_eq!(mime_from_path("vite.svg"), "image/svg+xml");
    assert_eq!(mime_from_path("a.png"), "image/png");
    assert_eq!(mime_from_path("a.jpg"), "image/jpeg");
    assert_eq!(mime_from_path("a.jpeg"), "image/jpeg");
    assert_eq!(mime_from_path("a.gif"), "image/gif");
    assert_eq!(mime_from_path("favicon.ico"), "image/x-icon");
    assert_eq!(mime_from_path("f.woff"), "font/woff");
    assert_eq!(mime_from_path("f.woff2"), "font/woff2");
    assert_eq!(mime_from_path("f.ttf"), "font/ttf");
    assert_eq!(mime_from_path("m.wasm"), "application/wasm");
    assert_eq!(mime_from_path("README"), "application/octet-stream");
    assert_eq!(mime_from_path("a.HTML"), "application/octet-stream");
}

#[test]
fn strip_base_removes_base_then_slashes() {
    assert_eq!(strip_base("/monitor", "/monitor/assets/app.js"), "assets/app.js");
    assert_eq!(strip_base("/monitor", "/monitor"), "");
    assert_eq!(strip_base("/monitor", "/other/app.js"), "other/app.js");
    assert_eq!(strip_base("", "//assets/app.js"), "assets/app.js");
    assert_eq!(strip_base("/monitor", "/monitor//x"), "x");
}

#[test]
fn static_asset_path_is_none_for_the_site_root() {
    assert_eq!(static_asset_path("/monitor", "/monitor/"), None);
    assert_eq!(static_asset_path("", "/"), None);
    assert_eq!(static_asset_path("", "/assets/app.js"), Some("assets/app.js"));
}

#[test]
fn api_paths_are_recognised_under_a_base() {
    assert!(is_api_path("", "/api/rooms"));
    assert!(is_api_path("/monitor", "/monitor/api/rooms"));
    assert!(is_api_path("/monitor", "/api/rooms"));
    assert!(!is_api_path("/monitor", "/monitor/rooms"));
    assert!(!is_api_path("", "/apiary"));
}

#[test]
fn base_path_segment_drops_surrounding_slashes() {
    assert_eq!(base_path_segment("/monitor/"), "monitor");
    assert_eq!(base_path_segment("//a/b//"), "a/b");
    assert_eq!(base_path_segment(""), "");
}

#[test]
fn index_without_base_gets_only_the_script() {
    let raw = "<html><head><title>x</title></head><body><script src=\"/assets/app.js\"></script></body></html>";
    let out = String::from_utf8(build_index_html(raw, "")).unwrap();
    assert_eq!(
        out,
        "<html><head><title>x</title><script>window.__BASE_PATH__ = \"\";</script>\n</head><body><script src=\"/assets/app.js\"></script></body></html>"
    );
}

#[test]
fn index_under_base_moves_asset_links() {
    let raw = "<head><link href=\"/vite.svg\"><link href=\"/assets/a.css\"></head><script src=\"/assets/app.js\"></script>";
    let out = String::from_utf8(build_index_html(raw, "/monitor")).unwrap();
    assert_eq!(
        out,
        "<head><link href=\"/monitor/vite.svg\"><link href=\"/monitor/assets/a.css\"><script>window.__BASE_PATH__ = \"/monitor\";</script>\n</head><script src=\"/monitor/assets/app.js\"></script>"
    );
}

#[test]
fn index_without_head_is_left_as_is() {
    let out = String::from_utf8(build_index_html("<p>hi</p>", "")).unwrap();
    assert_eq!(out, "<p>hi</p>");
}
