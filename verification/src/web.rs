//! Serving the embedded single-page frontend: content types, paths under an
//! optional base path, and the index page with the base path injected.
use vstd::prelude::*;
use crate::text::{
    concat, concat3, ends_with, replace, seq_ends_with, seq_starts_with, skip_leading,
    skip_trailing, spec_replace, starts_with, strip_prefix, trim_char, trim_start_char,
};

verus! {

/// The content type served for a path, chosen by its extension.
pub open spec fn spec_mime(path: Seq<char>) -> Seq<char> {
    if seq_ends_with(path, ".html"@) {
        "text/html; charset=utf-8"@
    } else if seq_ends_with(path, ".js"@) {
        "application/javascript; charset=utf-8"@
    } else if seq_ends_with(path, ".mjs"@) {
        "application/javascript; charset=utf-8"@
    } else if seq_ends_with(path, ".css"@) {
        "text/css; charset=utf-8"@
    } else if seq_ends_with(path, ".json"@) {
        "application/json; charset=utf-8"@
    } else if seq_ends_with(path, ".svg"@) {
        "image/svg+xml"@
    } else if seq_ends_with(path, ".png"@) {
        "image/png"@
    } else if seq_ends_with(path, ".jpg"@) || seq_ends_with(path, ".jpeg"@) {
        "image/jpeg"@
    } else if seq_ends_with(path, ".gif"@) {
        "image/gif"@
    } else if seq_ends_with(path, ".ico"@) {
        "image/x-icon"@
    } else if seq_ends_with(path, ".woff"@) {
        "font/woff"@
    } else if seq_ends_with(path, ".woff2"@) {
        "font/woff2"@
    } else if seq_ends_with(path, ".ttf"@) {
        "font/ttf"@
    } else if seq_ends_with(path, ".wasm"@) {
        "application/wasm"@
    } else {
        "application/octet-stream"@
    }
}

/// The content type served for a path, chosen by its extension.
pub fn mime_from_path(path: &str) -> (m: &'static str)
    ensures
        m@ == spec_mime(path@),
{
    if ends_with(path, ".html") {
        "text/html; charset=utf-8"
    } else if ends_with(path, ".js") {
        "application/javascript; charset=utf-8"
    } else if ends_with(path, ".mjs") {
        "application/javascript; charset=utf-8"
    } else if ends_with(path, ".css") {
        "text/css; charset=utf-8"
    } else if ends_with(path, ".json") {
        "application/json; charset=utf-8"
    } else if ends_with(path, ".svg") {
        "image/svg+xml"
    } else if ends_with(path, ".png") {
        "image/png"
    } else if ends_with(path, ".jpg") || ends_with(path, ".jpeg") {
        "image/jpeg"
    } else if ends_with(path, ".gif") {
        "image/gif"
    } else if ends_with(path, ".ico") {
        "image/x-icon"
    } else if ends_with(path, ".woff") {
        "font/woff"
    } else if ends_with(path, ".woff2") {
        "font/woff2"
    } else if ends_with(path, ".ttf") {
        "font/ttf"
    } else if ends_with(path, ".wasm") {
        "application/wasm"
    } else {
        "application/octet-stream"
    }
}

/// A request path relative to the site: the base path removed when it is a
/// prefix, then the leading slashes.
pub open spec fn spec_strip_base(base: Seq<char>, full: Seq<char>) -> Seq<char> {
    if base.len() > 0 && seq_starts_with(full, base) {
        skip_leading(full.skip(base.len() as int), '/')
    } else {
        skip_leading(full, '/')
    }
}

/// Strips the base path prefix, then leading slashes, from a path.
pub fn strip_base<'a>(base_path: &str, full_path: &'a str) -> (r: &'a str)
    ensures
        r@ == spec_strip_base(base_path@, full_path@),
{
    if !base_path.is_empty() {
        if let Some(rest) = strip_prefix(full_path, base_path) {
            return trim_start_char(rest, '/');
        }
    }
    trim_start_char(full_path, '/')
}

/// The asset a request asks for: the path relative to the site, when it is
/// not empty.
pub fn static_asset_path<'a>(base_path: &str, full_path: &'a str) -> (r: Option<&'a str>)
    ensures
        match r {
            Some(p) => p@ == spec_strip_base(base_path@, full_path@) && p@.len() > 0,
            None => spec_strip_base(base_path@, full_path@).len() == 0,
        },
{
    let path = strip_base(base_path, full_path);
    if path.is_empty() {
        None
    } else {
        Some(path)
    }
}

/// Whether a request path belongs to the API (and so never to the
/// single-page fallback).
pub open spec fn spec_is_api_path(base: Seq<char>, full: Seq<char>) -> bool {
    seq_starts_with(spec_strip_base(base, full), "api/"@) || seq_starts_with(full, "/api/"@)
}

/// Whether a request path belongs to the API.
pub fn is_api_path(base_path: &str, full_path: &str) -> (r: bool)
    ensures
        r == spec_is_api_path(base_path@, full_path@),
{
    let stripped = strip_base(base_path, full_path);
    starts_with(stripped, "api/") || starts_with(full_path, "/api/")
}

/// The base path as one path segment, without surrounding slashes.
pub fn base_path_segment(base_path: &str) -> (r: String)
    ensures
        r@ == skip_trailing(skip_leading(base_path@, '/'), '/'),
{
    trim_char(base_path, '/').to_owned()
}

/// The script that tells the frontend its base path.
pub open spec fn base_path_script(base: Seq<char>) -> Seq<char> {
    "<script>window.__BASE_PATH__ = \""@ + base + "\";</script>"@
}

/// The index page served for the site: the base path script placed before
/// `</head>`, and, under a base path, the asset links moved beneath it.
pub open spec fn spec_index_html(raw: Seq<char>, base: Seq<char>) -> Seq<char> {
    let html = spec_replace(raw, "</head>"@, base_path_script(base) + "\n</head>"@);
    if base.len() > 0 {
        let h1 = spec_replace(html, "href=\"/assets/"@, "href=\""@ + base + "/assets/"@);
        let h2 = spec_replace(h1, "src=\"/assets/"@, "src=\""@ + base + "/assets/"@);
        spec_replace(h2, "href=\"/vite.svg\""@, "href=\""@ + base + "/vite.svg\""@)
    } else {
        html
    }
}

/// The index page (from the frontend's `index.html` text) with the base path
/// injected, as bytes.
pub fn build_index_html(raw: &str, base_path: &str) -> (r: Vec<u8>)
    ensures
        r@ == vstd::utf8::encode_utf8(spec_index_html(raw@, base_path@)),
{
    proof {
        reveal_strlit("</head>");
        reveal_strlit("href=\"/assets/");
        reveal_strlit("src=\"/assets/");
        reveal_strlit("href=\"/vite.svg\"");
    }
    let script = concat3("<script>window.__BASE_PATH__ = \"", base_path, "\";</script>");
    let head = concat(script.as_str(), "\n</head>");
    let mut html = replace(raw, "</head>", head.as_str());
    if !base_path.is_empty() {
        let assets_href = concat3("href=\"", base_path, "/assets/");
        html = replace(html.as_str(), "href=\"/assets/", assets_href.as_str());
        let assets_src = concat3("src=\"", base_path, "/assets/");
        html = replace(html.as_str(), "src=\"/assets/", assets_src.as_str());
        let icon = concat3("href=\"", base_path, "/vite.svg\"");
        html = replace(html.as_str(), "href=\"/vite.svg\"", icon.as_str());
    }
    html.as_str().as_bytes_vec()
}

} // verus!
