use cloudone::serve::{
    download_bytes, embedded_frontend_response, ext_mime_override, headers_for,
    is_browser_previewable, mime_for_path, mime_of, not_built, serve_file_path,
    static_asset, static_fallback, Probe,
};

fn pairs(v: &[(&str, &str)]) -> Vec<(String, String)> {
    v.iter().map(|(a, b)| (a.to_string(), b.to_string())).collect()
}

#[test]
fn overrides() {
    for e in ["md", "rs", "yml", "graphql", "dockerfile", "c"] {
        assert_eq!(ext_mime_override(e), Some("text/plain; charset=utf-8"), "{e}");
    }
    assert_eq!(ext_mime_override("avif"), Some("image/avif"));
    assert_eq!(ext_mime_override("webp"), Some("image/webp"));
    assert_eq!(ext_mime_override("png"), None);
    assert_eq!(ext_mime_override("MD"), None);
    assert_eq!(ext_mime_override(""), None);
}

#[test]
fn types() {
    assert_eq!(mime_of("/a/README.MD"), "text/plain; charset=utf-8");
    assert_eq!(mime_of("/a/x.png"), "image/png");
    assert_eq!(mime_of("/a/x.pdf"), "application/pdf");
    assert_eq!(mime_of("/a/x.unknown-kind"), "application/octet-stream");
    assert_eq!(mime_of("/a/x"), "application/octet-stream");
}

#[test]
fn previews() {
    for m in ["text/html", "image/png", "audio/ogg", "video/mp4", "application/pdf", "application/json", "application/x-javascript", "application/foo+xml", "x/javascript"] {
        assert!(is_browser_previewable(m), "{m}");
    }
    for m in ["application/zip", "application/octet-stream", "", "texts"] {
        assert!(!is_browser_previewable(m), "{m}");
    }
}

#[test]
fn headers() {
    assert_eq!(
        serve_file_path("/a/x.png", Probe::File(Some(12)), false).unwrap(),
        pairs(&[
            ("content-length", "12"),
            ("content-type", "image/png"),
            ("content-disposition", "inline; filename=\"x.png\""),
            ("x-content-type-options", "nosniff"),
            ("cache-control", "public, max-age=3600"),
        ])
    );
    let h = serve_file_path("/a/x.png", Probe::File(None), true).unwrap();
    assert_eq!(h[1].1, "attachment; filename=\"x.png\"");
    let h = serve_file_path("/a/x.zip", Probe::File(None), false).unwrap();
    assert_eq!(h[1].1, "attachment; filename=\"x.zip\"");
    let h = headers_for("/a/b", " text/plain ; charset=utf-8", None, false);
    assert_eq!(h[1].1, "inline; filename=\"b\"");
    assert_eq!(download_bytes("application/zip", "a.zip"), pairs(&[("content-type", "application/zip"), ("content-disposition", "attachment; filename=\"a.zip\"")]));
    assert_eq!(embedded_frontend_response("text/css")[0].1, "text/css");
    assert_eq!(embedded_frontend_response("text/css")[1].1, "nosniff");
}

#[test]
fn refusals() {
    let e = serve_file_path("/a", Probe::Dir, false).unwrap_err();
    assert_eq!((e.status, e.message.as_str()), (400, "cannot download a directory directly; use batch-download"));
    let e = serve_file_path("/a", Probe::Missing, false).unwrap_err();
    assert_eq!((e.status, e.message.as_str()), (404, "not found"));
}

#[test]
fn pages() {
    assert_eq!(mime_for_path("assets/x.css"), "text/css; charset=utf-8");
    assert_eq!(mime_for_path("x.mjs"), "text/javascript; charset=utf-8");
    assert_eq!(mime_for_path("x.jpg"), "image/jpeg");
    assert_eq!(mime_for_path("x.webmanifest"), "application/json; charset=utf-8");
    assert_eq!(mime_for_path("x.woff2"), "font/woff2");
    assert_eq!(mime_for_path("x.CSS"), "application/octet-stream");
    assert_eq!(mime_for_path("x"), "application/octet-stream");
    assert_eq!(static_asset("/"), "index.html");
    assert_eq!(static_asset("//a/b.js"), "a/b.js");
    let s = static_fallback("/a/b.js");
    assert_eq!(s.names, ["a/b.js", "index.html"]);
    assert_eq!(s.files, ["frontend/dist/a/b.js", "frontend/dist/index.html"]);
    assert!(not_built().starts_with("CloudOne frontend is not built."));
}
