use sahou_core::files::FileKind;
use sahou_core::gui::{
    asset_rel, bind_error, cas_gate, etag_text, mime_of, missing_asset, put_kind, reject_cross_origin, route,
    startup_gate, temp_name, Method, PutError, Route,
};

const PORT: u16 = 7412;

#[test]
fn missing_schema_is_startup_no() {
    let err = startup_gate(false, "/tmp/x/schema.sahou.yaml").unwrap_err();
    assert_eq!(err[0].code, "gui_no_schema");
    assert_eq!(err[0].path, "/tmp/x/schema.sahou.yaml");
    assert!(startup_gate(true, "/tmp/x/schema.sahou.yaml").is_ok());
}

#[test]
fn port_in_use_is_no() {
    let err = bind_error(PORT, "Address already in use (os error 98)");
    assert_eq!(err[0].code, "gui_port_in_use"); // refused instead of moving to another port
    assert_eq!(err[0].path, "127.0.0.1:7412");
    assert_eq!(
        err[0].message,
        "cannot bind (port occupied?): Address already in use (os error 98). Specify another port with --port (it will not change automatically)"
    );
}

#[test]
fn wrong_host_header_is_rejected() {
    // DNS rebinding: a page reached through a hostile name carries that name in Host
    let m = reject_cross_origin(PORT, Some("evil.example"), false, None).unwrap();
    assert_eq!(
        m,
        "invalid Host header (rejected by DNS rebinding protection): expected 127.0.0.1:7412 but got Some(\"evil.example\")"
    );
    let m = reject_cross_origin(PORT, None, false, None).unwrap();
    assert!(m.ends_with("but got None"), "{m}");
    assert!(reject_cross_origin(PORT, Some("127.0.0.1:7413"), false, None).is_some());
}

#[test]
fn correct_host_header_is_allowed() {
    assert_eq!(reject_cross_origin(PORT, Some("127.0.0.1:7412"), false, None), None);
    assert_eq!(reject_cross_origin(PORT, Some("localhost:7412"), false, None), None);
}

#[test]
fn put_with_mismatched_origin_is_rejected() {
    let m = reject_cross_origin(PORT, Some("127.0.0.1:7412"), true, Some("http://evil.example")).unwrap();
    assert_eq!(
        m,
        "the PUT request's Origin does not match this local server (suspected cross-origin; rejected): got \"http://evil.example\""
    );
}

#[test]
fn put_with_matching_origin_is_allowed() {
    // browsers attach Origin to every same-origin PUT: a matching one must pass
    assert_eq!(reject_cross_origin(PORT, Some("127.0.0.1:7412"), true, Some("http://127.0.0.1:7412")), None);
    assert_eq!(reject_cross_origin(PORT, Some("localhost:7412"), true, Some("http://localhost:7412")), None);
    assert_eq!(reject_cross_origin(PORT, Some("127.0.0.1:7412"), true, None), None);
    // a GET is not judged by its Origin
    assert_eq!(reject_cross_origin(PORT, Some("127.0.0.1:7412"), false, Some("http://evil.example")), None);
}

#[test]
fn asset_fallback_explains_build_when_missing() {
    assert_eq!(asset_rel("/"), "index.html");
    let (code, text) = missing_asset(&asset_rel("/"));
    assert_eq!(code, 503);
    assert!(text.contains("npm run build"), "{text}");
    assert_eq!(missing_asset("app.js"), (404, "not found"));
    assert_eq!(mime_of("index.html"), "text/html; charset=utf-8");
}

#[test]
fn requests_are_routed_by_method_and_path() {
    assert_eq!(route(Method::Get, "/api/files"), Route::Files);
    assert_eq!(route(Method::Get, "/api/watch"), Route::Watch);
    assert_eq!(route(Method::Put, "/api/files/schema"), Route::PutFile);
    assert_eq!(route(Method::Get, "/assets/app.js"), Route::Asset);
    assert_eq!(route(Method::Put, "/elsewhere"), Route::NotAllowed);
    assert_eq!(route(Method::Other, "/api/files"), Route::NotAllowed);
    assert_eq!(put_kind("/api/files/layout"), Some(FileKind::Layout));
    assert_eq!(put_kind("/api/files/api/files/endpoints"), None);
    assert_eq!(put_kind("/api/files//api/files/schema"), Some(FileKind::Schema)); // the prefix is trimmed repeatedly
    assert_eq!(put_kind("/api/files/nope"), None);
    assert_eq!(asset_rel("//assets/app.js"), "assets/app.js");
}

#[test]
fn assets_get_their_content_type_by_extension() {
    assert_eq!(mime_of("assets/app.mjs"), "text/javascript");
    assert_eq!(mime_of("style.css"), "text/css");
    assert_eq!(mime_of("core_bg.wasm"), "application/wasm");
    assert_eq!(mime_of("logo.svg"), "image/svg+xml");
    assert_eq!(mime_of("app.js.map"), "application/json");
    assert_eq!(mime_of("favicon.ico"), "image/x-icon");
    assert_eq!(mime_of("LICENSE"), "application/octet-stream");
    assert_eq!(mime_of("archive.tar.gz"), "application/octet-stream");
}

#[test]
fn writes_go_through_only_over_the_version_read() {
    assert_eq!(cas_gate(Some("1.5-10".into()), Some("1.5-10")), Ok(()));
    assert_eq!(cas_gate(None, None), Ok(())); // the first layout is created without If-Match
    assert_eq!(
        cas_gate(Some("2.0-11".into()), Some("1.5-10")),
        Err(PutError::Conflict { current: Some("2.0-11".into()) })
    );
    assert_eq!(cas_gate(Some("1.5-10".into()), None), Err(PutError::Conflict { current: Some("1.5-10".into()) }));
    assert_eq!(cas_gate(None, Some("1.5-10")), Err(PutError::Conflict { current: None }));
}

#[test]
fn etags_and_temporary_names() {
    assert_eq!(etag_text(1752105600, 123, 42), "1752105600.123-42");
    assert_ne!(etag_text(1752105600, 123, 42), etag_text(1752105600, 123, 43));
    assert_eq!(temp_name("schema.sahou.yaml"), ".schema.sahou.yaml.sahou-gui.tmp");
}
