use flowlens::embedded_assets_server::{
    asset_path, decimal_string, headers_complete, request_target_of, response_for, response_head,
    route, EmbeddedAssetsServer, Route,
};

#[test]
fn maps_root_and_strips_query() {
    assert_eq!(asset_path("/").as_deref(), Some("dashboard.html"));
    assert_eq!(
        asset_path("/assets/app.js?v=1").as_deref(),
        Some("assets/app.js")
    );
}

#[test]
fn rejects_path_traversal() {
    assert_eq!(asset_path("/../secret"), None);
    assert_eq!(asset_path("/assets\\..\\secret"), None);
    assert_eq!(asset_path("/assets//app.js"), None);
}

#[test]
fn asset_path_edge_cases() {
    assert_eq!(asset_path("").as_deref(), Some("dashboard.html"));
    assert_eq!(asset_path("///index.html").as_deref(), Some("index.html"));
    assert_eq!(asset_path("/?x=1").as_deref(), Some("dashboard.html"));
    assert_eq!(asset_path("/./a"), None);
    assert_eq!(asset_path("/a/."), None);
    assert_eq!(asset_path("/a/"), None);
    assert_eq!(asset_path("/a/..?x"), None);
    assert_eq!(asset_path("/a/b..c/d.js").as_deref(), Some("a/b..c/d.js"));
    assert_eq!(asset_path("/a/b?c/../d").as_deref(), Some("a/b"));
}

#[test]
fn urls_name_the_loopback_port() {
    let server = EmbeddedAssetsServer::new(52923);
    assert_eq!(server.url_for("dashboard.html"), "http://127.0.0.1:52923/dashboard.html");
    assert_eq!(server.url_for(""), "http://127.0.0.1:52923/");
    assert_eq!(server.url_pattern(), "http://127.0.0.1:52923/*");
    assert_eq!(EmbeddedAssetsServer::new(0).url_pattern(), "http://127.0.0.1:0/*");
    assert_eq!(EmbeddedAssetsServer::new(65535).url_for("a"), "http://127.0.0.1:65535/a");
}

#[test]
fn decimal_digits() {
    assert_eq!(decimal_string(0), "0");
    assert_eq!(decimal_string(7), "7");
    assert_eq!(decimal_string(10), "10");
    assert_eq!(decimal_string(8192), "8192");
    assert_eq!(decimal_string(u64::MAX), "18446744073709551615");
}

#[test]
fn header_end_detection() {
    assert!(!headers_complete(&b"GET / HTTP/1.1\r\nHost: x\r\n".to_vec()));
    assert!(headers_complete(&b"GET / HTTP/1.1\r\nHost: x\r\n\r\n".to_vec()));
    assert!(headers_complete(&b"\r\n\r\n".to_vec()));
    assert!(!headers_complete(&b"\r\n\r".to_vec()));
    assert!(!headers_complete(&Vec::new()));
}

#[test]
fn request_line_parsing() {
    assert_eq!(
        request_target_of(b"GET /assets/app.js HTTP/1.1\r\nHost: 127.0.0.1\r\n\r\n"),
        Some(("GET".to_string(), "/assets/app.js".to_string()))
    );
    assert_eq!(
        request_target_of(b"  HEAD\t/x   HTTP/1.1\n"),
        Some(("HEAD".to_string(), "/x".to_string()))
    );
    assert_eq!(request_target_of(b"GET\r\n/x HTTP/1.1"), None);
    assert_eq!(request_target_of(b""), None);
    assert_eq!(request_target_of(b"\r\n"), None);
}

#[test]
fn routing_by_method_and_target() {
    assert!(matches!(route("POST", "/"), Route::MethodNotAllowed));
    assert!(matches!(route("get", "/"), Route::MethodNotAllowed));
    match route("GET", "/") {
        Route::Asset { path, include_body } => {
            assert_eq!(path, "dashboard.html");
            assert!(include_body);
        }
        other => panic!("unexpected {other:?}"),
    }
    match route("HEAD", "/a.css") {
        Route::Asset { path, include_body } => {
            assert_eq!(path, "a.css");
            assert!(!include_body);
        }
        other => panic!("unexpected {other:?}"),
    }
    assert!(matches!(route("GET", "/../x"), Route::BadRequest { include_body: true }));
    assert!(matches!(route("HEAD", "/../x"), Route::BadRequest { include_body: false }));
}

#[test]
fn response_header_block() {
    assert_eq!(
        response_head("404 Not Found", "text/plain", 9),
        "HTTP/1.1 404 Not Found\r\nContent-Type: text/plain\r\nContent-Length: 9\r\nCache-Control: no-store\r\nConnection: close\r\nX-Content-Type-Options: nosniff\r\n\r\n"
    );
}

#[test]
fn matches_only_its_loopback_port() {
    let pattern = EmbeddedAssetsServer::new(52923).url_pattern();
    assert_eq!(pattern, "http://127.0.0.1:52923/*");
    let prefix = pattern.trim_end_matches('*');
    let url = "http://127.0.0.1:52923/dashboard.html";
    let other_port = "http://127.0.0.1:52924/dashboard.html";

    assert!(url.starts_with(prefix));
    assert!(!other_port.starts_with(prefix));
}

#[test]
fn responses_per_route() {
    let r = response_for(&route("POST", "/"), None);
    assert_eq!((r.status.as_str(), r.content_type.as_str(), r.body.len(), r.include_body), ("405 Method Not Allowed", "text/plain", 0, false));
    let r = response_for(&route("GET", "/../x"), None);
    assert_eq!((r.status.as_str(), r.content_type.as_str(), r.body.len(), r.include_body), ("400 Bad Request", "text/plain", 0, true));
    let r = response_for(&route("HEAD", "/app.js"), Some(("text/javascript".to_string(), vec![1, 2, 3])));
    assert_eq!((r.status.as_str(), r.content_type.as_str(), r.body.clone(), r.include_body), ("200 OK", "text/javascript", vec![1u8, 2, 3], false));
    let r = response_for(&route("GET", "/missing.css"), None);
    assert_eq!((r.status.as_str(), r.content_type.as_str(), r.body.clone(), r.include_body), ("404 Not Found", "text/plain", b"Not found".to_vec(), true));
}
