use base64::prelude::{Engine as _, BASE64_STANDARD};
use trojan_rs::buffer::Prefix;
use trojan_rs::protocol::camouflage::{
    self, parse_request, CamouflageAcceptor, CamouflageConfig, CamouflageDecision,
};
use trojan_rs::protocol::fallback::{
    constant_time_eq, find_header_end, is_dashboard_authorized_value, looks_like_http,
    route_h2_parts, route_request, write_h2_response, write_response, FallbackConfig, FallbackPage,
    FallbackRoute, ResponseSpec, ServeStep,
};
use trojan_rs::protocol::http_head::{
    head_step, header_equals_exactly, header_has_token, read_head, without_query, HeadStep,
};

#[test]
fn detects_http_methods() {
    assert!(looks_like_http(b"GET / HTTP/1.1\r\n"));
    assert!(looks_like_http(b"POST /data HTTP/1.1\r\n"));
    assert!(looks_like_http(b"HEAD / HTTP/1.1\r\n"));
    assert!(!looks_like_http(b"\x01\x00\x00\x00"));
    assert!(!looks_like_http(b"abc"));
}

#[test]
fn finds_header_end() {
    assert_eq!(
        find_header_end(b"GET / HTTP/1.1\r\nHost: x\r\n\r\n"),
        Some(27)
    );
    assert_eq!(find_header_end(b"GET / HTTP/1.1\r\n"), None);
}

#[test]
fn the_first_header_end_counts_and_stays() {
    assert_eq!(find_header_end(b"\r\n\r\n"), Some(4));
    assert_eq!(find_header_end(b"a\r\n\r\nb\r\n\r\n"), Some(5));
    assert_eq!(find_header_end(b"\r\r\n\r\n"), Some(5));
    assert_eq!(find_header_end(b""), None);
}

#[test]
fn parses_valid_get() {
    let req = b"GET / HTTP/1.1\r\nHost: example.com\r\n\r\n";
    assert_eq!(
        route_request(req, None),
        FallbackRoute::Page { head_only: false }
    );
}

#[test]
fn parses_head_request() {
    let req = b"HEAD / HTTP/1.1\r\nHost: example.com\r\n\r\n";
    assert_eq!(
        route_request(req, None),
        FallbackRoute::Page { head_only: true }
    );
}

#[test]
fn routes_http2_requests_like_http1() {
    assert_eq!(
        route_h2_parts("GET", "/", None, None),
        FallbackRoute::Page { head_only: false }
    );
    assert_eq!(
        route_h2_parts("HEAD", "/robots.txt", None, None),
        FallbackRoute::Robots { head_only: true }
    );
    assert_eq!(
        route_h2_parts("POST", "/", None, None),
        FallbackRoute::MethodNotAllowed
    );
    let token = BASE64_STANDARD.encode("admin:secret");
    assert_eq!(
        route_h2_parts(
            "GET",
            "/api/status",
            Some(&format!("Basic {token}")),
            Some("secret"),
        ),
        FallbackRoute::ApiStatus { head_only: false }
    );
}

#[test]
fn both_versions_of_http_find_the_same_route() {
    for method in ["GET", "HEAD", "POST"] {
        for path in ["/", "/index.html", "/dashboard", "/api/status", "/robots.txt", "/x"] {
            for token in [None, Some("Basic YWRtaW46c2VjcmV0"), Some("Basic AAAA")] {
                for password in [None, Some("secret")] {
                    let mut request = format!("{method} {path} HTTP/1.1\r\nHost: h\r\n");
                    if let Some(token) = token {
                        request += &format!("Authorization: {token}\r\n");
                    }
                    request += "\r\n";
                    assert_eq!(
                        route_request(request.as_bytes(), password),
                        route_h2_parts(method, path, token, password)
                    );
                }
            }
        }
    }
}

#[test]
fn routes_static_and_error_responses() {
    assert_eq!(
        route_request(
            b"GET /robots.txt HTTP/1.1\r\nHost: example.com\r\n\r\n",
            None
        ),
        FallbackRoute::Robots { head_only: false }
    );
    assert_eq!(
        route_request(b"GET /missing HTTP/1.1\r\nHost: example.com\r\n\r\n", None),
        FallbackRoute::NotFound { head_only: false }
    );
    assert_eq!(
        route_request(b"POST / HTTP/1.1\r\nHost: example.com\r\n\r\n", None),
        FallbackRoute::MethodNotAllowed
    );
    assert_eq!(
        route_request(b"GET / HTTP/1.1\r\n\r\n", None),
        FallbackRoute::BadRequest
    );
}

#[test]
fn protects_dashboard_routes() {
    let request = b"GET /dashboard HTTP/1.1\r\nHost: example.com\r\n\r\n";
    assert_eq!(
        route_request(request, None),
        FallbackRoute::NotFound { head_only: false }
    );
    assert_eq!(
        route_request(request, Some("secret")),
        FallbackRoute::Unauthorized { head_only: false }
    );

    let token = BASE64_STANDARD.encode("admin:secret");
    let request = format!(
        "GET /api/status HTTP/1.1\r\nHost: example.com\r\nAuthorization: Basic {token}\r\n\r\n"
    );
    assert_eq!(
        route_request(request.as_bytes(), Some("secret")),
        FallbackRoute::ApiStatus { head_only: false }
    );
}

#[test]
fn dashboard_passwords_are_compared_whole() {
    let authorized = |value: &str| is_dashboard_authorized_value(value, Some("secret"));
    assert!(authorized("Basic YWRtaW46c2VjcmV0"));
    assert!(authorized("BASIC  YWRtaW46c2VjcmV0  "));
    assert!(!authorized(" Basic YWRtaW46c2VjcmV0"));
    assert!(!authorized("Basic YWRtaW46c2VjcmV1"));
    assert!(!authorized("Basic YWRtaW46c2VjcmV0AA=="));
    assert!(!authorized("Bearer YWRtaW46c2VjcmV0"));
    assert!(!authorized(""));
    assert!(!is_dashboard_authorized_value("Basic YWRtaW46", None));

    assert!(constant_time_eq(b"abc", b"abc"));
    assert!(!constant_time_eq(b"abc", b"abd"));
    assert!(!constant_time_eq(b"abc", b"abcd"));
    assert!(!constant_time_eq(b"abc\0", b"abc"));
    assert!(constant_time_eq(b"", b""));
}

#[test]
fn write_page_includes_content_length() {
    let response = write_response(
        &ResponseSpec {
            status: "200 OK",
            content_type: "text/html; charset=utf-8",
            extra_headers: "Cache-Control: no-cache\r\n",
            head_only: false,
            body: b"<h1>test</h1>",
        },
        784_111_777,
    );
    let response = String::from_utf8(response).unwrap();
    assert!(response.contains("Content-Length: 13\r\n"));
    assert!(response.contains("Server: nginx\r\n"));
    assert!(response.ends_with("<h1>test</h1>"));
    assert_eq!(
        response,
        "HTTP/1.1 200 OK\r\nServer: nginx\r\nDate: Sun, 06 Nov 1994 08:49:37 GMT\r\n\
         Content-Type: text/html; charset=utf-8\r\nContent-Length: 13\r\n\
         Cache-Control: no-cache\r\nConnection: close\r\nX-Content-Type-Options: nosniff\r\n\r\n\
         <h1>test</h1>"
    );
}

#[test]
fn head_response_omits_body() {
    let response = write_response(
        &ResponseSpec {
            status: "200 OK",
            content_type: "text/html; charset=utf-8",
            extra_headers: "Cache-Control: no-cache\r\n",
            head_only: true,
            body: b"<h1>test</h1>",
        },
        0,
    );
    let response = String::from_utf8(response).unwrap();
    assert!(response.contains("Content-Length: 13\r\n"));
    assert!(response.contains("Date: Thu, 01 Jan 1970 00:00:00 GMT\r\n"));
    assert!(response.ends_with("\r\n\r\n"));
}

fn page() -> FallbackPage {
    let mut config = FallbackConfig::new("index.html".to_string());
    config.dashboard_password = Some("secret".to_string());
    FallbackPage::new(&config, b"fallback page".to_vec()).unwrap()
}

#[test]
fn a_page_answers_on_every_route() {
    let page = page();
    let answer = |request: &[u8]| -> String {
        match page.serve(request, false) {
            ServeStep::Respond(route) => {
                String::from_utf8(page.respond(route, b"board", b"{}", 951_827_696)).unwrap()
            }
            _ => panic!("no answer"),
        }
    };
    let ok = answer(b"GET /?x=1 HTTP/1.1\r\nHost: h\r\n\r\n");
    assert!(ok.starts_with("HTTP/1.1 200 OK\r\n"));
    assert!(ok.contains("Date: Tue, 29 Feb 2000 12:34:56 GMT\r\n"));
    assert!(ok.ends_with("\r\n\r\nfallback page"));
    let board = answer(
        b"GET /dashboard HTTP/1.1\r\nHost: h\r\nAuthorization: Basic YWRtaW46c2VjcmV0\r\n\r\n",
    );
    assert!(board.ends_with("\r\n\r\nboard"));
    let status = answer(
        b"GET /api/status HTTP/1.1\r\nHost: h\r\nAuthorization: Basic YWRtaW46c2VjcmV0\r\n\r\n",
    );
    assert!(status.contains("Content-Type: application/json; charset=utf-8\r\n"));
    assert!(status.ends_with("\r\n\r\n{}"));
    let refused = answer(b"HEAD /dashboard HTTP/1.1\r\nHost: h\r\n\r\n");
    assert!(refused.starts_with("HTTP/1.1 401 Unauthorized\r\n"));
    assert!(refused.contains("WWW-Authenticate: Basic realm=\"trojan-rs dashboard\"\r\n"));
    assert!(refused.ends_with("\r\n\r\n"));
    let post = answer(b"POST / HTTP/1.1\r\nHost: h\r\n\r\n");
    assert!(post.starts_with("HTTP/1.1 405 Method Not Allowed\r\n"));
    assert!(post.contains("Allow: GET, HEAD\r\n"));
    let bad = answer(b"GET / HTTP/1.1\r\nHost\r\n\r\n");
    assert!(bad.starts_with("HTTP/1.1 400 Bad Request\r\n"));
    let robots = answer(b"GET /robots.txt HTTP/1.1\r\nHost: h\r\n\r\n");
    assert!(robots.ends_with("\r\n\r\nUser-agent: *\r\nDisallow:\r\n"));
}

#[test]
fn a_page_reads_no_more_than_its_limit() {
    let page = page();
    assert!(matches!(page.serve(b"\x01\x02\x03\x04", false), ServeStep::Shutdown));
    assert!(matches!(page.serve(b"GET / HT", false), ServeStep::Read(1024)));
    assert!(matches!(
        page.serve(b"GET / HT", true),
        ServeStep::Respond(FallbackRoute::BadRequest)
    ));
    let mut long = b"GET / HTTP/1.1\r\nX: ".to_vec();
    long.resize(8000, b'a');
    assert!(matches!(page.serve(&long, false), ServeStep::Read(192)));
    long.resize(8192, b'a');
    assert!(matches!(
        page.serve(&long, false),
        ServeStep::Respond(FallbackRoute::BadRequest)
    ));
}

#[test]
fn serves_the_fallback_page_over_http2() {
    let route = route_h2_parts("GET", "/", None, None);
    let response = write_h2_response(route, b"fallback page", b"", b"");
    assert_eq!(response.status, 200);
    assert_eq!(response.body, b"fallback page");
    assert!(!response.head_only);
    let header = |name: &str, value: &str| (name.to_string(), value.to_string());
    assert_eq!(
        response.headers,
        [
            header("content-type", "text/html; charset=utf-8"),
            header("content-length", "13"),
            header("cache-control", "no-cache"),
            header("server", "nginx"),
            header("x-content-type-options", "nosniff"),
        ]
    );
    let response = write_h2_response(FallbackRoute::MethodNotAllowed, b"", b"", b"");
    assert_eq!(response.status, 405);
    assert_eq!(response.headers[5], header("allow", "GET, HEAD"));
}

#[test]
fn refuses_unusable_page_configurations() {
    let words = |config: &FallbackConfig, len: usize| match FallbackPage::new(config, vec![0; len]) {
        Ok(_) => "ok".to_string(),
        Err(error) => error.message(),
    };
    let mut config = FallbackConfig::new("p".to_string());
    assert_eq!((config.request_timeout_secs, config.max_request_size), (10, 8192));
    assert_eq!(words(&config, 2 * 1024 * 1024), "ok");
    assert_eq!(
        words(&config, 2 * 1024 * 1024 + 1),
        "protocol: fallback page exceeds 2097152 bytes"
    );
    config.dashboard_password = Some(String::new());
    assert_eq!(words(&config, 0), "protocol: dashboard password must not be empty");
    config.max_request_size = 255;
    assert_eq!(words(&config, 0), "protocol: invalid fallback request limits");
    config.max_request_size = 256;
    config.request_timeout_secs = 0;
    assert_eq!(words(&config, 0), "protocol: invalid fallback request limits");
}

#[test]
fn reads_heads_with_all_their_headers() {
    let head = read_head(
        b"GET /a?b HTTP/1.1\r\nHost: h\r\nConnection: keep-alive , UPGRADE\r\nX-A:  v \r\n\r\nrest",
    )
    .unwrap();
    assert_eq!(head.method.as_deref(), Some("GET"));
    assert_eq!(head.path.as_deref(), Some("/a?b"));
    assert_eq!(head.version, Some(1));
    assert_eq!(head.headers.len(), 3);
    assert_eq!(head.headers[2].name, "X-A");
    assert!(header_has_token(&head.headers, "connection", "upgrade"));
    assert!(!header_has_token(&head.headers, "connection", "keep"));
    assert!(header_equals_exactly(&head.headers, "x-a", "v"));
    assert!(!header_equals_exactly(&head.headers, "x-a", "V"));
    assert_eq!(without_query("/a?b?c"), "/a");
    assert_eq!(without_query("/a"), "/a");
    assert!(read_head(b"GET /a HTTP/1.1\r\nHost: h\r\n").is_none());
    assert!(read_head(b"nonsense\r\n\r\n").is_none());
}

#[test]
fn heads_are_read_up_to_a_limit() {
    assert!(matches!(head_step(b"GET ", 300), HeadStep::Read(296)));
    assert!(matches!(head_step(b"GET ", 3000), HeadStep::Read(1024)));
    assert!(matches!(head_step(&[b'a'; 300], 300), HeadStep::TooLarge));
    assert!(matches!(head_step(b"GET /\r\n\r\n", 4), HeadStep::Complete));
    assert!(matches!(camouflage::read_request_head(b"G", 300), HeadStep::ReadExact(3)));
    assert!(matches!(camouflage::read_request_head(b"\x16\x03\x01\x00", 300), HeadStep::Complete));
    assert!(matches!(camouflage::read_request_head(b"PUT ", 300), HeadStep::Read(296)));
}

#[test]
fn recognizes_only_the_configured_websocket_tunnel() {
    let tunnel = b"GET /tunnel?ed=2048 HTTP/1.1\r\nHost: example.com\r\nUpgrade: websocket\r\nConnection: keep-alive, Upgrade\r\nSec-WebSocket-Key: Zm9vYmFyYmF6cXV4\r\nSec-WebSocket-Version: 13\r\n\r\n";
    let static_request =
        b"GET /other HTTP/1.1\r\nHost: example.com\r\nUpgrade: websocket\r\n\r\n";
    let incomplete_upgrade = b"GET /tunnel HTTP/1.1\r\nHost: example.com\r\nUpgrade: websocket\r\nConnection: Upgrade\r\n\r\n";

    assert!(parse_request(tunnel, Some("/tunnel")).is_tunnel);
    assert!(!parse_request(static_request, Some("/tunnel")).is_tunnel);
    assert!(!parse_request(incomplete_upgrade, Some("/tunnel")).is_tunnel);
}

fn cover(websocket_path: Option<&str>) -> CamouflageAcceptor<()> {
    let config = CamouflageConfig::new("index.html".to_string());
    CamouflageAcceptor::new(
        Some(&config),
        b"<h1>cover</h1>".to_vec(),
        websocket_path.map(str::to_owned),
        (),
    )
    .unwrap()
}

// What is read off a connection that sends `sent` before it is decided about.
fn inspected(sent: &[u8]) -> Vec<u8> {
    let mut received = Vec::new();
    loop {
        let left = &sent[received.len()..];
        match camouflage::read_request_head(&received, 4096) {
            HeadStep::Complete => return received,
            HeadStep::TooLarge => panic!("expected a short request"),
            HeadStep::ReadExact(size) => received.extend_from_slice(&left[..size]),
            HeadStep::Read(size) => received.extend_from_slice(&left[..size.min(left.len())]),
        }
    }
}

// What the next acceptor reads: the inspected bytes, and then the connection itself.
fn read_on(inspected: Vec<u8>, sent: &[u8]) -> Vec<u8> {
    let rest = &sent[inspected.len()..];
    let mut prefix = Prefix::new(inspected);
    let mut received = Vec::new();
    while let Some(bytes) = prefix.read(3) {
        assert!(!bytes.is_empty() && bytes.len() <= 3);
        received.extend_from_slice(&bytes);
    }
    received.extend_from_slice(rest);
    received
}

#[test]
fn serves_http_then_preserves_the_next_binary_stream() {
    let acceptor = cover(Some("/tunnel"));
    let request = inspected(b"GET / HTTP/1.1\r\nHost: example.com\r\n\r\n");
    match acceptor.decide(&request) {
        CamouflageDecision::Answer(response) => {
            assert!(response.starts_with(b"HTTP/1.1 200 OK\r\n"));
            assert!(response.ends_with(b"<h1>cover</h1>"));
        }
        CamouflageDecision::Pass => panic!("expected the page"),
    }
    let payload = b"abcd-native-tunnel";
    let first = inspected(payload);
    assert_eq!(first, b"abcd");
    assert!(matches!(acceptor.decide(&first), CamouflageDecision::Pass));
    assert_eq!(read_on(first, payload), payload);
}

#[test]
fn passes_websocket_handshake_to_the_next_acceptor() {
    let request = b"GET /tunnel HTTP/1.1\r\nHost: example.com\r\nUpgrade: websocket\r\nConnection: Upgrade\r\nSec-WebSocket-Key: Zm9vYmFyYmF6cXV4\r\nSec-WebSocket-Version: 13\r\n\r\n";
    let head = inspected(request);
    assert!(matches!(
        cover(Some("/tunnel")).decide(&head),
        CamouflageDecision::Pass
    ));
    assert!(matches!(cover(None).decide(&head), CamouflageDecision::Answer(_)));
    assert_eq!(read_on(head, request), request);
}

#[test]
fn head_response_has_content_length_without_a_body() {
    match cover(None).decide(b"HEAD / HTTP/1.1\r\nHost: example.com\r\n\r\n") {
        CamouflageDecision::Answer(response) => {
            let response = String::from_utf8(response).unwrap();
            assert!(response.contains("Content-Length: 14\r\n"));
            assert!(response.ends_with("\r\n\r\n"));
        }
        CamouflageDecision::Pass => panic!("expected the page"),
    }
}

#[test]
fn covers_nothing_without_a_page() {
    let acceptor = CamouflageAcceptor::new(None, Vec::new(), None, 7u8).unwrap();
    assert_eq!(acceptor.inner, 7);
    assert!(matches!(
        acceptor.decide(b"GET / HTTP/1.1\r\nHost: h\r\n\r\n"),
        CamouflageDecision::Pass
    ));
}

#[test]
fn bad_requests_get_the_page_with_another_status() {
    match cover(None).decide(b"GET / HTTP/1.1\r\nno header\r\n\r\n") {
        CamouflageDecision::Answer(response) => {
            assert!(response.starts_with(b"HTTP/1.1 400 Bad Request\r\n"));
            assert!(response.ends_with(b"\r\n\r\n<h1>cover</h1>"));
        }
        CamouflageDecision::Pass => panic!("expected the page"),
    }
}

#[test]
fn refuses_unusable_covers() {
    let mut config = CamouflageConfig::new("p".to_string());
    let words = |config: &CamouflageConfig, len: usize| {
        match CamouflageAcceptor::new(Some(config), vec![0; len], None, ()) {
            Ok(_) => "ok".to_string(),
            Err(error) => error.message(),
        }
    };
    assert_eq!(words(&config, 2097152), "ok");
    assert_eq!(words(&config, 2097153), "protocol: camouflage page exceeds 2097152 bytes");
    config.max_request_size = 255;
    assert_eq!(words(&config, 0), "protocol: invalid camouflage request limits");
    assert_eq!(
        camouflage::CamouflageError::HeadersTooLarge.message(),
        "protocol: camouflage request headers are too large"
    );
}
