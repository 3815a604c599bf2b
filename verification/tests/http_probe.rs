use ws2tcp_router::http::{encode_response, Header, Request, Response};
use ws2tcp_router::http_probe::{
    health_check_response, parse_plain_health_check, parse_plain_request, text_response,
    HeadReader, ReplayStream, MAX_REQUEST_HEAD,
};
use ws2tcp_router::token::TOKEN_HEADER;

#[test]
fn detects_plain_root_request() {
    let head = b"GET / HTTP/1.1\r\nHost: x\r\nUser-Agent: probe/1.0\r\n\r\n";
    let request = parse_plain_health_check(head).expect("plain health check");
    assert_eq!(request.method, "GET");
    assert_eq!(request.text("user-agent").unwrap(), "probe/1.0");
    assert!(parse_plain_health_check(b"HEAD /?x=1 HTTP/1.1\r\nHost: x\r\n\r\n").is_some());
}

#[test]
fn leaves_other_requests_to_the_websocket_handshake() {
    // Upgrade request, other paths and methods, and partial or malformed heads.
    let upgrade = b"GET / HTTP/1.1\r\nHost: x\r\nUpgrade: WebSocket\r\nConnection: Upgrade\r\n\r\n";
    assert!(parse_plain_health_check(upgrade).is_none());
    assert!(parse_plain_health_check(b"GET /tcp:h:1 HTTP/1.1\r\nHost: x\r\n\r\n").is_none());
    assert!(parse_plain_health_check(b"POST / HTTP/1.1\r\nHost: x\r\n\r\n").is_none());
    assert!(parse_plain_health_check(b"GET / HTTP/1.1\r\nHost: x\r\n").is_none());
    assert!(parse_plain_health_check(b"\x16\x03\x01garbage").is_none());
}

#[test]
fn replay_stream_yields_prefix_then_inner() {
    let mut stream = ReplayStream::new(b"hello ".to_vec(), "world");
    let mut out = Vec::new();
    while let Some(bytes) = stream.replay(4) {
        assert!(bytes.len() <= 4);
        out.extend_from_slice(&bytes);
    }
    assert_eq!(out, b"hello ");
    // From here on the inner stream is read.
    assert_eq!(stream.replay(4), None);
    assert_eq!(stream.inner, "world");
}

#[test]
fn plain_requests_are_health_checks_and_token_requests() {
    let request = parse_plain_request(b"POST /auth/token?x HTTP/1.1\r\nHost: x\r\n\r\n").unwrap();
    assert_eq!(request.path, "/auth/token");
    assert_eq!(request.method, "POST");
    let request = parse_plain_request(b"GET /?a#b HTTP/1.1\r\n\r\n").unwrap();
    assert_eq!(request.path, "/");
    assert!(parse_plain_request(b"GET /auth HTTP/1.1\r\n\r\n").is_none());
    assert!(parse_plain_request(b"GET /tcp:h:1 HTTP/1.1\r\n\r\n").is_none());
    assert!(parse_plain_request(b"PUT / HTTP/1.1\r\n\r\n").is_none());
    // A health check is the same request either way.
    let head = b"HEAD / HTTP/1.1\r\nHost: x\r\n\r\n";
    let one = parse_plain_request(head).unwrap();
    let other = parse_plain_health_check(head).unwrap();
    assert_eq!((one.method, one.path), (other.method, other.path));
    // A websocket upgrade is left to the handshake, on every path.
    let upgrade = b"POST /auth/token HTTP/1.1\r\nUpgrade: websocket\r\n\r\n";
    assert!(parse_plain_request(upgrade).is_none());
}

#[test]
fn header_names_are_lower_case_and_the_first_value_counts() {
    let head = b"GET / HTTP/1.1\r\nX-One: 1\r\nx-one: 2\r\nX-Two: \xffx\r\n\r\n";
    let request = parse_plain_request(head).unwrap();
    let names: Vec<&str> = request.headers.iter().map(|h| h.name.as_str()).collect();
    assert_eq!(names, vec!["x-one", "x-one", "x-two"]);
    assert_eq!(request.text("x-one").as_deref(), Some("1"));
    assert_eq!(request.text("x-two"), None);
    assert_eq!(request.value("x-two").unwrap(), b"\xffx");
    assert_eq!(request.value("x-three"), None);
}

#[test]
fn a_head_with_too_many_headers_is_not_read() {
    let head = |n: usize| format!("GET / HTTP/1.1\r\n{}\r\n", "A: b\r\n".repeat(n)).into_bytes();
    assert!(parse_plain_request(&head(64)).is_some());
    assert!(parse_plain_request(&head(65)).is_none());
}

#[test]
fn reads_until_the_end_of_the_head() {
    let mut reader = HeadReader::new();
    assert!(reader.wants_more());
    reader.received(b"GET / HTTP/1.1\r\n\r");
    assert!(reader.wants_more());
    reader.received(b"\nrest");
    assert!(!reader.wants_more());
    assert_eq!(reader.head, b"GET / HTTP/1.1\r\n\r\nrest");

    // The end of the stream.
    let mut reader = HeadReader::new();
    reader.received(b"GET");
    reader.received(b"");
    assert!(!reader.wants_more());
    assert_eq!(reader.head, b"GET");

    // A head that is too long.
    let mut reader = HeadReader::new();
    reader.received(&vec![b'x'; MAX_REQUEST_HEAD - 1]);
    assert!(reader.wants_more());
    reader.received(b"x");
    assert!(!reader.wants_more());
}

#[test]
fn health_check_responses_carry_the_token() {
    let response = health_check_response("ok", "abc");
    assert_eq!(response.status, 200);
    assert_eq!(response.body.as_deref(), Some("ok"));
    assert_eq!(
        response.headers,
        vec![
            ("content-type".to_owned(), "text/plain; charset=utf-8".to_owned()),
            (TOKEN_HEADER.to_owned(), "abc".to_owned()),
        ]
    );
    assert_eq!(TOKEN_HEADER, "x-ws2tcp-token");
}

#[test]
fn responses_are_written_as_http() {
    let response = text_response(404, "né");
    assert_eq!(
        encode_response(&response, true),
        "HTTP/1.1 404 Not Found\r\ncontent-type: text/plain; charset=utf-8\r\ncontent-length: 3\r\nconnection: close\r\n\r\nné"
    );
    assert_eq!(
        encode_response(&response, false),
        "HTTP/1.1 404 Not Found\r\ncontent-type: text/plain; charset=utf-8\r\ncontent-length: 3\r\nconnection: close\r\n\r\n"
    );
    // No content, no length; and a code without a reason phrase.
    assert_eq!(
        encode_response(&Response::new(204, ""), true),
        "HTTP/1.1 204 No Content\r\nconnection: close\r\n\r\n"
    );
    let bare = Response { status: 599, headers: Vec::new(), body: None };
    assert_eq!(
        encode_response(&bare, true),
        "HTTP/1.1 599 \r\ncontent-length: 0\r\nconnection: close\r\n\r\n"
    );
    for (status, reason) in [
        (200, "OK"),
        (400, "Bad Request"),
        (401, "Unauthorized"),
        (405, "Method Not Allowed"),
        (500, "Internal Server Error"),
        (503, "Service Unavailable"),
    ] {
        assert!(encode_response(&Response::new(status, ""), true)
            .starts_with(&format!("HTTP/1.1 {status} {reason}\r\n")));
    }
}

#[test]
fn requests_without_headers_have_no_values() {
    let request = Request { method: "GET".to_owned(), path: "/".to_owned(), headers: Vec::new() };
    assert_eq!(request.text("host"), None);
    let request = Request {
        method: "GET".to_owned(),
        path: "/".to_owned(),
        headers: vec![Header { name: "host".to_owned(), value: b"x\ty".to_vec() }],
    };
    assert_eq!(request.text("host").as_deref(), Some("x\ty"));
}
