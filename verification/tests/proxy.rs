use ws2tcp_router::auth::AuthConfig;
use ws2tcp_router::client_addr::{IpRange, TrustedProxies};
use ws2tcp_router::clock::Span;
use ws2tcp_router::http::{Header, Request};
use ws2tcp_router::http_probe::HeadReader;
use ws2tcp_router::ip::{parse_socket, SocketAddr};
use ws2tcp_router::proxy::{
    accept_request, handle_connection, local_bind, parse_route, proxy_tcp, proxy_udp,
    request_user_agent, Event, FromClient, FromUpstream, Opening, Protocol, Relay, Route, Session,
    HEALTH_CHECK_CLOSE_REASON, HEALTH_CHECK_MESSAGE,
};
use ws2tcp_router::token::{TokenError, TokenService};
use ws2tcp_router::token_api::{endpoint, handle_auth_request, token_error_response, Endpoint};

fn peer() -> SocketAddr {
    parse_socket("127.0.0.1:1").unwrap()
}

/// What is answered to a raw request from 127.0.0.1, and the address it is reported under.
fn exchange(
    request: &str,
    auth: &mut Option<AuthConfig>,
    trusted: &TrustedProxies,
) -> (String, Option<String>) {
    let mut reader = HeadReader::new();
    reader.received(request.as_bytes());
    assert!(!reader.wants_more());
    let (client, opening) = handle_connection(&reader.head, peer(), auth, trusted);
    let answer = match opening {
        Opening::Answer { text } => Some(text),
        Opening::Handshake => None,
    };
    (client.to_text(), answer)
}

fn raw_exchange(request: &str, auth: &mut Option<AuthConfig>) -> String {
    exchange(request, auth, &TrustedProxies::new(IpRange::loopback()))
        .1
        .expect("a plain request")
}

fn with_basic_auth(authorization: &str) -> AuthConfig {
    AuthConfig {
        expected_authorizations: vec![authorization.to_owned()],
        fixed_authorizations: vec![authorization.to_owned()],
        basic_auth_file: None,
        anonymous_targets: Vec::new(),
        tokens: None,
    }
}

const ALICE: &str = "Basic YWxpY2U6c2VjcmV0"; // alice:secret
const WRONG: &str = "Basic YWxpY2U6d3Jvbmc="; // alice:wrong

fn token_auth() -> Option<AuthConfig> {
    let mut auth = with_basic_auth(ALICE);
    auth.tokens = Some(TokenService::new(
        b"0123456789abcdef0123456789abcdef",
        Span::from_secs(600),
        Span::from_secs(3600),
    ));
    Some(auth)
}

fn post(path: &str, authorization: Option<&str>) -> String {
    let authorization = authorization
        .map(|value| format!("Authorization: {value}\r\n"))
        .unwrap_or_default();
    format!("POST {path} HTTP/1.1\r\nHost: x\r\n{authorization}Content-Length: 0\r\n\r\n")
}

fn json_field(response: &str, name: &str) -> String {
    let marker = format!("\"{name}\":\"");
    let start = response.find(&marker).expect("field in response") + marker.len();
    response[start..]
        .split('"')
        .next()
        .expect("closing quote")
        .to_owned()
}

/// Logs in with Basic Auth and returns `(access_token, refresh_token)`.
fn login(auth: &mut Option<AuthConfig>) -> (String, String) {
    let response = raw_exchange(&post("/auth/token", Some(ALICE)), auth);
    assert!(response.starts_with("HTTP/1.1 200 OK\r\n"), "{response}");
    (
        json_field(&response, "access_token"),
        json_field(&response, "refresh_token"),
    )
}

fn ws_request(path: &str, authorization: Option<&str>) -> Request {
    Request {
        method: "GET".to_owned(),
        path: path.to_owned(),
        headers: authorization
            .iter()
            .map(|value| Header {
                name: "authorization".to_owned(),
                value: value.as_bytes().to_vec(),
            })
            .collect(),
    }
}

/// Tries a websocket handshake and returns the session on success, or the rejection status.
fn ws_handshake(
    auth: &Option<AuthConfig>,
    target: &str,
    authorization: Option<&str>,
) -> Result<Session, u16> {
    accept_request(&ws_request(target, authorization), auth.as_ref()).map_err(|r| r.status)
}

#[test]
fn root_path_health_check_completes_handshake_and_closes() {
    let session = ws_handshake(&None, "/", None).expect("health check handshake should succeed");
    assert_eq!(
        session,
        Session {
            route: Route::HealthCheck,
            auth_user: "anonymous".to_owned(),
            user_agent: "-".to_owned(),
        }
    );
    assert_eq!(
        HEALTH_CHECK_MESSAGE,
        "ok: ws2tcp-router 0.1.12 is available; health check only, no upstream connected"
    );
    assert_eq!(HEALTH_CHECK_CLOSE_REASON, "health check");
}

#[test]
fn invalid_path_is_rejected_with_bad_request() {
    let response = accept_request(&ws_request("/other", None), None).unwrap_err();
    assert_eq!(response.status, 400);
    let body = response.body.unwrap();
    assert!(body.contains("path must be /tcp:<host>:<port>"), "{body}");
}

#[test]
fn plain_http_get_root_returns_health_check_message() {
    let response = raw_exchange(
        "GET / HTTP/1.1\r\nHost: x\r\nUser-Agent: probe/1.0\r\n\r\n",
        &mut None,
    );

    assert!(response.starts_with("HTTP/1.1 200 OK\r\n"), "{response}");
    assert!(response.contains("content-type: text/plain; charset=utf-8\r\n"));
    assert!(response.contains(&format!(
        "content-length: {}\r\n",
        HEALTH_CHECK_MESSAGE.len()
    )));
    assert!(response.ends_with(HEALTH_CHECK_MESSAGE), "{response}");
    assert!(!response.contains("x-ws2tcp-token"), "{response}");
}

#[test]
fn plain_http_head_root_omits_body() {
    let response = raw_exchange("HEAD / HTTP/1.1\r\nHost: x\r\n\r\n", &mut None);

    assert!(response.starts_with("HTTP/1.1 200 OK\r\n"), "{response}");
    assert!(response.ends_with("\r\n\r\n"), "{response}");
    let full = raw_exchange("GET / HTTP/1.1\r\nHost: x\r\n\r\n", &mut None);
    assert_eq!(full, format!("{response}{HEALTH_CHECK_MESSAGE}"));
}

#[test]
fn plain_http_health_check_requires_auth_when_enabled() {
    let mut auth = Some(with_basic_auth(ALICE));

    let response = raw_exchange("GET / HTTP/1.1\r\nHost: x\r\n\r\n", &mut auth);
    assert!(
        response.starts_with("HTTP/1.1 401 Unauthorized\r\n"),
        "{response}"
    );
    assert!(response.contains("www-authenticate: Basic realm=\"ws2tcp-router\""));
    assert!(response.ends_with("authentication required"), "{response}");

    // "alice:secret" in base64.
    let response = raw_exchange(
        "GET / HTTP/1.1\r\nHost: x\r\nAuthorization: Basic YWxpY2U6c2VjcmV0\r\n\r\n",
        &mut auth,
    );
    assert!(response.starts_with("HTTP/1.1 200 OK\r\n"), "{response}");
}

#[test]
fn token_endpoints_do_not_exist_without_a_token_service() {
    for mut auth in [None, Some(with_basic_auth(ALICE))] {
        let response = raw_exchange(&post("/auth/token", Some(ALICE)), &mut auth);
        assert!(
            response.starts_with("HTTP/1.1 404 Not Found\r\n"),
            "{response}"
        );
    }
}

#[test]
fn login_needs_valid_basic_credentials() {
    let mut auth = token_auth();

    for authorization in [None, Some(WRONG)] {
        let response = raw_exchange(&post("/auth/token", authorization), &mut auth);
        assert!(
            response.starts_with("HTTP/1.1 401 Unauthorized\r\n"),
            "{response}"
        );
        assert!(response.contains("www-authenticate: Basic realm=\"ws2tcp-router\""));
        assert!(!response.contains("access_token"), "{response}");
    }

    let response = raw_exchange(&post("/auth/token", Some(ALICE)), &mut auth);
    assert!(response.starts_with("HTTP/1.1 200 OK\r\n"), "{response}");
    assert!(response.contains("content-type: application/json\r\n"));
    assert!(response.contains("cache-control: no-store\r\n"));
    assert!(response.contains("\"token_type\":\"Bearer\""), "{response}");
    assert!(response.contains("\"expires_in\":600"), "{response}");
    assert!(
        response.contains("\"refresh_expires_in\":3600"),
        "{response}"
    );
}

#[test]
fn token_endpoints_accept_only_post_without_a_body() {
    let mut auth = token_auth();

    let response = raw_exchange(
        &format!("GET /auth/token HTTP/1.1\r\nHost: x\r\nAuthorization: {ALICE}\r\n\r\n"),
        &mut auth,
    );
    assert!(
        response.starts_with("HTTP/1.1 405 Method Not Allowed\r\n"),
        "{response}"
    );
    assert!(response.contains("allow: POST\r\n"), "{response}");

    let response = raw_exchange(
        &format!(
            "POST /auth/token HTTP/1.1\r\nHost: x\r\nAuthorization: {ALICE}\r\nContent-Length: 5\r\n\r\nhello"
        ),
        &mut auth,
    );
    assert!(
        response.starts_with("HTTP/1.1 400 Bad Request\r\n"),
        "{response}"
    );

    let response = raw_exchange(
        "POST /auth/token HTTP/1.1\r\nTransfer-Encoding: chunked\r\n\r\n",
        &mut auth,
    );
    assert!(response.starts_with("HTTP/1.1 400 Bad Request\r\n"), "{response}");

    let response = raw_exchange(&post("/auth/nope", Some(ALICE)), &mut auth);
    assert!(
        response.starts_with("HTTP/1.1 404 Not Found\r\n"),
        "{response}"
    );
}

#[test]
fn access_token_authorizes_a_proxy_request() {
    let mut auth = token_auth();
    let (access, _) = login(&mut auth);

    let session = ws_handshake(&auth, "/tcp:127.0.0.1:9", Some(&format!("Bearer {access}")))
        .expect("a valid access token should pass the handshake");
    assert_eq!(session.auth_user, "alice");
    match session.route {
        Route::Proxy { protocol, target } => {
            assert_eq!(protocol, Protocol::Tcp);
            assert_eq!(target.addr(), "127.0.0.1:9");
        }
        other => panic!("expected a proxy route, got {other:?}"),
    }
}

#[test]
fn invalid_access_tokens_are_rejected_with_a_bearer_challenge() {
    let mut auth = token_auth();
    let (_, refresh) = login(&mut auth);

    // A refresh token is not an access token, and garbage is not a token.
    for authorization in [
        format!("Bearer {refresh}"),
        "Bearer garbage".to_owned(),
        "Bearer ".to_owned(),
    ] {
        let response = accept_request(
            &ws_request("/tcp:127.0.0.1:9", Some(&authorization)),
            auth.as_ref(),
        )
        .unwrap_err();
        assert_eq!(response.status, 401, "{authorization}");
        let challenges: Vec<&str> = response
            .headers
            .iter()
            .filter(|(name, _)| name == "www-authenticate")
            .map(|(_, value)| value.as_str())
            .collect();
        assert!(
            challenges.iter().any(|c| c.starts_with("Basic ")),
            "{challenges:?}"
        );
        assert!(
            challenges.iter().any(|c| c.starts_with("Bearer ")),
            "{challenges:?}"
        );
    }
}

#[test]
fn refresh_rotates_tokens_and_detects_reuse() {
    let mut auth = token_auth();
    let (access1, refresh1) = login(&mut auth);

    let response = raw_exchange(
        &post("/auth/refresh", Some(&format!("Bearer {refresh1}"))),
        &mut auth,
    );
    assert!(response.starts_with("HTTP/1.1 200 OK\r\n"), "{response}");
    let access2 = json_field(&response, "access_token");
    let refresh2 = json_field(&response, "refresh_token");
    assert_ne!(refresh1, refresh2);
    ws_handshake(&auth, "/", Some(&format!("Bearer {access2}")))
        .expect("the new access token works");

    // Presenting the rotated-out token again means it leaked: everything is revoked.
    let response = raw_exchange(
        &post("/auth/refresh", Some(&format!("Bearer {refresh1}"))),
        &mut auth,
    );
    assert!(
        response.starts_with("HTTP/1.1 401 Unauthorized\r\n"),
        "{response}"
    );
    assert!(response.contains("error=\"invalid_token\""), "{response}");

    let response = raw_exchange(
        &post("/auth/refresh", Some(&format!("Bearer {refresh2}"))),
        &mut auth,
    );
    assert!(
        response.starts_with("HTTP/1.1 401 Unauthorized\r\n"),
        "{response}"
    );
    for access in [access1, access2] {
        let status = ws_handshake(&auth, "/", Some(&format!("Bearer {access}"))).err();
        assert_eq!(status, Some(401));
    }
}

#[test]
fn refresh_and_revoke_need_a_bearer_credential() {
    let mut auth = token_auth();
    let (access, _) = login(&mut auth);

    for path in ["/auth/refresh", "/auth/revoke"] {
        // Nothing, Basic Auth, and an access token are none of them a refresh token.
        for authorization in [
            None,
            Some(ALICE.to_owned()),
            Some(format!("Bearer {access}")),
        ] {
            let response = raw_exchange(&post(path, authorization.as_deref()), &mut auth);
            if path == "/auth/revoke" && authorization.is_some_and(|a| a.starts_with("Bearer")) {
                // Revoking is answered the same for unknown tokens.
                assert!(
                    response.starts_with("HTTP/1.1 204 No Content\r\n"),
                    "{response}"
                );
                assert!(!response.contains("content-length"), "{response}");
            } else {
                assert!(
                    response.starts_with("HTTP/1.1 401 Unauthorized\r\n"),
                    "{path}: {response}"
                );
            }
        }
    }
}

#[test]
fn revoke_logs_the_client_out() {
    let mut auth = token_auth();
    let (access, refresh) = login(&mut auth);
    ws_handshake(&auth, "/", Some(&format!("Bearer {access}")))
        .expect("access token works before logout");

    let response = raw_exchange(
        &post("/auth/revoke", Some(&format!("Bearer {refresh}"))),
        &mut auth,
    );
    assert!(
        response.starts_with("HTTP/1.1 204 No Content\r\n"),
        "{response}"
    );
    let unknown = raw_exchange(&post("/auth/revoke", Some("Bearer unknown")), &mut auth);
    assert_eq!(response, unknown);

    let status = ws_handshake(&auth, "/", Some(&format!("Bearer {access}"))).err();
    assert_eq!(status, Some(401));
    let response = raw_exchange(
        &post("/auth/refresh", Some(&format!("Bearer {refresh}"))),
        &mut auth,
    );
    assert!(
        response.starts_with("HTTP/1.1 401 Unauthorized\r\n"),
        "{response}"
    );
}

#[test]
fn basic_auth_is_still_accepted_next_to_tokens() {
    let auth = token_auth();

    ws_handshake(&auth, "/tcp:127.0.0.1:9", Some(ALICE))
        .expect("Basic Auth keeps working next to tokens");
    let status = ws_handshake(&auth, "/tcp:127.0.0.1:9", Some(WRONG)).err();
    assert_eq!(status, Some(401));
}

#[test]
fn logs_the_client_address_from_a_trusted_proxy() {
    let request = "GET / HTTP/1.1\r\nHost: x\r\nX-Forwarded-For: 10.9.9.9, 203.0.113.7\r\n\r\n";

    let (client, _) = exchange(
        request,
        &mut None,
        &TrustedProxies::new(IpRange::loopback()),
    );
    assert_eq!(client, "203.0.113.7");
}

#[test]
fn logs_the_peer_address_when_the_proxy_is_not_trusted() {
    let request = "GET / HTTP/1.1\r\nHost: x\r\nX-Forwarded-For: 203.0.113.7\r\n\r\n";

    // Nobody trusted: the header is only what the sender claims.
    let (client, _) = exchange(request, &mut None, &TrustedProxies::default());
    assert_eq!(client, "127.0.0.1:1");

    // Someone else trusted: same.
    let other = TrustedProxies::new(vec![IpRange::from_str("10.0.0.0/8").unwrap()]);
    let (client, _) = exchange(request, &mut None, &other);
    assert_eq!(client, "127.0.0.1:1");
}

#[test]
fn logs_a_websocket_handshake_under_the_forwarded_address_too() {
    let request = "GET / HTTP/1.1\r\nHost: x\r\nUpgrade: websocket\r\nConnection: Upgrade\r\nX-Forwarded-For: 203.0.113.7\r\n\r\n";
    let (client, answer) = exchange(
        request,
        &mut None,
        &TrustedProxies::new(IpRange::loopback()),
    );
    assert_eq!(client, "203.0.113.7");
    assert_eq!(answer, None);
}

#[test]
fn routes_name_their_protocol() {
    match parse_route("/udp:[::1]:53") {
        Ok(Route::Proxy { protocol, target }) => {
            assert_eq!(protocol, Protocol::Udp);
            assert_eq!(target.addr(), "[::1]:53");
        }
        other => panic!("expected a route, got {other:?}"),
    }
    assert!(parse_route("/udp:h").is_err());
    assert!(parse_route("").is_err());
}

#[test]
fn user_agents_are_reported() {
    let mut request = ws_request("/", None);
    assert_eq!(request_user_agent(&request), "-");
    request.headers.push(Header { name: "user-agent".to_owned(), value: b"probe/1.0".to_vec() });
    assert_eq!(request_user_agent(&request), "probe/1.0");
}

#[test]
fn token_requests_are_answered_directly_too() {
    let mut auth = token_auth();
    let mut request = ws_request("/auth/token", Some(ALICE));
    request.method = "POST".to_owned();
    let response = handle_auth_request(&request, &mut auth);
    assert_eq!(response.status, 200);
    let body = response.body.unwrap();
    let access = json_field(&body, "access_token");
    let refresh = json_field(&body, "refresh_token");
    assert_eq!(
        body,
        format!(
            "{{\"token_type\":\"Bearer\",\"access_token\":\"{access}\",\"expires_in\":600,\"refresh_token\":\"{refresh}\",\"refresh_expires_in\":3600}}"
        )
    );
    assert_eq!(handle_auth_request(&request, &mut None).status, 404);
}

#[test]
fn endpoints_have_fixed_paths() {
    assert_eq!(endpoint("/auth/token"), Some(Endpoint::Login));
    assert_eq!(endpoint("/auth/refresh"), Some(Endpoint::Refresh));
    assert_eq!(endpoint("/auth/revoke"), Some(Endpoint::Revoke));
    assert_eq!(endpoint("/auth/"), None);
}

#[test]
fn token_errors_are_answered() {
    let full = token_error_response(&TokenError::Full);
    assert_eq!((full.status, full.body.as_deref()), (503, Some("too many active logins")));
    let random = token_error_response(&TokenError::Random);
    assert_eq!((random.status, random.body.as_deref()), (500, Some("failed to issue tokens")));
}

fn client(message: FromClient) -> Event {
    Event::Client { message }
}

fn upstream(bytes: &[u8]) -> Event {
    Event::Upstream { event: FromUpstream::Bytes { bytes: bytes.to_vec() } }
}

#[test]
fn tcp_sessions_forward_frames_and_bytes() {
    assert_eq!(
        proxy_tcp(client(FromClient::Binary { bytes: vec![1, 2] })),
        Relay::ToUpstream { bytes: vec![1, 2] }
    );
    assert_eq!(
        proxy_tcp(client(FromClient::Text { text: "é".to_owned() })),
        Relay::ToUpstream { bytes: vec![0xc3, 0xa9] }
    );
    assert_eq!(
        proxy_tcp(client(FromClient::Ping { payload: vec![7] })),
        Relay::Pong { payload: vec![7] }
    );
    assert_eq!(proxy_tcp(client(FromClient::Pong)), Relay::Nothing);
    assert_eq!(proxy_tcp(client(FromClient::Frame)), Relay::Nothing);
    assert_eq!(proxy_tcp(client(FromClient::Close)), Relay::ShutdownUpstream);
    assert_eq!(proxy_tcp(client(FromClient::Ended)), Relay::ShutdownUpstream);
    assert_eq!(proxy_tcp(client(FromClient::Failed)), Relay::ClientFailed);
    assert_eq!(proxy_tcp(upstream(b"x")), Relay::ToClient { bytes: b"x".to_vec() });
    assert_eq!(proxy_tcp(upstream(b"")), Relay::CloseClient);
    assert_eq!(
        proxy_tcp(Event::Upstream { event: FromUpstream::Failed }),
        Relay::UpstreamFailed
    );
    assert!(proxy_tcp(upstream(b"x")).continues());
    assert!(!proxy_tcp(upstream(b"")).continues());
}

#[test]
fn udp_sessions_forward_datagrams() {
    assert_eq!(
        proxy_udp(client(FromClient::Text { text: "a".to_owned() })),
        Relay::ToUpstream { bytes: b"a".to_vec() }
    );
    assert_eq!(proxy_udp(upstream(b"")), Relay::ToClient { bytes: Vec::new() });
    assert_eq!(proxy_udp(client(FromClient::Close)), Relay::End);
    assert_eq!(proxy_udp(client(FromClient::Ended)), Relay::End);
    assert_eq!(proxy_udp(client(FromClient::Idle)), Relay::CloseClient);
    assert_eq!(
        proxy_udp(Event::Upstream { event: FromUpstream::Idle }),
        Relay::CloseClient
    );
}

#[test]
fn udp_sockets_are_bound_in_the_family_of_the_upstream() {
    assert_eq!(local_bind(&parse_socket("1.2.3.4:53").unwrap()), "0.0.0.0:0");
    assert_eq!(local_bind(&parse_socket("[::1]:53").unwrap()), "[::]:0");
}
