use std::path::PathBuf;
use ws2tcp_router::args::{Args, ServiceMode};
use ws2tcp_router::auth::{
    authorize_request, authorize_request_at, basic_auth_username, bearer_token, build_auth_config,
    claimed_auth_user, encode_credentials, load_auth_file, unauthorized_response,
    validate_basic_auth_credential, AuthConfig, AuthError, CredentialError, ReloadLog,
    ReloadReport, ANONYMOUS_AUTH_USER, BEARER_CHALLENGE, BEARER_INVALID_CHALLENGE,
};
use ws2tcp_router::clock::Span;
use ws2tcp_router::http::{Header, Request, Response};
use ws2tcp_router::target::TargetError;
use ws2tcp_router::token::TokenService;

fn request_to(path: &str, authorization: Option<&str>) -> Request {
    Request {
        method: "GET".to_owned(),
        path: path.to_owned(),
        headers: authorization
            .iter()
            .map(|value| Header {
                name: "authorization".to_owned(),
                value: value.as_bytes().to_vec(),
            })
            .collect(),
    }
}

fn request_with_authorization(authorization: Option<&str>) -> Request {
    request_to("/tcp:127.0.0.1:80", authorization)
}

fn header<'a>(response: &'a Response, name: &str) -> Vec<&'a str> {
    response
        .headers
        .iter()
        .filter(|(n, _)| n == name)
        .map(|(_, v)| v.as_str())
        .collect()
}

fn default_args() -> Args {
    Args {
        bind: "::".to_owned(),
        service_mode: ServiceMode::WsOnly,
        port: 80,
        tls_port: 443,
        ipv6_only: false,
        buffer_size: 16 * 1024,
        basic_auth: Vec::new(),
        basic_auth_file: None,
        anonymous_target: Vec::new(),
        tls_cert: None,
        tls_key: None,
        auto_self_signed_cert: false,
        log_file: None,
        log_level: None,
    }
}

fn config(expected: &[&str], anonymous: &[&str]) -> AuthConfig {
    AuthConfig {
        expected_authorizations: expected.iter().map(|s| s.to_string()).collect(),
        fixed_authorizations: Vec::new(),
        basic_auth_file: None,
        anonymous_targets: anonymous.iter().map(|s| s.to_string()).collect(),
        tokens: None,
    }
}

#[test]
fn validates_basic_auth_credentials() {
    assert!(validate_basic_auth_credential("alice:secret").is_ok());
    assert!(validate_basic_auth_credential("alice:sec:ret").is_ok());
    assert!(validate_basic_auth_credential("alice").is_err());
    assert!(validate_basic_auth_credential(":secret").is_err());
    assert!(validate_basic_auth_credential("alice:").is_err());
}

#[test]
fn says_why_a_credential_is_invalid() {
    assert_eq!(validate_basic_auth_credential("alice"), Err(CredentialError::Form));
    assert_eq!(validate_basic_auth_credential(":"), Err(CredentialError::EmptyUser));
    assert_eq!(validate_basic_auth_credential("a:"), Err(CredentialError::EmptyPassword));
    assert_eq!(
        CredentialError::Form.text(),
        "basic auth credential must be formatted as USER:PASS"
    );
    assert_eq!(CredentialError::EmptyUser.text(), "basic auth username must not be empty");
    assert_eq!(
        CredentialError::EmptyPassword.text(),
        "basic auth password must not be empty"
    );
}

#[test]
fn extracts_basic_auth_username() {
    assert_eq!(
        basic_auth_username("Basic YWxpY2U6c2VjcmV0"),
        Some("alice".to_owned())
    );
    assert_eq!(basic_auth_username("Bearer token"), None);
    assert_eq!(basic_auth_username("Basic not-base64"), None);
    assert_eq!(basic_auth_username("Basic OnNlY3JldA=="), None);
}

#[test]
fn user_names_survive_the_encoding() {
    let credentials = vec!["用户:p:w".to_owned(), "a b:c".to_owned()];
    let encoded = encode_credentials(&credentials).unwrap();
    assert_eq!(basic_auth_username(&encoded[0]), Some("用户".to_owned()));
    assert_eq!(basic_auth_username(&encoded[1]), Some("a b".to_owned()));
    // Bytes that are not UTF-8 name nobody.
    assert_eq!(basic_auth_username("Basic /zph"), None);
}

#[test]
fn extracts_bearer_tokens() {
    assert_eq!(bearer_token("Bearer abc"), Some("abc".to_owned()));
    assert_eq!(bearer_token("Bearer "), None);
    assert_eq!(bearer_token("bearer abc"), None);
    assert_eq!(bearer_token("Basic abc"), None);
}

#[test]
fn disables_basic_auth_when_no_auth_options_are_set() {
    let args = default_args();

    assert!(build_auth_config(&args, Err("not found")).unwrap().is_none());
}

#[test]
fn builds_basic_auth_config_from_repeated_credentials() {
    let mut args = default_args();
    args.basic_auth = vec!["alice:secret".to_owned(), "bob:secret2".to_owned()];

    let auth = build_auth_config(&args, Err("not found")).unwrap().unwrap();

    assert_eq!(
        auth.expected_authorizations,
        vec![
            "Basic YWxpY2U6c2VjcmV0".to_owned(),
            "Basic Ym9iOnNlY3JldDI=".to_owned(),
        ]
    );
}

#[test]
fn builds_basic_auth_config_with_anonymous_targets() {
    let mut args = default_args();
    args.basic_auth = vec!["alice:secret".to_owned()];
    args.anonymous_target = vec![
        "ocs.wangguofang.net:8443".to_owned(),
        "[2001:db8::1]:443".to_owned(),
    ];

    let auth = build_auth_config(&args, Err("not found")).unwrap().unwrap();

    assert_eq!(
        auth.anonymous_targets,
        vec![
            "ocs.wangguofang.net:8443".to_owned(),
            "[2001:db8::1]:443".to_owned(),
        ]
    );
}

#[test]
fn rejects_invalid_anonymous_target() {
    let mut args = default_args();
    args.basic_auth = vec!["alice:secret".to_owned()];
    args.anonymous_target = vec!["2001:db8::1:443".to_owned()];

    assert!(build_auth_config(&args, Err("not found")).is_err());
    assert_eq!(
        build_auth_config(&args, Err("not found")).err(),
        Some(AuthError::AnonymousTarget {
            target: "2001:db8::1:443".to_owned(),
            error: TargetError::Unbracketed,
        })
    );
}

#[test]
fn rejects_empty_basic_auth_file_when_auth_is_enabled() {
    let mut args = default_args();
    args.basic_auth_file = Some(PathBuf::from("users.txt"));

    let result = build_auth_config(&args, Ok("\n# no credentials\n"));

    assert!(result.is_err());
    assert_eq!(result.err(), Some(AuthError::NoCredentials));
}

#[test]
fn reports_what_is_wrong_with_the_credentials_file() {
    let mut args = default_args();
    args.basic_auth_file = Some(PathBuf::from("users.txt"));

    let unread = build_auth_config(&args, Err("not found")).err().unwrap();
    assert_eq!(unread, AuthError::FileRead { cause: "not found".to_owned() });
    assert_eq!(unread.text("users.txt"), "failed to read basic auth file users.txt: not found");

    let bad = build_auth_config(&args, Ok("# users\r\n alice:secret \r\n\r\nbob\n"))
        .err()
        .unwrap();
    assert_eq!(
        bad,
        AuthError::FileCredential { line: 4, error: CredentialError::Form }
    );
    assert_eq!(
        bad.text("users.txt"),
        "invalid basic auth credential in users.txt at line 4: basic auth credential must be formatted as USER:PASS"
    );

    args.basic_auth = vec!["alice:".to_owned()];
    let fixed = build_auth_config(&args, Err("not found")).err().unwrap();
    assert_eq!(fixed, AuthError::Credential { error: CredentialError::EmptyPassword });
    assert_eq!(
        AuthError::NoCredentials.text(""),
        "basic auth is enabled, but no credentials were configured"
    );
}

#[test]
fn loads_credentials_line_by_line() {
    assert_eq!(
        load_auth_file("# users\r\n alice:secret \r\n\r\n\tbob:secret2").unwrap(),
        vec!["Basic YWxpY2U6c2VjcmV0", "Basic Ym9iOnNlY3JldDI="]
    );
    assert_eq!(load_auth_file("a:b\n:c\n"), Err((2, CredentialError::EmptyUser)));
    assert_eq!(load_auth_file(""), Ok(Vec::new()));
}

#[test]
fn reloads_basic_auth_file_and_retains_last_valid_credentials() {
    let mut args = default_args();
    args.basic_auth_file = Some(PathBuf::from("users.txt"));
    let mut auth = build_auth_config(&args, Ok("alice:secret\n")).unwrap().unwrap();
    let alice = request_with_authorization(Some("Basic YWxpY2U6c2VjcmV0"));
    let bob = request_with_authorization(Some("Basic Ym9iOnNlY3JldDI="));

    assert!(authorize_request(&alice, Some(&auth)).is_ok());
    assert!(auth.reload_auth_file(Ok("bob:secret2\n")).unwrap());
    assert!(authorize_request(&alice, Some(&auth)).is_err());
    assert!(authorize_request(&bob, Some(&auth)).is_ok());
    // Nothing new.
    assert_eq!(auth.reload_auth_file(Ok("bob:secret2\n")), Ok(false));

    assert!(auth.reload_auth_file(Ok("invalid\n")).is_err());
    assert!(authorize_request(&bob, Some(&auth)).is_ok());
    assert_eq!(
        auth.reload_auth_file(Err("not found")),
        Err(AuthError::FileRead { cause: "not found".to_owned() })
    );
    assert_eq!(auth.reload_auth_file(Ok("")), Err(AuthError::NoCredentials));
    assert!(authorize_request(&bob, Some(&auth)).is_ok());
}

#[test]
fn a_failure_to_reload_is_reported_once() {
    let mut log = ReloadLog::new();
    let unread: Result<bool, AuthError> = Err(AuthError::FileRead { cause: "not found".to_owned() });
    assert_eq!(
        log.report(&unread, "users.txt"),
        ReloadReport::Failed {
            error: "failed to read basic auth file users.txt: not found".to_owned()
        }
    );
    assert_eq!(log.report(&unread, "users.txt"), ReloadReport::Quiet);
    // Another cause is another failure.
    let denied: Result<bool, AuthError> = Err(AuthError::FileRead { cause: "denied".to_owned() });
    assert_eq!(
        log.report(&denied, "users.txt"),
        ReloadReport::Failed {
            error: "failed to read basic auth file users.txt: denied".to_owned()
        }
    );
    assert!(matches!(
        log.report(&Err(AuthError::NoCredentials), "users.txt"),
        ReloadReport::Failed { .. }
    ));
    assert_eq!(log.report(&Ok(false), "users.txt"), ReloadReport::Quiet);
    assert!(matches!(
        log.report(&Err(AuthError::NoCredentials), "users.txt"),
        ReloadReport::Failed { .. }
    ));
    assert_eq!(log.report(&Ok(true), "users.txt"), ReloadReport::Reloaded);
}

#[test]
fn the_configured_file_is_kept() {
    let mut args = default_args();
    args.basic_auth_file = Some(PathBuf::from("users.txt"));
    let auth = build_auth_config(&args, Ok("alice:secret\n")).unwrap().unwrap();
    assert_eq!(auth.basic_auth_file, Some(PathBuf::from("users.txt")));
}

#[test]
fn reloading_keeps_the_fixed_credentials() {
    let mut args = default_args();
    args.basic_auth = vec!["alice:secret".to_owned()];
    args.basic_auth_file = Some(PathBuf::from("users.txt"));
    let mut auth = build_auth_config(&args, Ok("bob:secret2\n")).unwrap().unwrap();

    assert_eq!(auth.reload_auth_file(Ok("# nobody\n")), Ok(true));
    assert_eq!(auth.expected_authorizations, vec!["Basic YWxpY2U6c2VjcmV0"]);
}

#[test]
fn allows_request_when_basic_auth_is_disabled() {
    let request = request_with_authorization(None);

    assert_eq!(authorize_request(&request, None).unwrap(), ANONYMOUS_AUTH_USER);
}

#[test]
fn rejects_request_without_basic_auth_header_when_enabled() {
    let request = request_with_authorization(None);
    let auth = config(&["Basic YWxpY2U6c2VjcmV0"], &[]);

    let response = authorize_request(&request, Some(&auth)).unwrap_err();

    assert_eq!(response.status, 401);
    assert_eq!(
        header(&response, "www-authenticate"),
        vec![r#"Basic realm="ws2tcp-router", charset="UTF-8""#]
    );
    assert_eq!(response.body.as_deref(), Some("authentication required"));
}

#[test]
fn rejects_request_with_invalid_basic_auth_header() {
    let request = request_with_authorization(Some("Basic Ym9iOnNlY3JldA=="));
    let auth = config(&["Basic YWxpY2U6c2VjcmV0"], &[]);

    assert!(authorize_request(&request, Some(&auth)).is_err());
}

#[test]
fn allows_request_with_matching_basic_auth_header() {
    let request = request_with_authorization(Some("Basic Ym9iOnNlY3JldDI="));
    let auth = config(&["Basic YWxpY2U6c2VjcmV0", "Basic Ym9iOnNlY3JldDI="], &[]);

    assert_eq!(authorize_request(&request, Some(&auth)).unwrap(), "bob");
}

#[test]
fn allows_request_without_basic_auth_header_for_anonymous_target() {
    let request = request_to("/tcp:ocs.wangguofang.net:8443", None);
    let auth = config(&["Basic YWxpY2U6c2VjcmV0"], &["ocs.wangguofang.net:8443"]);

    assert_eq!(
        authorize_request(&request, Some(&auth)).unwrap(),
        ANONYMOUS_AUTH_USER
    );
    // Targets are compared after normalization.
    let request = request_to("/tcp:ocs.wangguofang.net:+08443", None);
    assert!(authorize_request(&request, Some(&auth)).is_ok());
}

#[test]
fn rejects_request_without_basic_auth_header_for_non_anonymous_target() {
    let request = request_to("/tcp:other.example:8443", None);
    let auth = config(&["Basic YWxpY2U6c2VjcmV0"], &["ocs.wangguofang.net:8443"]);

    assert!(authorize_request(&request, Some(&auth)).is_err());
}

#[test]
fn reports_the_user_that_a_request_claims() {
    assert_eq!(claimed_auth_user(&request_with_authorization(None)), "anonymous");
    assert_eq!(
        claimed_auth_user(&request_with_authorization(Some("Basic YWxpY2U6c2VjcmV0"))),
        "alice"
    );
    assert_eq!(
        claimed_auth_user(&request_with_authorization(Some("Digest x"))),
        "invalid"
    );
    // A header that is not text is no credential.
    let mut request = request_with_authorization(None);
    request.headers.push(Header { name: "authorization".to_owned(), value: vec![0xff] });
    assert_eq!(claimed_auth_user(&request), "anonymous");
}

#[test]
fn access_tokens_are_accepted_for_existing_users() {
    let mut auth = config(&["Basic YWxpY2U6c2VjcmV0"], &[]);
    let mut tokens = TokenService::new(
        b"0123456789abcdef0123456789abcdef",
        Span::from_secs(600),
        Span::from_secs(3600),
    );
    let issued = tokens
        .login_at("alice", 0, 1000, Some(7), Some("refresh".to_owned()))
        .unwrap();
    let removed = tokens
        .login_at("carol", 0, 1000, Some(8), Some("other".to_owned()))
        .unwrap();
    auth.tokens = Some(tokens);

    let bearer = format!("Bearer {}", issued.access_token);
    let request = request_with_authorization(Some(&bearer));
    assert_eq!(authorize_request_at(&request, Some(&auth), 1599).unwrap(), "alice");
    let refusal = authorize_request_at(&request, Some(&auth), 1600).unwrap_err();
    assert_eq!(
        header(&refusal, "www-authenticate"),
        vec![
            r#"Basic realm="ws2tcp-router", charset="UTF-8""#,
            BEARER_INVALID_CHALLENGE,
        ]
    );

    // Carol has no credentials.
    let bearer = format!("Bearer {}", removed.access_token);
    let request = request_with_authorization(Some(&bearer));
    assert!(authorize_request_at(&request, Some(&auth), 1001).is_err());

    // Without a token the challenge does not speak of one.
    let refusal =
        authorize_request_at(&request_with_authorization(None), Some(&auth), 0).unwrap_err();
    assert_eq!(header(&refusal, "www-authenticate")[1], BEARER_CHALLENGE);
}

#[test]
fn refusals_carry_the_challenges_asked_for() {
    assert!(header(&unauthorized_response(false, None), "www-authenticate").is_empty());
    assert_eq!(
        header(&unauthorized_response(false, Some("Bearer x")), "www-authenticate"),
        vec!["Bearer x"]
    );
}

#[test]
fn an_unconfigured_credential_is_refused() {
    let mut args = default_args();
    args.basic_auth = vec!["alice:secret".to_owned()];
    let auth = build_auth_config(&args, Ok("")).unwrap().unwrap();
    for credential in ["alice:secret2", "bob:secret", "alice:secre"] {
        let header = encode_credentials(&[credential.to_owned()]).unwrap().remove(0);
        let refusal = authorize_request(&request_with_authorization(Some(&header)), Some(&auth));
        assert_eq!(refusal.unwrap_err(), unauthorized_response(true, None));
    }
}
