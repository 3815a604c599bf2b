use ws2tcp_router::clock::{measured_nanos, unix_now, wall_secs, Span};
use ws2tcp_router::token::{
    drawn_family, drawn_token, generate_token, hash_token, load_secret, random_family, SecretError, TokenError, TokenService,
    MAX_RECORDS,
};

const SECOND: u128 = 1_000_000_000;

fn service(access_ttl: u64, refresh_ttl: u64) -> TokenService {
    TokenService::new(
        b"0123456789abcdef0123456789abcdef",
        Span::from_secs(access_ttl),
        Span::from_secs(refresh_ttl),
    )
}

fn everyone(_: &str) -> bool {
    true
}

#[test]
fn tokens_are_url_safe_and_unique() {
    let first = generate_token().unwrap();
    let second = generate_token().unwrap();

    assert_eq!(first.len(), 43); // 32 bytes as unpadded base64
    assert!(first
        .bytes()
        .all(|byte| byte.is_ascii_alphanumeric() || byte == b'-' || byte == b'_'));
    assert_ne!(first, second);
}

#[test]
fn login_issues_a_verifiable_access_token() {
    let mut tokens = service(600, 3600);
    let issued = tokens.login("alice").unwrap();

    assert_eq!(issued.access_expires_in, 600);
    assert_eq!(issued.refresh_expires_in, 3600);
    assert_eq!(
        tokens.verify_access(&issued.access_token).as_deref(),
        Some("alice")
    );
}

#[test]
fn user_names_with_dots_and_unicode_survive_the_round_trip() {
    let mut tokens = service(600, 3600);
    for user in ["a.b.c", "用户", "with space"] {
        let issued = tokens.login(user).unwrap();
        assert_eq!(
            tokens.verify_access(&issued.access_token).as_deref(),
            Some(user)
        );
    }
}

#[test]
fn rejects_tampered_foreign_and_malformed_access_tokens() {
    let mut tokens = service(600, 3600);
    let issued = tokens.login("alice").unwrap();

    // Flip one character of the payload.
    let (payload, tag) = issued.access_token.split_once('.').unwrap();
    let mut forged = payload.to_owned().into_bytes();
    forged[10] = if forged[10] == b'A' { b'B' } else { b'A' };
    let forged = format!("{}.{tag}", String::from_utf8(forged).unwrap());
    assert_eq!(tokens.verify_access(&forged), None);

    // Signed by another secret.
    let other = TokenService::new(
        b"another-secret-another-secret-00",
        Span::from_secs(600),
        Span::from_secs(3600),
    );
    assert_eq!(other.verify_access(&issued.access_token), None);

    // A refresh token is not an access token.
    assert_eq!(tokens.verify_access(&issued.refresh_token), None);
    for junk in ["", ".", "a.b", "not a token"] {
        assert_eq!(tokens.verify_access(junk), None, "{junk:?}");
    }
}

#[test]
fn expired_access_tokens_are_rejected() {
    let mut tokens = service(0, 3600);
    let issued = tokens.login("alice").unwrap();

    assert_eq!(tokens.verify_access(&issued.access_token), None);
}

#[test]
fn refresh_rotates_the_refresh_token() {
    let mut tokens = service(600, 3600);
    let first = tokens.login("alice").unwrap();

    let (user, second) = tokens.refresh(&first.refresh_token, everyone).unwrap();
    assert_eq!(user, "alice");
    assert_ne!(second.refresh_token, first.refresh_token);
    assert_eq!(
        tokens.verify_access(&second.access_token).as_deref(),
        Some("alice")
    );

    // The new token keeps working.
    tokens.refresh(&second.refresh_token, everyone).unwrap();
}

#[test]
fn reusing_a_rotated_refresh_token_revokes_the_whole_family() {
    let mut tokens = service(600, 3600);
    let first = tokens.login("alice").unwrap();
    let (_, second) = tokens.refresh(&first.refresh_token, everyone).unwrap();

    assert_eq!(
        tokens.refresh(&first.refresh_token, everyone),
        Err(TokenError::Reused {
            user: "alice".to_owned()
        })
    );
    // Nothing of the family works any more, including what the legitimate client holds.
    assert_eq!(
        tokens.refresh(&second.refresh_token, everyone),
        Err(TokenError::Invalid)
    );
    assert_eq!(tokens.verify_access(&second.access_token), None);
    assert_eq!(tokens.verify_access(&first.access_token), None);
}

#[test]
fn families_are_independent() {
    let mut tokens = service(600, 3600);
    let laptop = tokens.login("alice").unwrap();
    let phone = tokens.login("alice").unwrap();

    assert!(tokens.revoke(&laptop.refresh_token));

    assert_eq!(tokens.verify_access(&laptop.access_token), None);
    assert_eq!(
        tokens.verify_access(&phone.access_token).as_deref(),
        Some("alice")
    );
    tokens.refresh(&phone.refresh_token, everyone).unwrap();
}

#[test]
fn revoke_kills_refresh_and_access_tokens() {
    let mut tokens = service(600, 3600);
    let issued = tokens.login("alice").unwrap();

    assert!(tokens.revoke(&issued.refresh_token));

    assert_eq!(
        tokens.refresh(&issued.refresh_token, everyone),
        Err(TokenError::Invalid)
    );
    assert_eq!(tokens.verify_access(&issued.access_token), None);
    assert!(!tokens.revoke("never-issued"));
}

#[test]
fn expired_refresh_tokens_are_rejected() {
    let mut tokens = service(600, 0);
    let issued = tokens.login("alice").unwrap();

    assert_eq!(
        tokens.refresh(&issued.refresh_token, everyone),
        Err(TokenError::Invalid)
    );
}

#[test]
fn refresh_fails_for_a_removed_user() {
    let mut tokens = service(600, 3600);
    let issued = tokens.login("alice").unwrap();

    assert_eq!(
        tokens.refresh(&issued.refresh_token, |user| user != "alice"),
        Err(TokenError::Invalid)
    );
}

#[test]
fn refresh_rejects_unknown_tokens_and_access_tokens() {
    let mut tokens = service(600, 3600);
    let issued = tokens.login("alice").unwrap();

    assert_eq!(
        tokens.refresh("never-issued", everyone),
        Err(TokenError::Invalid)
    );
    assert_eq!(
        tokens.refresh(&issued.access_token, everyone),
        Err(TokenError::Invalid)
    );
}

#[test]
fn refresh_tokens_are_stored_hashed() {
    let mut tokens = service(600, 3600);
    let issued = tokens.login("alice").unwrap();

    assert!(!tokens.state.refresh.contains_key(&hash_token("x")));
    assert!(tokens
        .state
        .refresh
        .contains_key(&hash_token(&issued.refresh_token)));
    // SHA-256 of "abc".
    assert_eq!(
        hash_token("abc").bytes,
        vec![
            0xba, 0x78, 0x16, 0xbf, 0x8f, 0x01, 0xcf, 0xea, 0x41, 0x41, 0x40, 0xde, 0x5d, 0xae,
            0x22, 0x23, 0xb0, 0x03, 0x61, 0xa3, 0x96, 0x17, 0x7a, 0x9c, 0xb4, 0x10, 0xff, 0x61,
            0xf2, 0x00, 0x15, 0xad,
        ]
    );
}

#[test]
fn secret_file_must_be_long_enough() {
    assert!(load_secret(b"short\n").is_err());
    assert_eq!(load_secret(b"0123456789abcdef0123456789abcdef\n").unwrap().len(), 32);

    let error = load_secret(b" \t short\r\n").unwrap_err();
    assert_eq!(error, SecretError::TooShort { found: 5 });
    assert_eq!(
        error.text("secret.key"),
        "token secret file secret.key must hold at least 32 bytes, found 5"
    );
    assert_eq!(
        SecretError::Random.text(""),
        "system random number generator failed"
    );
}

#[test]
fn the_service_is_built_from_the_secret_file() {
    let contents = b"0123456789abcdef0123456789abcdef\n";
    let mut tokens = TokenService::from_args(Some(contents), 600, 3600).ok().unwrap();
    assert_eq!(tokens.secret, b"0123456789abcdef0123456789abcdef");
    let issued = tokens.login("alice").unwrap();

    // Access tokens survive a restart with the same secret; refresh tokens do not.
    let mut restarted = service(600, 3600);
    assert_eq!(
        restarted.verify_access(&issued.access_token).as_deref(),
        Some("alice")
    );
    assert_eq!(
        restarted.refresh(&issued.refresh_token, everyone),
        Err(TokenError::Invalid)
    );

    // Without a secret file the secret is random.
    let one = TokenService::from_args(None, 600, 3600).ok().unwrap();
    let other = TokenService::from_args(None, 600, 3600).ok().unwrap();
    assert_eq!(one.secret.len(), 32);
    assert_ne!(one.secret, other.secret);
    assert_eq!(one.verify_access(&issued.access_token), None);

    assert_eq!(
        TokenService::from_args(Some(b"short"), 600, 3600).err(),
        Some(SecretError::TooShort { found: 5 })
    );
}

#[test]
fn an_access_token_has_a_fixed_form() {
    let mut tokens = service(600, 3600);
    let issued = tokens
        .login_at("alice", 0, 1_000_000_000, Some(0x0102_0304_0506_0708), Some("r".to_owned()))
        .unwrap();

    // Version, family, expiry 1000000600, "alice".
    let (payload, tag) = issued.access_token.split_once('.').unwrap();
    assert_eq!(payload, "AQECAwQFBgcIAAAAADuazFhhbGljZQ");
    assert_eq!(tag.len(), 43);
    assert_eq!(issued.refresh_token, "r");
    assert_eq!(
        tokens.verify_access_at(&issued.access_token, 1_000_000_599).as_deref(),
        Some("alice")
    );
    assert_eq!(tokens.verify_access_at(&issued.access_token, 1_000_000_600), None);
}

#[test]
fn a_login_is_cut_off_after_thirty_days() {
    let day = 24 * 3600;
    let mut tokens = service(600, 20 * day);
    let first = tokens
        .login_at("alice", 0, 0, Some(1), Some("a".to_owned()))
        .unwrap();
    assert_eq!(first.refresh_expires_in, 20 * day);

    let (_, second) = tokens
        .refresh_at("a", true, 15 * day as u128 * SECOND, 0, Some("b".to_owned()))
        .unwrap();
    assert_eq!(second.refresh_expires_in, 15 * day);

    let (_, third) = tokens
        .refresh_at("b", true, 29 * day as u128 * SECOND, 0, Some("c".to_owned()))
        .unwrap();
    assert_eq!(third.refresh_expires_in, day);
    assert_eq!(
        tokens.refresh_at("c", true, 30 * day as u128 * SECOND, 0, Some("d".to_owned())),
        Err(TokenError::Invalid)
    );
}

#[test]
fn failing_randomness_is_reported() {
    let mut tokens = service(600, 3600);
    assert_eq!(
        tokens.login_at("alice", 0, 0, None, Some("a".to_owned())),
        Err(TokenError::Random)
    );
    assert_eq!(
        tokens.login_at("alice", 0, 0, Some(1), None),
        Err(TokenError::Random)
    );
    tokens.login_at("alice", 0, 0, Some(1), Some("a".to_owned())).unwrap();
    assert_eq!(tokens.refresh_at("a", true, 0, 0, None), Err(TokenError::Random));
}

#[test]
fn expired_records_are_swept() {
    let mut tokens = service(600, 100);
    tokens.login_at("alice", 0, 0, Some(1), Some("a".to_owned())).unwrap();
    tokens.refresh_at("a", true, 10 * SECOND, 0, Some("b".to_owned())).unwrap();
    assert_eq!(tokens.state.refresh.len() + tokens.state.spent.len(), 2);
    assert!(tokens.revoke_at("b", 20 * SECOND));
    assert_eq!(tokens.state.revoked.len(), 1);
    assert_eq!(tokens.holder("b"), None);

    // Before the sweep interval is over nothing is swept.
    assert_eq!(
        tokens.refresh_at("x", true, 59 * SECOND, 0, None),
        Err(TokenError::Invalid)
    );
    assert_eq!(tokens.state.spent.len(), 1);
    assert_eq!(
        tokens.refresh_at("x", true, 100 * SECOND, 0, None),
        Err(TokenError::Invalid)
    );
    assert_eq!(tokens.state.spent.len(), 0);
    assert_eq!(tokens.state.revoked.len(), 1);
    assert_eq!(
        tokens.refresh_at("x", true, 620 * SECOND, 0, None),
        Err(TokenError::Invalid)
    );
    assert_eq!(tokens.state.revoked.len(), 0);
}

#[test]
fn a_rotated_token_is_forgotten_when_it_would_have_expired() {
    let mut tokens = service(600, 100);
    tokens.login_at("alice", 0, 0, Some(1), Some("a".to_owned())).unwrap();
    tokens.refresh_at("a", true, 50 * SECOND, 0, Some("b".to_owned())).unwrap();
    assert_eq!(
        tokens.refresh_at("a", true, 100 * SECOND, 0, None),
        Err(TokenError::Invalid)
    );
    assert_eq!(tokens.holder("b").as_deref(), Some("alice"));
}

#[test]
fn a_full_store_refuses_logins_but_keeps_tokens() {
    let mut tokens = service(600, 3600);
    for i in 0..MAX_RECORDS {
        tokens.login_at("alice", 0, 0, Some(1), Some(i.to_string())).unwrap();
    }
    assert_eq!(
        tokens.login_at("alice", 0, 0, Some(1), Some("more".to_owned())),
        Err(TokenError::Full)
    );
    assert_eq!(
        tokens.refresh_at("0", true, 0, 0, Some("more".to_owned())),
        Err(TokenError::Full)
    );
    // Nobody's existence is asked for.
    assert_eq!(
        tokens.refresh_asking("0", |_| panic!("asked"), 0, 0, Some("more".to_owned())),
        Err(TokenError::Full)
    );
    assert_eq!(tokens.refresh("0", |_| panic!("asked")), Err(TokenError::Full));
    // The token is still there, and works when there is room again.
    assert_eq!(tokens.holder("0").as_deref(), Some("alice"));
    assert!(tokens.login_at("bob", 3600 * SECOND, 0, Some(2), Some("x".to_owned())).is_ok());
    assert_eq!(tokens.state.refresh.len(), 1);
}

#[test]
fn families_and_clocks_are_drawn() {
    assert_ne!(random_family().unwrap(), random_family().unwrap());
    assert!(unix_now() > 1_600_000_000);
    assert_eq!(Span::from_secs(5).as_secs(), 5);
}

#[test]
fn a_family_is_the_number_that_was_drawn() {
    assert_eq!(drawn_family(Ok(vec![0, 0, 0, 0, 0, 0, 1, 2])), Ok(258));
    assert_eq!(drawn_family(Ok(vec![255; 8])), Ok(u64::MAX));
    assert_eq!(drawn_family(Err(ring::error::Unspecified)), Err(TokenError::Random));
}

#[test]
fn a_token_stands_for_the_bytes_that_were_drawn() {
    assert_eq!(drawn_token(Ok(vec![0; 32])).unwrap(), "A".repeat(43));
    let bytes: Vec<u8> = (224..=255).collect();
    assert_eq!(
        drawn_token(Ok(bytes)).unwrap(),
        "4OHi4-Tl5ufo6err7O3u7_Dx8vP09fb3-Pn6-_z9_v8"
    );
    assert_eq!(drawn_token(Err(ring::error::Unspecified)), Err(TokenError::Random));
}

#[test]
fn access_tokens_are_as_long_as_their_user_asks_for() {
    let mut tokens = service(600, 3600);
    for (user, len) in [("", 23), ("a", 24), ("alice", 30), ("\u{e9}", 26)] {
        let issued = tokens.login_at(user, 0, 0, Some(1), Some("a".to_owned())).unwrap();
        assert_eq!(issued.access_token.len(), len + 44);
    }
}

#[test]
fn clock_readings_are_converted() {
    assert_eq!(measured_nanos(3, 7), 3_000_000_007);
    assert_eq!(wall_secs(Some(1_700_000_000)), 1_700_000_000);
    assert_eq!(wall_secs(None), 0);
}

#[test]
fn only_the_user_of_a_live_token_is_asked_for() {
    let mut tokens = service(600, 3600);
    tokens.login_at("alice", 0, 0, Some(1), Some("a".to_owned())).unwrap();
    tokens.login_at("alice", 0, 0, Some(2), Some("b".to_owned())).unwrap();
    let asked = |user: &str| {
        assert_eq!(user, "alice");
        false
    };
    assert_eq!(
        tokens.refresh_asking("a", asked, 0, 0, Some("c".to_owned())),
        Err(TokenError::Invalid)
    );
    for token in ["b", "a", "never-issued"] {
        assert_eq!(
            tokens.refresh_asking(token, |_| panic!("asked"), 3600 * SECOND, 0, None),
            Err(TokenError::Invalid)
        );
    }
}

#[test]
fn a_revoked_login_stays_revoked() {
    let mut tokens = service(600, 3600);
    let first = tokens.login_at("alice", 0, 0, Some(1), Some("a".to_owned())).unwrap();
    let other = tokens.login_at("alice", 0, 0, Some(2), Some("b".to_owned())).unwrap();
    let (_, second) =
        tokens.refresh_at("a", true, SECOND, 1, Some("c".to_owned())).unwrap();
    assert!(tokens.revoke_at("a", 2 * SECOND));
    // Whatever follows.
    tokens.refresh_at("b", true, 3 * SECOND, 3, Some("d".to_owned())).unwrap();
    tokens.login_at("bob", 4 * SECOND, 4, Some(3), Some("e".to_owned())).unwrap();
    assert!(tokens.revoke_at("e", 100 * SECOND));
    assert!(!tokens.revoke_at("never-issued", 100 * SECOND));
    assert_eq!(
        tokens.refresh_at("c", true, 200 * SECOND, 200, None),
        Err(TokenError::Invalid)
    );
    assert_eq!(tokens.verify_access_at(&first.access_token, 200), None);
    assert_eq!(tokens.verify_access_at(&second.access_token, 200), None);
    assert_eq!(tokens.verify_access_at(&other.access_token, 200).as_deref(), Some("alice"));
}

#[test]
fn another_secret_refuses_access_tokens() {
    let mut tokens = service(600, 3600);
    let issued = tokens.login_at("a.b.c \u{e9}", 0, 0, Some(1), Some("a".to_owned())).unwrap();
    let stranger = TokenService::new(
        b"fedcba9876543210fedcba9876543210",
        Span::from_secs(600),
        Span::from_secs(3600),
    );
    assert_eq!(tokens.verify_access_at(&issued.access_token, 0).as_deref(), Some("a.b.c \u{e9}"));
    assert_eq!(stranger.verify_access_at(&issued.access_token, 0), None);
}
