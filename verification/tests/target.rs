use ws2tcp_router::target::{parse_target, parse_target_addr, TargetError};

#[test]
fn parse_target_from_path() {
    let target = parse_target("/tcp:116.63.8.64:12345").unwrap();
    assert_eq!(target.host, "116.63.8.64");
    assert_eq!(target.port, 12345);
}

#[test]
fn parse_target_from_addr() {
    let target = parse_target_addr("ocs.wangguofang.net:8443").unwrap();
    assert_eq!(target.host, "ocs.wangguofang.net");
    assert_eq!(target.port, 8443);
    assert_eq!(target.addr(), "ocs.wangguofang.net:8443");
}

#[test]
fn parse_bracketed_ipv6_target_from_path() {
    let target = parse_target("/tcp:[2001:db8::1]:443").unwrap();
    assert_eq!(target.host, "[2001:db8::1]");
    assert_eq!(target.port, 443);
    assert_eq!(target.addr(), "[2001:db8::1]:443");
}

#[test]
fn rejects_invalid_path() {
    assert!(parse_target("/http:116.63.8.64:12345").is_err());
    assert!(parse_target("/tcp:116.63.8.64").is_err());
    assert!(parse_target("/tcp::12345").is_err());
    assert!(parse_target("/tcp:2001:db8::1:443").is_err());
    assert!(parse_target("/tcp:[]:443").is_err());
    assert!(parse_target("/tcp:[2001:db8::1]443").is_err());
    assert!(parse_target("/tcp:116.63.8.64:not-a-port").is_err());
}

#[test]
fn says_why_a_target_is_invalid() {
    assert_eq!(parse_target("/http:h:1"), Err(TargetError::NotTcp));
    assert_eq!(parse_target("/tcp:h"), Err(TargetError::Form));
    assert_eq!(parse_target("/tcp::1"), Err(TargetError::EmptyHost));
    assert_eq!(parse_target("/tcp:[]:1"), Err(TargetError::EmptyHost));
    assert_eq!(parse_target("/tcp:a:b:1"), Err(TargetError::Unbracketed));
    assert_eq!(parse_target("/tcp:[a]1"), Err(TargetError::BracketForm));
    assert_eq!(
        parse_target("/tcp:h:65536"),
        Err(TargetError::Port { port: "65536".to_owned() })
    );
    assert_eq!(TargetError::NotTcp.text(), "path must start with /tcp:");
    assert_eq!(
        TargetError::BracketForm.text(),
        "IPv6 target must be formatted as [host]:port"
    );
    assert_eq!(TargetError::Form.text(), "target must be formatted as host:port");
    assert_eq!(
        TargetError::Unbracketed.text(),
        "IPv6 target must be enclosed in brackets"
    );
    assert_eq!(TargetError::EmptyHost.text(), "target host is empty");
    // The port is quoted.
    assert_eq!(
        TargetError::Port { port: "a\"b".to_owned() }.text(),
        "invalid target port \"a\\\"b\""
    );
}

#[test]
fn ports_may_have_a_sign_and_leading_zeros() {
    assert_eq!(parse_target_addr("h:+0080").unwrap().addr(), "h:80");
    assert_eq!(parse_target_addr("h:0").unwrap().port, 0);
    assert_eq!(parse_target_addr("h:65535").unwrap().port, 65535);
    assert!(parse_target_addr("h:-1").is_err());
    assert!(parse_target_addr("h:").is_err());
    assert!(parse_target_addr("h:+").is_err());
}

#[test]
fn a_parsed_target_is_read_back() {
    for addr in ["h:080", "[::1]:+443", "[a]b]:1", "用户:7"] {
        let target = parse_target_addr(addr).unwrap();
        assert_eq!(parse_target_addr(&target.addr()), Ok(target.clone()));
        assert_eq!(parse_target(&format!("/tcp:{addr}")), Ok(target));
    }
}
