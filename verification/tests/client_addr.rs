use ws2tcp_router::client_addr::{parse_forwarded_address, ClientAddr, IpRange, TrustedProxies};
use ws2tcp_router::ip::{parse_ip, parse_socket, IpAddr, SocketAddr};

fn ip(input: &str) -> IpAddr {
    parse_ip(input).unwrap()
}

fn socket(input: &str) -> SocketAddr {
    parse_socket(input).unwrap()
}

fn range(input: &str) -> IpRange {
    IpRange::from_str(input).unwrap()
}

fn proxies(ranges: &[&str]) -> TrustedProxies {
    TrustedProxies::new(ranges.iter().map(|r| range(r)).collect())
}

fn head(headers: &str) -> Vec<u8> {
    format!("GET / HTTP/1.1\r\nHost: x\r\n{headers}\r\n").into_bytes()
}

#[test]
fn parses_addresses_and_cidr_ranges() {
    assert!(range("10.0.0.0/8").contains(ip("10.255.0.1")));
    assert!(!range("10.0.0.0/8").contains(ip("11.0.0.1")));
    // A bare address is a range of one; host bits in a range are ignored.
    assert!(range("192.0.2.7").contains(ip("192.0.2.7")));
    assert!(!range("192.0.2.7").contains(ip("192.0.2.8")));
    assert!(range("10.1.2.3/8").contains(ip("10.9.9.9")));
    assert!(range("0.0.0.0/0").contains(ip("203.0.113.9")));
    assert!(range("2001:db8::/32").contains(ip("2001:db8:1::1")));
    assert!(!range("2001:db8::/32").contains(ip("2001:db9::1")));
    assert!(range("::1/128").contains(ip("::1")));
    // Families never match each other.
    assert!(!range("10.0.0.0/8").contains(ip("2001:db8::1")));
    assert!(!range("0.0.0.0/0").contains(ip("::1")));
    assert!(range("::/0").contains(ip("2001:db9::1")));
    assert!(!range("::/0").contains(ip("1.2.3.4")));
}

#[test]
fn ipv4_peers_of_a_dual_stack_listener_match_ipv4_ranges() {
    assert!(range("127.0.0.0/8").contains(ip("::ffff:127.0.0.1")));
    assert!(range("10.0.0.0/8").contains(ip("::ffff:10.1.2.3")));
    assert!(!range("10.0.0.0/8").contains(ip("::ffff:11.1.2.3")));
}

#[test]
fn rejects_bad_ranges() {
    for bad in [
        "",
        "nope",
        "10.0.0.0/33",
        "::1/129",
        "10.0.0.0/",
        "10.0.0.0/x",
        "::ffff:10.0.0.1",
    ] {
        assert!(IpRange::from_str(bad).is_err(), "{bad:?}");
    }
}

#[test]
fn says_why_a_range_is_bad() {
    assert_eq!(
        IpRange::from_str("no\"pe").unwrap_err(),
        "\"no\\\"pe\" is not an IP address or a CIDR range"
    );
    assert_eq!(
        IpRange::from_str("::ffff:10.0.0.1").unwrap_err(),
        "\"::ffff:10.0.0.1\" is an IPv4-mapped IPv6 address; write the IPv4 address instead"
    );
    assert_eq!(
        IpRange::from_str("10.0.0.0/33").unwrap_err(),
        "invalid prefix length in \"10.0.0.0/33\", expected 0-32"
    );
    assert_eq!(
        IpRange::from_str("::1/256").unwrap_err(),
        "invalid prefix length in \"::1/256\", expected 0-128"
    );
}

#[test]
fn ranges_may_have_white_space_around_their_parts() {
    assert_eq!(range(" 10.0.0.0 / 8 "), range("10.0.0.0/8"));
    assert_eq!(range("10.0.0.0/+08"), range("10.0.0.0/8"));
}

#[test]
fn displays_ranges_and_lists() {
    assert_eq!(range("10.0.0.0/8").to_text(), "10.0.0.0/8");
    assert_eq!(range("2001:db8::1").to_text(), "2001:db8::1/128");
    assert_eq!(proxies(&[]).to_text(), "none");
    assert_eq!(
        TrustedProxies::new(IpRange::loopback()).to_text(),
        "127.0.0.0/8, ::1/128"
    );
    assert_eq!(IpRange::loopback(), vec![range("127.0.0.0/8"), range("::1/128")]);
}

#[test]
fn reads_the_client_behind_a_trusted_proxy() {
    let trusted = proxies(&["127.0.0.0/8"]);
    let peer = socket("127.0.0.1:5555");

    let client = trusted.client_addr(peer, &head("X-Forwarded-For: 203.0.113.7\r\n"));
    assert_eq!(client.to_text(), "203.0.113.7");
}

#[test]
fn ignores_the_header_from_anyone_else() {
    let trusted = proxies(&["127.0.0.0/8"]);
    let peer = socket("198.51.100.4:5555");

    let client = trusted.client_addr(peer, &head("X-Forwarded-For: 203.0.113.7\r\n"));
    assert_eq!(client.to_text(), "198.51.100.4:5555");

    // Nobody is trusted when the list is empty.
    let client = proxies(&[]).client_addr(
        socket("127.0.0.1:5555"),
        &head("X-Forwarded-For: 203.0.113.7\r\n"),
    );
    assert_eq!(client.to_text(), "127.0.0.1:5555");
}

#[test]
fn without_the_header_the_peer_is_reported() {
    let trusted = proxies(&["127.0.0.0/8"]);
    let peer = socket("127.0.0.1:5555");

    assert_eq!(trusted.client_addr(peer, &head("")).to_text(), "127.0.0.1:5555");
    // A head that is not a complete request is not read either.
    assert_eq!(
        trusted
            .client_addr(peer, b"GET / HTTP/1.1\r\nX-Forwarded-For: 203.0.113.7\r\n")
            .to_text(),
        "127.0.0.1:5555"
    );
    assert_eq!(
        trusted.client_addr(peer, b"\x16\x03\x01").to_text(),
        "127.0.0.1:5555"
    );
}

#[test]
fn a_client_cannot_forge_the_address_by_prepending_entries() {
    let trusted = proxies(&["127.0.0.0/8"]);
    let peer = socket("127.0.0.1:5555");

    // The client sent `X-Forwarded-For: 10.0.0.1`, and nginx appended what it saw.
    let client = trusted.client_addr(peer, &head("X-Forwarded-For: 10.0.0.1, 203.0.113.7\r\n"));
    assert_eq!(client.to_text(), "203.0.113.7");
}

#[test]
fn skips_the_trusted_proxies_in_a_chain() {
    let trusted = proxies(&["127.0.0.0/8", "10.0.0.0/8"]);
    let peer = socket("127.0.0.1:5555");

    // client, then a proxy of ours (10.0.0.5), then the one that connected to us.
    let client = trusted.client_addr(peer, &head("X-Forwarded-For: 203.0.113.7, 10.0.0.5\r\n"));
    assert_eq!(client.to_text(), "203.0.113.7");
}

#[test]
fn uses_the_leftmost_entry_when_every_entry_is_a_trusted_proxy() {
    let trusted = proxies(&["127.0.0.0/8", "10.0.0.0/8"]);

    assert_eq!(
        trusted.select_client(&["10.0.0.9", "10.0.0.5", "127.0.0.2"]),
        Some(ip("10.0.0.9"))
    );
}

#[test]
fn several_header_lines_are_one_list() {
    let trusted = proxies(&["127.0.0.0/8"]);
    let peer = socket("127.0.0.1:5555");

    let client = trusted.client_addr(
        peer,
        &head("x-forwarded-for: 10.0.0.1\r\nX-FORWARDED-FOR: 203.0.113.7\r\n"),
    );
    assert_eq!(client.to_text(), "203.0.113.7");
}

#[test]
fn an_entry_that_is_not_an_address_makes_the_header_unusable() {
    let trusted = proxies(&["127.0.0.0/8"]);

    // Garbage where our proxy's entry should be: do not guess.
    assert_eq!(trusted.select_client(&["203.0.113.7", "unknown"]), None);
    assert_eq!(trusted.select_client(&["unknown"]), None);
    // Garbage further left is never reached, so it cannot hide the client.
    assert_eq!(
        trusted.select_client(&["garbage", "203.0.113.7"]),
        Some(ip("203.0.113.7"))
    );
    assert_eq!(trusted.select_client(&[]), None);
}

#[test]
fn understands_ports_brackets_and_mapped_addresses() {
    assert_eq!(parse_forwarded_address("203.0.113.7"), Some(ip("203.0.113.7")));
    assert_eq!(parse_forwarded_address("203.0.113.7:4711"), Some(ip("203.0.113.7")));
    assert_eq!(parse_forwarded_address("2001:db8::1"), Some(ip("2001:db8::1")));
    assert_eq!(parse_forwarded_address("[2001:db8::1]"), Some(ip("2001:db8::1")));
    assert_eq!(parse_forwarded_address("[2001:db8::1]:443"), Some(ip("2001:db8::1")));
    assert_eq!(parse_forwarded_address("::ffff:203.0.113.7"), Some(ip("203.0.113.7")));
    assert_eq!(parse_forwarded_address("_hidden"), None);
    assert_eq!(parse_forwarded_address("203.0.113.7, 1.1.1.1"), None);
}

#[test]
fn a_dual_stack_proxy_peer_is_recognised() {
    let trusted = proxies(&["127.0.0.0/8"]);
    let peer = socket("[::ffff:127.0.0.1]:5555");

    let client = trusted.client_addr(peer, &head("X-Forwarded-For: 203.0.113.7\r\n"));
    assert_eq!(client.to_text(), "203.0.113.7");
}

#[test]
fn a_direct_client_is_displayed_as_before() {
    let peer = socket("192.0.2.1:40000");

    assert_eq!(ClientAddr::from(peer).to_text(), "192.0.2.1:40000");
}

#[test]
fn entries_that_are_empty_or_not_text_are_skipped() {
    let trusted = proxies(&["127.0.0.0/8"]);
    let peer = socket("127.0.0.1:5555");

    let client = trusted.client_addr(peer, &head("X-Forwarded-For: , 203.0.113.7 ,,\r\n"));
    assert_eq!(client.to_text(), "203.0.113.7");

    let mut bytes = b"GET / HTTP/1.1\r\nX-Forwarded-For: 203.0.113.7\r\nX-Forwarded-For: ".to_vec();
    bytes.extend_from_slice(b"\xff\xfe\r\n\r\n");
    assert_eq!(trusted.client_addr(peer, &bytes).to_text(), "203.0.113.7");
}

#[test]
fn nobody_is_trusted_by_default() {
    assert!(!TrustedProxies::default().contains(ip("127.0.0.1")));
    assert!(TrustedProxies::new(IpRange::loopback()).contains(ip("127.9.9.9")));
    assert!(TrustedProxies::new(IpRange::loopback()).contains(ip("::1")));
}

#[test]
fn reads_and_writes_addresses() {
    for (text, written) in [
        ("0.0.0.0", Some("0.0.0.0")),
        ("255.255.255.255", Some("255.255.255.255")),
        ("256.1.1.1", None),
        ("1.2.3", None),
        ("1.2.3.4.5", None),
        ("01.2.3.4", None),
        ("0.0.0.00", None),
        ("1.2.3.4 ", None),
        ("", None),
        (":", None),
        ("::", Some("::")),
        (":::", None),
        ("::1", Some("::1")),
        ("1::", Some("1::")),
        ("1::2::3", None),
        ("1:2:3:4:5:6:7:8", Some("1:2:3:4:5:6:7:8")),
        ("1:2:3:4:5:6:7:8:9", None),
        ("1:2:3:4:5:6:7", None),
        ("1:2:3:4:5:6:7::", Some("1:2:3:4:5:6:7:0")),
        ("::2:3:4:5:6:7:8", Some("0:2:3:4:5:6:7:8")),
        ("1::2:3:4:5:6:7:8", None),
        ("1:2:3:4:5:6:1.2.3.4", Some("1:2:3:4:5:6:102:304")),
        ("1:2:3:4:5:6:7:1.2.3.4", None),
        ("::1.2.3.4", Some("::102:304")),
        ("::ffff:1.2.3.4", Some("::ffff:1.2.3.4")),
        ("::FFFF:0102:0304", Some("::ffff:1.2.3.4")),
        ("1.2.3.4::", None),
        ("1:2:3:4:5:1.2.3.4::", None),
        ("::1.2.3.4:5", None),
        ("1:2:3:4:5::1.2.3.4", Some("1:2:3:4:5:0:102:304")),
        ("1:2:3:4:5:6::1.2.3.4", None),
        ("FFFF:abcd::0001", Some("ffff:abcd::1")),
        ("00001::", None),
        ("g::", None),
        ("fe80::1%1", None),
        ("1:2:3:4:5:6:7:", None),
        (":1:2:3:4:5:6:7", None),
        ("2001:db8:0:0:1:0:0:1", Some("2001:db8::1:0:0:1")),
        ("2001:0:0:1:0:0:0:1", Some("2001:0:0:1::1")),
        ("1:0:3:0:5:0:7:0", Some("1:0:3:0:5:0:7:0")),
        ("1:2:3:4:5:6:0:0", Some("1:2:3:4:5:6::")),
        ("用", None),
    ] {
        assert_eq!(
            parse_ip(text).map(|ip| ip.to_text()).as_deref(),
            written,
            "{text:?}"
        );
        // What is written is read back.
        assert_eq!(written.and_then(parse_ip), parse_ip(text), "{text:?}");
    }
    assert_eq!(parse_ip("1.2.3.4"), Some(IpAddr::V4(0x0102_0304)));
    assert_eq!(
        parse_ip("2001:db8::ff00:42:8329"),
        Some(IpAddr::V6(0x2001_0db8_0000_0000_0000_ff00_0042_8329))
    );
    assert_eq!(
        IpAddr::V6(u128::MAX).to_text(),
        "ffff:ffff:ffff:ffff:ffff:ffff:ffff:ffff"
    );
    assert_eq!(ip("::ffff:1.2.3.4").to_canonical(), ip("1.2.3.4"));
    assert_eq!(ip("::1.2.3.4").to_canonical(), ip("::1.2.3.4"));
}

#[test]
fn reads_and_writes_socket_addresses() {
    for (text, written) in [
        ("1.2.3.4:5", Some("1.2.3.4:5")),
        ("1.2.3.4:065535", Some("1.2.3.4:65535")),
        ("1.2.3.4:65536", None),
        ("1.2.3.4:", None),
        ("1.2.3.4", None),
        ("1.2.3.4:+5", None),
        ("[::1]:443", Some("[::1]:443")),
        ("[::1]443", None),
        ("[::1]:", None),
        ("[::1%3]:443", Some("[::1%3]:443")),
        ("[::1%0]:443", Some("[::1]:443")),
        ("[::1%4294967295]:1", Some("[::1%4294967295]:1")),
        ("[::1%4294967296]:1", None),
        ("[::1%]:1", None),
        ("[1.2.3.4]:1", None),
        ("::1:443", None),
        ("[::ffff:1.2.3.4]:80", Some("[::ffff:1.2.3.4]:80")),
        ("[]:1", None),
        ("", None),
    ] {
        assert_eq!(
            parse_socket(text).map(|addr| addr.to_text()).as_deref(),
            written,
            "{text:?}"
        );
    }
}
