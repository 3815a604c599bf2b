use std::path::PathBuf;
use ws2tcp_router::args::{
    Args, ArgsError, CliArgs, ConfigArgs, ServiceMode, DEFAULT_BIND, DEFAULT_BUFFER_SIZE,
    DEFAULT_PORT, DEFAULT_TLS_PORT,
};
use ws2tcp_router::target::TargetError;

fn merge(cli: CliArgs, config: ConfigArgs) -> Args {
    Args::from_cli(cli, config).unwrap()
}

fn strings(list: &[&str]) -> Vec<String> {
    list.iter().map(|s| s.to_string()).collect()
}

fn path(p: &str) -> Option<PathBuf> {
    Some(PathBuf::from(p))
}

#[test]
fn uses_defaults_without_config_or_cli_values() {
    let args = merge(CliArgs::default(), ConfigArgs::default());

    assert_eq!(args.bind, DEFAULT_BIND);
    assert_eq!(args.service_mode, ServiceMode::WsOnly);
    assert_eq!(args.port, DEFAULT_PORT);
    assert_eq!(args.tls_port, DEFAULT_TLS_PORT);
    assert!(!args.ipv6_only);
    assert_eq!(args.buffer_size, DEFAULT_BUFFER_SIZE);
    assert!(args.basic_auth.is_empty());
    assert!(args.anonymous_target.is_empty());
    assert!(args.tls_cert.is_none());
    assert!(args.tls_key.is_none());
    assert!(!args.auto_self_signed_cert);
}

#[test]
fn reads_values_from_config_file() {
    let config = ConfigArgs {
        bind: Some("127.0.0.1".to_owned()),
        service_mode: Some(ServiceMode::WssOnly),
        port: Some(8080),
        tls_port: Some(8443),
        ipv6_only: Some(true),
        buffer_size: Some(4096),
        basic_auth: Some(strings(&["alice:secret"])),
        basic_auth_file: path("./users.txt"),
        anonymous_target: Some(strings(&["ocs.wangguofang.net:8443"])),
        tls_cert: path("./cert.pem"),
        tls_key: path("./key.pem"),
        auto_self_signed_cert: Some(false),
        log_file: path("./router.log"),
        log_level: Some("ws2tcp_router=debug".to_owned()),
    };

    let args = merge(CliArgs::default(), config);

    assert_eq!(args.bind, "127.0.0.1");
    assert_eq!(args.service_mode, ServiceMode::WssOnly);
    assert_eq!(args.port, 8080);
    assert_eq!(args.tls_port, 8443);
    assert!(args.ipv6_only);
    assert_eq!(args.buffer_size, 4096);
    assert_eq!(args.basic_auth, vec!["alice:secret"]);
    assert_eq!(args.basic_auth_file, Some(PathBuf::from("./users.txt")));
    assert_eq!(args.anonymous_target, vec!["ocs.wangguofang.net:8443"]);
    assert_eq!(args.tls_cert, Some(PathBuf::from("./cert.pem")));
    assert_eq!(args.tls_key, Some(PathBuf::from("./key.pem")));
    assert!(!args.auto_self_signed_cert);
    assert_eq!(args.log_file, Some(PathBuf::from("./router.log")));
    assert_eq!(args.log_level, Some("ws2tcp_router=debug".to_owned()));
}

#[test]
fn cli_values_override_config_file_values() {
    let config = ConfigArgs {
        bind: Some("127.0.0.1".to_owned()),
        port: Some(8001),
        service_mode: Some(ServiceMode::WsOnly),
        ipv6_only: Some(true),
        buffer_size: Some(4096),
        basic_auth: Some(strings(&["alice:secret"])),
        anonymous_target: Some(strings(&["config.example:443"])),
        tls_cert: path("./config-cert.pem"),
        tls_key: path("./config-key.pem"),
        ..ConfigArgs::default()
    };
    let cli = CliArgs {
        bind: Some("0.0.0.0".to_owned()),
        service_mode: Some(ServiceMode::WssOnly),
        port: Some(9000),
        tls_port: Some(9443),
        no_ipv6_only: true,
        buffer_size: Some(8192),
        basic_auth: strings(&["bob:secret"]),
        anonymous_target: strings(&["cli.example:443"]),
        tls_cert: path("./cli-cert.pem"),
        tls_key: path("./cli-key.pem"),
        ..CliArgs::default()
    };

    let args = merge(cli, config);

    assert_eq!(args.bind, "0.0.0.0");
    assert_eq!(args.service_mode, ServiceMode::WssOnly);
    assert_eq!(args.port, 9000);
    assert_eq!(args.tls_port, 9443);
    assert!(!args.ipv6_only);
    assert_eq!(args.buffer_size, 8192);
    assert_eq!(args.basic_auth, vec!["bob:secret"]);
    assert_eq!(args.anonymous_target, vec!["cli.example:443"]);
    assert_eq!(args.tls_cert, Some(PathBuf::from("./cli-cert.pem")));
    assert_eq!(args.tls_key, Some(PathBuf::from("./cli-key.pem")));
}

#[test]
fn rejects_partial_tls_config_after_merge() {
    let config = ConfigArgs { tls_cert: path("./cert.pem"), ..ConfigArgs::default() };

    let result = Args::from_cli(CliArgs::default(), config);

    assert!(result.is_err());
    assert!(matches!(result, Err(ArgsError::TlsPair)));
}

#[test]
fn enables_auto_self_signed_cert_from_cli() {
    let cli = CliArgs { auto_self_signed_cert: true, ..CliArgs::default() };

    let args = merge(cli, ConfigArgs::default());

    assert!(args.auto_self_signed_cert);
    assert!(args.tls_cert.is_none());
    assert!(args.tls_key.is_none());
}

#[test]
fn rejects_auto_self_signed_cert_with_file_tls() {
    let cli = CliArgs {
        auto_self_signed_cert: true,
        tls_cert: path("./cert.pem"),
        tls_key: path("./key.pem"),
        ..CliArgs::default()
    };

    let result = Args::try_parse_from(cli, ConfigArgs::default());

    assert!(result.is_err());
    assert!(matches!(result, Err(ArgsError::Conflict)));
    assert_eq!(
        ArgsError::Conflict.text(),
        "options that exclude each other were given"
    );
}

#[test]
fn both_sides_of_a_switch_are_rejected() {
    let cli = CliArgs { ipv6_only: true, no_ipv6_only: true, ..CliArgs::default() };
    assert!(Args::try_parse_from(cli, ConfigArgs::default()).is_err());
    let cli = CliArgs {
        auto_self_signed_cert: true,
        no_auto_self_signed_cert: true,
        ..CliArgs::default()
    };
    assert!(Args::try_parse_from(cli, ConfigArgs::default()).is_err());
    assert!(Args::try_parse_from(CliArgs::default(), ConfigArgs::default()).is_ok());
}

#[test]
fn cli_auto_self_signed_cert_overrides_config_file_tls() {
    let config = ConfigArgs {
        tls_cert: path("./config-cert.pem"),
        tls_key: path("./config-key.pem"),
        ..ConfigArgs::default()
    };
    let cli = CliArgs { auto_self_signed_cert: true, ..CliArgs::default() };

    let args = merge(cli, config);

    assert!(args.auto_self_signed_cert);
    assert!(args.tls_cert.is_none());
    assert!(args.tls_key.is_none());
}

#[test]
fn cli_file_tls_overrides_config_auto_self_signed_cert() {
    let config = ConfigArgs { auto_self_signed_cert: Some(true), ..ConfigArgs::default() };
    let cli = CliArgs {
        tls_cert: path("./cli-cert.pem"),
        tls_key: path("./cli-key.pem"),
        ..CliArgs::default()
    };

    let args = merge(cli, config);

    assert!(!args.auto_self_signed_cert);
    assert_eq!(args.tls_cert, Some(PathBuf::from("./cli-cert.pem")));
    assert_eq!(args.tls_key, Some(PathBuf::from("./cli-key.pem")));
}

#[test]
fn cli_no_auto_self_signed_cert_overrides_config_auto_self_signed_cert() {
    let config = ConfigArgs { auto_self_signed_cert: Some(true), ..ConfigArgs::default() };
    let cli = CliArgs { no_auto_self_signed_cert: true, ..CliArgs::default() };

    let args = merge(cli, config);

    assert!(!args.auto_self_signed_cert);
    assert!(args.tls_cert.is_none());
    assert!(args.tls_key.is_none());
}

#[test]
fn port_sets_ws_port() {
    let cli = CliArgs { port: Some(8080), ..CliArgs::default() };

    let args = merge(cli, ConfigArgs::default());

    assert_eq!(args.port, 8080);
    assert_eq!(args.tls_port, DEFAULT_TLS_PORT);
}

#[test]
fn rejects_wss_mode_without_tls_config() {
    let cli = CliArgs { service_mode: Some(ServiceMode::WssOnly), ..CliArgs::default() };

    let result = Args::from_cli(cli, ConfigArgs::default());

    assert!(result.is_err());
    assert!(matches!(result, Err(ArgsError::WssWithoutTls)));
}

#[test]
fn accepts_both_mode_with_auto_self_signed_cert() {
    let cli = CliArgs {
        service_mode: Some(ServiceMode::Both),
        auto_self_signed_cert: true,
        ..CliArgs::default()
    };

    let args = merge(cli, ConfigArgs::default());

    assert_eq!(args.service_mode, ServiceMode::Both);
    assert_eq!(args.port, DEFAULT_PORT);
    assert_eq!(args.tls_port, DEFAULT_TLS_PORT);
    assert!(args.has_tls_config());
}

#[test]
fn rejects_both_mode_with_same_ports() {
    let cli = CliArgs {
        service_mode: Some(ServiceMode::Both),
        auto_self_signed_cert: true,
        port: Some(8443),
        tls_port: Some(8443),
        ..CliArgs::default()
    };

    let result = Args::from_cli(cli, ConfigArgs::default());

    assert!(result.is_err());
    assert!(matches!(result, Err(ArgsError::SamePorts)));
}

#[test]
fn rejects_an_empty_buffer_and_bad_targets() {
    let cli = CliArgs { buffer_size: Some(0), ..CliArgs::default() };
    assert_eq!(
        Args::from_cli(cli, ConfigArgs::default()).unwrap_err(),
        ArgsError::BufferSize
    );

    let cli = CliArgs {
        anonymous_target: strings(&["a:1", "2001:db8::1:443", "x"]),
        ..CliArgs::default()
    };
    let error = Args::from_cli(cli, ConfigArgs::default()).unwrap_err();
    assert_eq!(
        error,
        ArgsError::AnonymousTarget {
            target: "2001:db8::1:443".to_owned(),
            error: TargetError::Unbracketed,
        }
    );
    assert_eq!(
        error.text(),
        "invalid anonymous target \"2001:db8::1:443\": IPv6 target must be enclosed in brackets"
    );
}

#[test]
fn a_self_signed_certificate_excludes_files() {
    let mut args = merge(CliArgs::default(), ConfigArgs::default());
    args.auto_self_signed_cert = true;
    args.tls_cert = path("./cert.pem");
    args.tls_key = path("./key.pem");

    assert_eq!(args.validate(), Err(ArgsError::AutoWithFiles));
    assert_eq!(
        ArgsError::AutoWithFiles.text(),
        "--auto-self-signed-cert cannot be used with --tls-cert or --tls-key"
    );
}

#[test]
fn service_modes_include_their_services() {
    assert!(ServiceMode::WsOnly.includes_ws() && !ServiceMode::WsOnly.includes_wss());
    assert!(!ServiceMode::WssOnly.includes_ws() && ServiceMode::WssOnly.includes_wss());
    assert!(ServiceMode::Both.includes_ws() && ServiceMode::Both.includes_wss());
    assert_eq!(ServiceMode::default(), ServiceMode::WsOnly);
}

#[test]
fn ipv6_only_comes_from_either_side() {
    let on = || ConfigArgs { ipv6_only: Some(true), ..ConfigArgs::default() };
    assert!(merge(CliArgs::default(), on()).ipv6_only);
    assert!(!merge(CliArgs { no_ipv6_only: true, ..CliArgs::default() }, on()).ipv6_only);
    assert!(merge(CliArgs { ipv6_only: true, ..CliArgs::default() }, ConfigArgs::default()).ipv6_only);
}
