//! What holds of the options, of what they ask for, and of the log.
use crate::args::{Args, ArgsErrorView, CliArgs, ConfigArgs, ServiceMode};
use crate::args;
use crate::ip::IpAddr;
use crate::listener;
use crate::listener::Service;
use crate::logging;
use crate::logging::Level;
use crate::target::TargetErrorView;
use crate::text;
use crate::tls;
use crate::tls::{PrivateKeyView, TlsError};
use vstd::prelude::*;

verus! {

// ---------------------------------------------------------------------------------------------
// Options
// ---------------------------------------------------------------------------------------------

/// Each setting is that of the command line, or else that of the configuration file, or else its
/// default.
pub proof fn law_where_settings_come_from(cli: CliArgs, config: ConfigArgs, args: Args)
    requires
        args.merges(cli, config),
    ensures
        cli.bind is Some ==> args.bind@ == cli.bind->0@,
        cli.bind is None && config.bind is Some ==> args.bind@ == config.bind->0@,
        cli.bind is None && config.bind is None ==> args.bind@ == "::"@,
        cli.service_mode is Some ==> args.service_mode == cli.service_mode->0,
        cli.service_mode is None && config.service_mode is Some ==> args.service_mode
            == config.service_mode->0,
        cli.service_mode is None && config.service_mode is None ==> args.service_mode
            == ServiceMode::WsOnly,
        cli.port is Some ==> args.port == cli.port->0,
        cli.port is None && config.port is Some ==> args.port == config.port->0,
        cli.port is None && config.port is None ==> args.port == 80,
        cli.tls_port is Some ==> args.tls_port == cli.tls_port->0,
        cli.tls_port is None && config.tls_port is Some ==> args.tls_port == config.tls_port->0,
        cli.tls_port is None && config.tls_port is None ==> args.tls_port == 443,
        cli.ipv6_only ==> args.ipv6_only,
        !cli.ipv6_only && cli.no_ipv6_only ==> !args.ipv6_only,
        !cli.ipv6_only && !cli.no_ipv6_only && config.ipv6_only is Some ==> args.ipv6_only
            == config.ipv6_only->0,
        !cli.ipv6_only && config.ipv6_only is None ==> !args.ipv6_only,
        cli.buffer_size is Some ==> args.buffer_size == cli.buffer_size->0,
        cli.buffer_size is None && config.buffer_size is Some ==> args.buffer_size
            == config.buffer_size->0,
        cli.buffer_size is None && config.buffer_size is None ==> args.buffer_size == 16384,
        cli.basic_auth@.len() > 0 ==> args.basic_auth@ == cli.basic_auth@,
        cli.basic_auth@.len() == 0 && config.basic_auth is Some ==> args.basic_auth@
            == config.basic_auth->0@,
        cli.basic_auth@.len() == 0 && config.basic_auth is None ==> args.basic_auth@.len() == 0,
        cli.anonymous_target@.len() > 0 ==> args.anonymous_target@ == cli.anonymous_target@,
        cli.anonymous_target@.len() == 0 && config.anonymous_target is Some
            ==> args.anonymous_target@ == config.anonymous_target->0@,
        cli.anonymous_target@.len() == 0 && config.anonymous_target is None
            ==> args.anonymous_target@.len() == 0,
        cli.basic_auth_file is Some ==> args.basic_auth_file == cli.basic_auth_file,
        cli.basic_auth_file is None ==> args.basic_auth_file == config.basic_auth_file,
        cli.log_file is Some ==> args.log_file == cli.log_file,
        cli.log_file is None ==> args.log_file == config.log_file,
        cli.log_level is Some ==> args.log_level == cli.log_level,
        cli.log_level is None ==> args.log_level == config.log_level,
{
}

/// The certificate of the command line decides as a whole: a self-signed one drops the files of
/// the configuration, and files, or the wish for no self-signed one, drop its self-signed one.
pub proof fn law_where_the_certificate_comes_from(cli: CliArgs, config: ConfigArgs, args: Args)
    requires
        args.merges(cli, config),
    ensures
        cli.auto_self_signed_cert ==> args.auto_self_signed_cert && args.tls_cert is None
            && args.tls_key is None,
        !cli.auto_self_signed_cert && (cli.no_auto_self_signed_cert || cli.tls_cert is Some
            || cli.tls_key is Some) ==> {
            &&& !args.auto_self_signed_cert
            &&& args.tls_cert == (if cli.tls_cert is Some {
                cli.tls_cert
            } else {
                config.tls_cert
            })
            &&& args.tls_key == (if cli.tls_key is Some {
                cli.tls_key
            } else {
                config.tls_key
            })
        },
        !cli.auto_self_signed_cert && !cli.no_auto_self_signed_cert && cli.tls_cert is None
            && cli.tls_key is None ==> {
            &&& args.tls_cert == config.tls_cert
            &&& args.tls_key == config.tls_key
            &&& args.auto_self_signed_cert <==> config.auto_self_signed_cert == Some(true)
        },
{
}

/// Options exclude each other where both sides of a switch are given, or certificate files next to
/// a self-signed certificate.
pub proof fn law_which_options_exclude_each_other(cli: CliArgs)
    ensures
        cli.ipv6_only && cli.no_ipv6_only ==> cli.has_conflict(),
        cli.auto_self_signed_cert && cli.no_auto_self_signed_cert ==> cli.has_conflict(),
        cli.auto_self_signed_cert && cli.tls_cert is Some ==> cli.has_conflict(),
        cli.auto_self_signed_cert && cli.tls_key is Some ==> cli.has_conflict(),
        !(cli.ipv6_only && cli.no_ipv6_only) && !cli.auto_self_signed_cert ==> !cli.has_conflict(),
        !(cli.ipv6_only && cli.no_ipv6_only) && !cli.no_auto_self_signed_cert && cli.tls_cert
            is None && cli.tls_key is None ==> !cli.has_conflict(),
{
}

/// Options are refused for the first of these reasons that applies, and for no other: an empty
/// buffer, an anonymous target that is none, one of the certificate files without the other, files
/// next to a self-signed certificate, TLS without a certificate, and two services on one port.
pub proof fn law_why_options_are_refused(args: Args)
    ensures
        ({
            let targets = text::strings(args.anonymous_target@);
            let has_certificate = args.auto_self_signed_cert || (args.tls_cert is Some
                && args.tls_key is Some);
            let wants_tls = args.service_mode == ServiceMode::WssOnly || args.service_mode
                == ServiceMode::Both;
            let empty_buffer = args.buffer_size == 0;
            let bad_target = args::bad_target(targets) is Some;
            let bad = args::bad_target(targets)->Some_0;
            let half = args.tls_cert is Some <==> args.tls_key is None;
            let twice = args.auto_self_signed_cert && (args.tls_cert is Some || args.tls_key
                is Some);
            let bare = wants_tls && !has_certificate;
            let same = args.service_mode == ServiceMode::Both && args.port == args.tls_port;
            &&& empty_buffer ==> args.fault() == Some(ArgsErrorView::BufferSize)
            &&& !empty_buffer && bad_target ==> args.fault() == Some(
                ArgsErrorView::AnonymousTarget { target: bad.0, error: bad.1 },
            )
            &&& !empty_buffer && !bad_target && half ==> args.fault() == Some(
                ArgsErrorView::TlsPair,
            )
            &&& !empty_buffer && !bad_target && !half && twice ==> args.fault() == Some(
                ArgsErrorView::AutoWithFiles,
            )
            &&& !empty_buffer && !bad_target && !half && !twice && bare ==> args.fault() == Some(
                ArgsErrorView::WssWithoutTls,
            )
            &&& !empty_buffer && !bad_target && !half && !twice && !bare && same ==> args.fault()
                == Some(ArgsErrorView::SamePorts)
            &&& !empty_buffer && !bad_target && !half && !twice && !bare && !same ==> args.fault()
                is None
        }),
{
}

/// The refusals say what is wrong.
pub proof fn law_what_refused_options_are_told(target: Seq<char>, error: TargetErrorView)
    ensures
        ArgsErrorView::BufferSize.text() == "--buffer-size must be greater than 0"@,
        (ArgsErrorView::AnonymousTarget { target, error }).text() == "invalid anonymous target "@
            + text::quoted(target) + ": "@ + error.text(),
        ArgsErrorView::TlsPair.text() == "--tls-cert and --tls-key must be configured together"@,
        ArgsErrorView::AutoWithFiles.text()
            == "--auto-self-signed-cert cannot be used with --tls-cert or --tls-key"@,
        ArgsErrorView::WssWithoutTls.text()
            == "wss service mode requires --tls-cert and --tls-key, or --auto-self-signed-cert"@,
        ArgsErrorView::SamePorts.text()
            == "--port and --tls-port must be different when --service-mode both is used"@,
{
}

// ---------------------------------------------------------------------------------------------
// Services and certificates
// ---------------------------------------------------------------------------------------------

/// A plain service runs on its port unless only TLS is served, and a TLS service on its own port
/// unless none is; nothing else runs, and the plain one comes first.
pub proof fn law_which_services_run(mode: ServiceMode, port: u16, tls_port: u16, service: Service)
    ensures
        ({
            let services = listener::services_of(mode, port, tls_port);
            let ws = Service { port, tls: false };
            let wss = Service { port: tls_port, tls: true };
            &&& services.contains(ws) <==> mode != ServiceMode::WssOnly
            &&& services.contains(wss) <==> mode != ServiceMode::WsOnly
            &&& services.contains(service) ==> service == ws || service == wss
            &&& services.len() == (if mode == ServiceMode::Both {
                2nat
            } else {
                1nat
            })
            &&& mode != ServiceMode::WssOnly ==> services[0] == ws
        }),
{
    let services = listener::services_of(mode, port, tls_port);
    assert(services.len() > 0);
    assert(services.contains(services[0]));
    if services.len() > 1 {
        assert(services.contains(services[1]));
    }
}

/// A file has to hold at least one certificate, all of which are used, and a private key.
pub proof fn law_which_files_are_usable(certs: Seq<Seq<u8>>, key: PrivateKeyView)
    ensures
        tls::usable_certs(None) == Err::<Seq<Seq<u8>>, TlsError>(TlsError::CertificateRead),
        certs.len() == 0 ==> tls::usable_certs(Some(certs)) == Err::<Seq<Seq<u8>>, TlsError>(
            TlsError::NoCertificates,
        ),
        certs.len() > 0 ==> tls::usable_certs(Some(certs)) == Ok::<Seq<Seq<u8>>, TlsError>(certs),
        tls::usable_key(None) == Err::<PrivateKeyView, TlsError>(TlsError::KeyRead),
        tls::usable_key(Some(None)) == Err::<PrivateKeyView, TlsError>(TlsError::NoKey),
        tls::usable_key(Some(Some(key))) == Ok::<PrivateKeyView, TlsError>(key),
{
}

/// The certificate is for every address of the interfaces and both loopback addresses, and for no
/// other; none is named twice, and IPv4 comes before IPv6, the smaller before the larger.
pub proof fn law_which_addresses_are_certified(
    ips: Seq<IpAddr>,
    interfaces: Seq<IpAddr>,
    ip: IpAddr,
    i: int,
    j: int,
)
    requires
        tls::are_server_ips(ips, interfaces),
    ensures
        interfaces.contains(ip) ==> ips.contains(ip),
        ips.contains(IpAddr::V4(0x7f00_0001)),
        ips.contains(IpAddr::V6(1)),
        ips.contains(ip) && ip != IpAddr::V4(0x7f00_0001) && ip != IpAddr::V6(1)
            ==> interfaces.contains(ip),
        0 <= i < j < ips.len() ==> {
            &&& ips[i] != ips[j]
            &&& ips[j] is V4 ==> ips[i] is V4
            &&& ips[i] matches IpAddr::V4(a) ==> (ips[j] matches IpAddr::V4(b) ==> a < b)
            &&& ips[i] matches IpAddr::V6(a) ==> (ips[j] matches IpAddr::V6(b) ==> a < b)
        },
        tls::written(ips).len() == ips.len(),
        0 <= i < ips.len() ==> tls::written(ips)[i] == ips[i].spec_text(),
        tls::SELF_SIGNED_SECS == 10 * 365 * 24 * 3600,
        tls::SELF_SIGNED_NAME@ == "ws2tcp-router self-signed"@,
{
    if 0 <= i < j < ips.len() {
        assert(tls::before(ips[i], ips[j]));
    }
}

// ---------------------------------------------------------------------------------------------
// The log
// ---------------------------------------------------------------------------------------------

/// A line of the log starts with the level, right-aligned, and the part of the program, without
/// the crate's name; without colours these stand as they are.
pub proof fn law_how_log_lines_start(level: Level, part: Seq<char>)
    ensures
        logging::event_prefix(level, "ws2tcp_router::"@ + part, false) == level.spec_name() + " "@
            + (part + ":"@) + " "@,
        (forall|p: Seq<char>| part != #[trigger] ("ws2tcp_router::"@ + p)) ==> logging::event_prefix(
            level,
            part,
            false,
        ) == level.spec_name() + " "@ + (part + ":"@) + " "@,
        Level::Error.spec_name() == "ERROR"@,
        Level::Warn.spec_name() == " WARN"@,
        Level::Info.spec_name() == " INFO"@,
        Level::Debug.spec_name() == "DEBUG"@,
        Level::Trace.spec_name() == "TRACE"@,
{
    crate::text_laws::law_a_prefix_is_taken_off(
        "ws2tcp_router::"@ + part,
        "ws2tcp_router::"@,
        part,
    );
    match text::strip_prefix(part, "ws2tcp_router::"@) {
        Some(rest) => {
            crate::text_laws::law_a_prefix_is_taken_off(part, "ws2tcp_router::"@, rest);
            assert(part == "ws2tcp_router::"@ + rest);
        },
        None => {},
    }
}

/// With colours the level stands in its own and the part of the program is dimmed, and both are
/// switched off again.
pub proof fn law_how_log_lines_are_coloured(level: Level, part: Seq<char>)
    ensures
        ({
            let off = "\x1b[0m"@;
            let color = match level {
                Level::Error => "\x1b[31m"@,
                Level::Warn => "\x1b[33m"@,
                Level::Info => "\x1b[32m"@,
                Level::Debug => "\x1b[34m"@,
                Level::Trace => "\x1b[35m"@,
            };
            logging::event_prefix(level, "ws2tcp_router::"@ + part, true) == color
                + level.spec_name() + off + " "@ + ("\x1b[2m"@ + (part + ":"@) + off) + " "@
        }),
{
    crate::text_laws::law_a_prefix_is_taken_off(
        "ws2tcp_router::"@ + part,
        "ws2tcp_router::"@,
        part,
    );
}

/// The filter of the command line has to be one; that of the environment is used where it is one;
/// otherwise the program's own messages are logged from the level of information on.
pub proof fn law_which_filter_is_used(
    level: Seq<char>,
    environment: Option<Seq<char>>,
    other: Seq<char>,
    usable: bool,
)
    ensures
        logging::filter_of(Some(level), environment, true) == Ok::<Seq<char>, Seq<char>>(level),
        logging::filter_of(Some(level), environment, false) == Err::<Seq<char>, Seq<char>>(
            "invalid --log-level filter "@ + text::quoted(level),
        ),
        logging::filter_of(None, Some(other), true) == Ok::<Seq<char>, Seq<char>>(other),
        logging::filter_of(None, Some(other), false) == Ok::<Seq<char>, Seq<char>>(
            "ws2tcp_router=info"@,
        ),
        logging::filter_of(None, None, usable) == Ok::<Seq<char>, Seq<char>>(
            "ws2tcp_router=info"@,
        ),
{
}

// ---------------------------------------------------------------------------------------------
// Limits
// ---------------------------------------------------------------------------------------------

/// The limits.
pub proof fn law_the_limits()
    ensures
        crate::token::MIN_SECRET_BYTES == 32,
        crate::token::TOKEN_BYTES == 32,
        crate::token::ACCESS_TOKEN_VERSION == 1,
        crate::token::MAX_FAMILY_LIFETIME_SECS == 30 * 24 * 3600,
        crate::token::MAX_RECORDS == 100_000,
        crate::token::SWEEP_INTERVAL_SECS == 60,
        crate::token::TOKEN_HEADER@ == "x-ws2tcp-token"@,
        crate::client_addr::MAX_HEADERS == 64,
        crate::http_probe::MAX_HEADERS == 64,
        crate::http_probe::MAX_REQUEST_HEAD == 16384,
        crate::http_probe::READ_CHUNK == 2048,
        crate::proxy::UDP_DATAGRAM_BUFFER == 65536,
        crate::proxy::HEALTH_CHECK_CLOSE_REASON@ == "health check"@,
        listener::LISTEN_BACKLOG == 1024,
        crate::auth::RELOAD_INTERVAL_SECS == 1,
        tls::LAST_SECOND == 253_402_300_799,
        tls::LOCALHOST_V4 == 0x7f00_0001,
        tls::LOCALHOST_V6 == 1,
{
}

} // verus!
