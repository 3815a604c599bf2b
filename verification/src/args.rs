//! Options: what the command line and the configuration file say, and what follows from both.
use crate::target;
use crate::target::TargetError;
use crate::text;
use std::path::PathBuf;
use vstd::prelude::*;

verus! {

/// A path in the file system.
#[verifier::external_type_specification]
#[verifier::external_body]
pub struct ExPathBuf(std::path::PathBuf);

pub const DEFAULT_BIND: &'static str = "::";

pub const DEFAULT_PORT: u16 = 80;

pub const DEFAULT_TLS_PORT: u16 = 443;

pub const DEFAULT_BUFFER_SIZE: usize = 16384;

/// Which services run.
#[derive(Debug, Clone, Copy, PartialEq, Eq, Structural)]
pub enum ServiceMode {
    WsOnly,
    WssOnly,
    Both,
}

impl Default for ServiceMode {
    fn default() -> (r: Self)
        ensures
            r == ServiceMode::WsOnly,
    {
        ServiceMode::WsOnly
    }
}

impl ServiceMode {
    /// Whether websockets are served without TLS.
    pub fn includes_ws(self) -> (r: bool)
        ensures
            r == (self == ServiceMode::WsOnly || self == ServiceMode::Both),
    {
        match self {
            ServiceMode::WsOnly | ServiceMode::Both => true,
            ServiceMode::WssOnly => false,
        }
    }

    /// Whether websockets are served over TLS.
    pub fn includes_wss(self) -> (r: bool)
        ensures
            r == (self == ServiceMode::WssOnly || self == ServiceMode::Both),
    {
        match self {
            ServiceMode::WssOnly | ServiceMode::Both => true,
            ServiceMode::WsOnly => false,
        }
    }
}

/// The options that the router runs with.
#[derive(Debug, Clone)]
pub struct Args {
    pub bind: String,
    pub service_mode: ServiceMode,
    pub port: u16,
    pub tls_port: u16,
    pub ipv6_only: bool,
    pub buffer_size: usize,
    pub basic_auth: Vec<String>,
    pub basic_auth_file: Option<PathBuf>,
    pub anonymous_target: Vec<String>,
    pub tls_cert: Option<PathBuf>,
    pub tls_key: Option<PathBuf>,
    pub auto_self_signed_cert: bool,
    pub log_file: Option<PathBuf>,
    pub log_level: Option<String>,
}

/// What the command line says.
#[derive(Debug)]
pub struct CliArgs {
    pub bind: Option<String>,
    pub service_mode: Option<ServiceMode>,
    pub port: Option<u16>,
    pub tls_port: Option<u16>,
    pub ipv6_only: bool,
    pub no_ipv6_only: bool,
    pub buffer_size: Option<usize>,
    pub basic_auth: Vec<String>,
    pub basic_auth_file: Option<PathBuf>,
    pub anonymous_target: Vec<String>,
    pub tls_cert: Option<PathBuf>,
    pub tls_key: Option<PathBuf>,
    pub auto_self_signed_cert: bool,
    pub no_auto_self_signed_cert: bool,
    pub log_file: Option<PathBuf>,
    pub log_level: Option<String>,
}

impl CliArgs {
    /// Options were given that exclude each other: both sides of a switch, or certificate files
    /// next to a self-signed certificate.
    pub open spec fn has_conflict(self) -> bool {
        ||| self.ipv6_only && self.no_ipv6_only
        ||| self.auto_self_signed_cert && (self.no_auto_self_signed_cert || self.tls_cert is Some
            || self.tls_key is Some)
    }

    /// Whether options were given that exclude each other.
    pub fn conflicts(&self) -> (r: bool)
        ensures
            r == self.has_conflict(),
    {
        (self.ipv6_only && self.no_ipv6_only) || (self.auto_self_signed_cert && (
        self.no_auto_self_signed_cert || self.tls_cert.is_some() || self.tls_key.is_some()))
    }
}

impl Default for CliArgs {
    /// A command line without options.
    fn default() -> (r: Self)
        ensures
            r.bind is None && r.service_mode is None && r.port is None && r.tls_port is None,
            !r.ipv6_only && !r.no_ipv6_only,
            r.buffer_size is None,
            r.basic_auth@.len() == 0 && r.basic_auth_file is None && r.anonymous_target@.len() == 0,
            r.tls_cert is None && r.tls_key is None,
            !r.auto_self_signed_cert && !r.no_auto_self_signed_cert,
            r.log_file is None && r.log_level is None,
    {
        CliArgs {
            bind: None,
            service_mode: None,
            port: None,
            tls_port: None,
            ipv6_only: false,
            no_ipv6_only: false,
            buffer_size: None,
            basic_auth: Vec::new(),
            basic_auth_file: None,
            anonymous_target: Vec::new(),
            tls_cert: None,
            tls_key: None,
            auto_self_signed_cert: false,
            no_auto_self_signed_cert: false,
            log_file: None,
            log_level: None,
        }
    }
}

/// What the configuration file says.
#[derive(Debug)]
pub struct ConfigArgs {
    pub bind: Option<String>,
    pub service_mode: Option<ServiceMode>,
    pub port: Option<u16>,
    pub tls_port: Option<u16>,
    pub ipv6_only: Option<bool>,
    pub buffer_size: Option<usize>,
    pub basic_auth: Option<Vec<String>>,
    pub basic_auth_file: Option<PathBuf>,
    pub anonymous_target: Option<Vec<String>>,
    pub tls_cert: Option<PathBuf>,
    pub tls_key: Option<PathBuf>,
    pub auto_self_signed_cert: Option<bool>,
    pub log_file: Option<PathBuf>,
    pub log_level: Option<String>,
}

impl Default for ConfigArgs {
    /// No configuration file, or one without settings.
    fn default() -> (r: Self)
        ensures
            r.bind is None && r.service_mode is None && r.port is None && r.tls_port is None,
            r.ipv6_only is None && r.buffer_size is None,
            r.basic_auth is None && r.basic_auth_file is None && r.anonymous_target is None,
            r.tls_cert is None && r.tls_key is None && r.auto_self_signed_cert is None,
            r.log_file is None && r.log_level is None,
    {
        ConfigArgs {
            bind: None,
            service_mode: None,
            port: None,
            tls_port: None,
            ipv6_only: None,
            buffer_size: None,
            basic_auth: None,
            basic_auth_file: None,
            anonymous_target: None,
            tls_cert: None,
            tls_key: None,
            auto_self_signed_cert: None,
            log_file: None,
            log_level: None,
        }
    }
}

/// Why the options cannot be used.
#[derive(Debug, PartialEq, Eq)]
pub enum ArgsError {
    /// Options on the command line exclude each other.
    Conflict,
    BufferSize,
    AnonymousTarget { target: String, error: TargetError },
    TlsPair,
    AutoWithFiles,
    WssWithoutTls,
    SamePorts,
}

/// Why the options cannot be used.
pub enum ArgsErrorView {
    Conflict,
    BufferSize,
    AnonymousTarget { target: Seq<char>, error: target::TargetErrorView },
    TlsPair,
    AutoWithFiles,
    WssWithoutTls,
    SamePorts,
}

impl View for ArgsError {
    type V = ArgsErrorView;

    open spec fn view(&self) -> ArgsErrorView {
        match self {
            ArgsError::Conflict => ArgsErrorView::Conflict,
            ArgsError::BufferSize => ArgsErrorView::BufferSize,
            ArgsError::AnonymousTarget { target, error } => ArgsErrorView::AnonymousTarget {
                target: target@,
                error: error@,
            },
            ArgsError::TlsPair => ArgsErrorView::TlsPair,
            ArgsError::AutoWithFiles => ArgsErrorView::AutoWithFiles,
            ArgsError::WssWithoutTls => ArgsErrorView::WssWithoutTls,
            ArgsError::SamePorts => ArgsErrorView::SamePorts,
        }
    }
}

impl ArgsErrorView {
    /// What the error says.
    pub open spec fn text(self) -> Seq<char> {
        match self {
            ArgsErrorView::Conflict => "options that exclude each other were given"@,
            ArgsErrorView::BufferSize => "--buffer-size must be greater than 0"@,
            ArgsErrorView::AnonymousTarget { target, error } => anonymous_target_text(
                target,
                error,
            ),
            ArgsErrorView::TlsPair => "--tls-cert and --tls-key must be configured together"@,
            ArgsErrorView::AutoWithFiles =>
            "--auto-self-signed-cert cannot be used with --tls-cert or --tls-key"@,
            ArgsErrorView::WssWithoutTls =>
            "wss service mode requires --tls-cert and --tls-key, or --auto-self-signed-cert"@,
            ArgsErrorView::SamePorts =>
            "--port and --tls-port must be different when --service-mode both is used"@,
        }
    }
}

/// What is said of an anonymous target that is none.
pub open spec fn anonymous_target_text(
    target: Seq<char>,
    error: target::TargetErrorView,
) -> Seq<char> {
    "invalid anonymous target "@ + text::quoted(target) + ": "@ + error.text()
}

/// What is said of an anonymous target that is none.
pub fn anonymous_target_message(target: &str, error: &TargetError) -> (r: String)
    ensures
        r@ == anonymous_target_text(target@, error@),
{
    "invalid anonymous target ".to_owned().concat(text::quote(target).as_str()).concat(": ").concat(
        error.text().as_str(),
    )
}

impl ArgsError {
    /// What the error says.
    pub fn text(&self) -> (r: String)
        ensures
            r@ == self@.text(),
    {
        match self {
            ArgsError::Conflict => "options that exclude each other were given".to_owned(),
            ArgsError::BufferSize => "--buffer-size must be greater than 0".to_owned(),
            ArgsError::AnonymousTarget { target, error } => anonymous_target_message(
                target.as_str(),
                error,
            ),
            ArgsError::TlsPair =>
                "--tls-cert and --tls-key must be configured together".to_owned(),
            ArgsError::AutoWithFiles =>
                "--auto-self-signed-cert cannot be used with --tls-cert or --tls-key".to_owned(),
            ArgsError::WssWithoutTls =>
                "wss service mode requires --tls-cert and --tls-key, or --auto-self-signed-cert".to_owned(),
            ArgsError::SamePorts =>
                "--port and --tls-port must be different when --service-mode both is used".to_owned(),
        }
    }
}

/// The first of the targets that is none, and why.
pub open spec fn bad_target(targets: Seq<Seq<char>>) -> Option<(Seq<char>, target::TargetErrorView)>
    decreases targets.len(),
{
    if targets.len() == 0 {
        None
    } else {
        match target::target_of_addr(targets[0]) {
            Err(error) => Some((targets[0], error)),
            Ok(_) => bad_target(targets.skip(1)),
        }
    }
}

/// `a`, or `b` where `a` is not given.
pub open spec fn or<T>(a: Option<T>, b: Option<T>) -> Option<T> {
    match a {
        Some(_) => a,
        None => b,
    }
}

/// `a`, or `d` where `a` is not given.
pub open spec fn given<T>(a: Option<T>, d: T) -> T {
    match a {
        Some(v) => v,
        None => d,
    }
}

/// `a`, or `b` where `a` is not given.
fn either<T>(a: Option<T>, b: Option<T>) -> (r: Option<T>)
    ensures
        r == or(a, b),
{
    match a {
        Some(v) => Some(v),
        None => b,
    }
}

/// The list on the command line, or that of the configuration file where it is empty.
pub open spec fn list_of(cli: Vec<String>, config: Option<Vec<String>>) -> Seq<String> {
    if cli@.len() > 0 {
        cli@
    } else {
        match config {
            Some(list) => list@,
            None => Seq::empty(),
        }
    }
}

fn either_list(cli: Vec<String>, config: Option<Vec<String>>) -> (r: Vec<String>)
    ensures
        r@ == list_of(cli, config),
{
    if cli.len() == 0 {
        match config {
            Some(list) => list,
            None => Vec::new(),
        }
    } else {
        cli
    }
}

/// The TLS options: a self-signed certificate on the command line overrides the files of the
/// configuration, and files on the command line, or its refusal of a self-signed certificate,
/// override the configuration's wish for one.
pub open spec fn merged_tls(cli: CliArgs, config: ConfigArgs) -> (
    Option<PathBuf>,
    Option<PathBuf>,
    bool,
) {
    if cli.auto_self_signed_cert {
        (None, None, true)
    } else if cli.no_auto_self_signed_cert || cli.tls_cert is Some || cli.tls_key is Some {
        (or(cli.tls_cert, config.tls_cert), or(cli.tls_key, config.tls_key), false)
    } else {
        (config.tls_cert, config.tls_key, given(config.auto_self_signed_cert, false))
    }
}

impl Args {
    /// The options are what the command line says, else what the configuration file says, else
    /// the defaults.
    pub open spec fn merges(self, cli: CliArgs, config: ConfigArgs) -> bool {
        &&& self.bind@ == (match or(cli.bind, config.bind) {
            Some(bind) => bind@,
            None => DEFAULT_BIND@,
        })
        &&& self.service_mode == given(
            or(cli.service_mode, config.service_mode),
            ServiceMode::WsOnly,
        )
        &&& self.port == given(or(cli.port, config.port), DEFAULT_PORT)
        &&& self.tls_port == given(or(cli.tls_port, config.tls_port), DEFAULT_TLS_PORT)
        &&& self.ipv6_only == (cli.ipv6_only || (!cli.no_ipv6_only && given(
            config.ipv6_only,
            false,
        )))
        &&& self.buffer_size == given(or(cli.buffer_size, config.buffer_size), DEFAULT_BUFFER_SIZE)
        &&& self.basic_auth@ == list_of(cli.basic_auth, config.basic_auth)
        &&& self.basic_auth_file == or(cli.basic_auth_file, config.basic_auth_file)
        &&& self.anonymous_target@ == list_of(cli.anonymous_target, config.anonymous_target)
        &&& (self.tls_cert, self.tls_key, self.auto_self_signed_cert) == merged_tls(cli, config)
        &&& self.log_file == or(cli.log_file, config.log_file)
        &&& self.log_level == or(cli.log_level, config.log_level)
    }

    /// There is a certificate to serve.
    pub open spec fn has_tls(self) -> bool {
        self.auto_self_signed_cert || (self.tls_cert is Some && self.tls_key is Some)
    }

    /// What is wrong with the options, if anything is.
    pub open spec fn fault(self) -> Option<ArgsErrorView> {
        if self.buffer_size == 0 {
            Some(ArgsErrorView::BufferSize)
        } else if let Some((target, error)) = bad_target(text::strings(self.anonymous_target@)) {
            Some(ArgsErrorView::AnonymousTarget { target, error })
        } else if (self.tls_cert is Some) != (self.tls_key is Some) {
            Some(ArgsErrorView::TlsPair)
        } else if self.auto_self_signed_cert && self.tls_cert is Some {
            Some(ArgsErrorView::AutoWithFiles)
        } else if self.service_mode != ServiceMode::WsOnly && !self.has_tls() {
            Some(ArgsErrorView::WssWithoutTls)
        } else if self.service_mode == ServiceMode::Both && self.port == self.tls_port {
            Some(ArgsErrorView::SamePorts)
        } else {
            None
        }
    }

    /// The options that follow from the command line and from the configuration file; `config`
    /// is empty where there is none.
    pub fn from_cli(cli: CliArgs, config: ConfigArgs) -> (r: Result<Args, ArgsError>)
        ensures
            match r {
                Ok(args) => args.merges(cli, config) && args.fault() is None,
                Err(e) => exists|args: Args| #[trigger]
                    args.merges(cli, config) && args.fault() == Some(e@),
            },
    {
        let cli_file_tls = cli.tls_cert.is_some() || cli.tls_key.is_some();
        let (tls_cert, tls_key, auto_self_signed_cert) = if cli.auto_self_signed_cert {
            (None, None, true)
        } else if cli.no_auto_self_signed_cert || cli_file_tls {
            (
                either(cli.tls_cert, config.tls_cert),
                either(cli.tls_key, config.tls_key),
                false,
            )
        } else {
            (
                config.tls_cert,
                config.tls_key,
                match config.auto_self_signed_cert {
                    Some(auto) => auto,
                    None => false,
                },
            )
        };
        let args = Args {
            bind: match either(cli.bind, config.bind) {
                Some(bind) => bind,
                None => DEFAULT_BIND.to_owned(),
            },
            service_mode: match either(cli.service_mode, config.service_mode) {
                Some(mode) => mode,
                None => ServiceMode::default(),
            },
            port: match either(cli.port, config.port) {
                Some(port) => port,
                None => DEFAULT_PORT,
            },
            tls_port: match either(cli.tls_port, config.tls_port) {
                Some(port) => port,
                None => DEFAULT_TLS_PORT,
            },
            ipv6_only: if cli.ipv6_only {
                true
            } else if cli.no_ipv6_only {
                false
            } else {
                match config.ipv6_only {
                    Some(only) => only,
                    None => false,
                }
            },
            buffer_size: match either(cli.buffer_size, config.buffer_size) {
                Some(size) => size,
                None => DEFAULT_BUFFER_SIZE,
            },
            basic_auth: either_list(cli.basic_auth, config.basic_auth),
            basic_auth_file: either(cli.basic_auth_file, config.basic_auth_file),
            anonymous_target: either_list(cli.anonymous_target, config.anonymous_target),
            tls_cert,
            tls_key,
            auto_self_signed_cert,
            log_file: either(cli.log_file, config.log_file),
            log_level: either(cli.log_level, config.log_level),
        };
        assert(args.merges(cli, config));
        match args.validate() {
            Ok(_) => Ok(args),
            Err(e) => Err(e),
        }
    }

    /// The options that follow from the command line, where its options do not exclude each
    /// other, and from the configuration file.
    pub fn try_parse_from(cli: CliArgs, config: ConfigArgs) -> (r: Result<Args, ArgsError>)
        ensures
            match r {
                Ok(args) => !cli.has_conflict() && args.merges(cli, config) && args.fault() is None,
                Err(e) => if cli.has_conflict() {
                    e == ArgsError::Conflict
                } else {
                    exists|args: Args| #[trigger]
                        args.merges(cli, config) && args.fault() == Some(e@)
                },
            },
    {
        if cli.conflicts() {
            return Err(ArgsError::Conflict);
        }
        Args::from_cli(cli, config)
    }

    /// Checks that the options can be used together.
    pub fn validate(&self) -> (r: Result<(), ArgsError>)
        ensures
            match r {
                Ok(_) => self.fault() is None,
                Err(e) => self.fault() == Some(e@),
            },
    {
        if self.buffer_size == 0 {
            return Err(ArgsError::BufferSize);
        }
        let ghost all = text::strings(self.anonymous_target@);
        let mut i: usize = 0;
        assert(all.skip(0) =~= all);
        while i < self.anonymous_target.len()
            invariant
                i <= self.anonymous_target@.len(),
                self.buffer_size != 0,
                all == text::strings(self.anonymous_target@),
                bad_target(all) == bad_target(all.skip(i as int)),
            decreases self.anonymous_target.len() - i,
        {
            proof {
                assert(all.skip(i as int)[0] == self.anonymous_target@[i as int]@);
                assert(all.skip(i as int).skip(1) =~= all.skip(i + 1));
            }
            match target::parse_target_addr(self.anonymous_target[i].as_str()) {
                Ok(_) => {},
                Err(error) => {
                    return Err(
                        ArgsError::AnonymousTarget {
                            target: self.anonymous_target[i].clone(),
                            error,
                        },
                    );
                },
            }
            i += 1;
        }
        if self.tls_cert.is_some() != self.tls_key.is_some() {
            return Err(ArgsError::TlsPair);
        }
        if self.auto_self_signed_cert && self.tls_cert.is_some() {
            return Err(ArgsError::AutoWithFiles);
        }
        if self.service_mode.includes_wss() && !self.has_tls_config() {
            return Err(ArgsError::WssWithoutTls);
        }
        if self.service_mode == ServiceMode::Both && self.port == self.tls_port {
            return Err(ArgsError::SamePorts);
        }
        Ok(())
    }

    /// Whether there is a certificate to serve.
    pub fn has_tls_config(&self) -> (r: bool)
        ensures
            r == self.has_tls(),
    {
        self.auto_self_signed_cert || (self.tls_cert.is_some() && self.tls_key.is_some())
    }
}

/// Command-line options take precedence: what is on the command line decides, whatever the
/// configuration file says.
pub proof fn law_the_command_line_takes_precedence(
    cli: CliArgs,
    one: ConfigArgs,
    other: ConfigArgs,
    a: Args,
    b: Args,
)
    requires
        a.merges(cli, one),
        b.merges(cli, other),
    ensures
        cli.bind is Some ==> a.bind@ == b.bind@ && a.bind@ == cli.bind->0@,
        cli.service_mode is Some ==> a.service_mode == b.service_mode,
        cli.port is Some ==> a.port == b.port && Some(a.port) == cli.port,
        cli.tls_port is Some ==> a.tls_port == b.tls_port && Some(a.tls_port) == cli.tls_port,
        cli.ipv6_only || cli.no_ipv6_only ==> a.ipv6_only == b.ipv6_only && a.ipv6_only
            == cli.ipv6_only,
        cli.buffer_size is Some ==> a.buffer_size == b.buffer_size,
        cli.basic_auth@.len() > 0 ==> a.basic_auth@ == b.basic_auth@,
        cli.basic_auth_file is Some ==> a.basic_auth_file == b.basic_auth_file,
        cli.anonymous_target@.len() > 0 ==> a.anonymous_target@ == b.anonymous_target@,
        cli.tls_cert is Some && !cli.auto_self_signed_cert ==> a.tls_cert == cli.tls_cert,
        cli.tls_key is Some && !cli.auto_self_signed_cert ==> a.tls_key == cli.tls_key,
        cli.auto_self_signed_cert ==> a.auto_self_signed_cert && a.tls_cert is None && a.tls_key
            is None,
        !cli.auto_self_signed_cert && (cli.no_auto_self_signed_cert || cli.tls_cert is Some
            || cli.tls_key is Some) ==> !a.auto_self_signed_cert,
        cli.log_file is Some ==> a.log_file == b.log_file,
        cli.log_level is Some ==> a.log_level == b.log_level,
{
}

/// The command line and the configuration file decide whether the options can be used, and what
/// is wrong with them.
pub proof fn law_the_outcome_is_decided(cli: CliArgs, config: ConfigArgs, a: Args, b: Args)
    requires
        a.merges(cli, config),
        b.merges(cli, config),
    ensures
        a.fault() == b.fault(),
{
}

/// Every setting is optional: without a command line and without a configuration the options are
/// the defaults, and they can be used.
pub proof fn law_missing_settings_use_the_defaults(cli: CliArgs, config: ConfigArgs, args: Args)
    requires
        args.merges(cli, config),
        cli.bind is None && config.bind is None,
        cli.service_mode is None && config.service_mode is None,
        cli.port is None && config.port is None,
        cli.tls_port is None && config.tls_port is None,
        !cli.ipv6_only && config.ipv6_only is None,
        cli.buffer_size is None && config.buffer_size is None,
        cli.basic_auth@.len() == 0 && config.basic_auth is None,
        cli.anonymous_target@.len() == 0 && config.anonymous_target is None,
        cli.tls_cert is None && cli.tls_key is None && !cli.auto_self_signed_cert,
        config.tls_cert is None && config.tls_key is None && config.auto_self_signed_cert is None,
    ensures
        args.bind@ == "::"@,
        args.service_mode == ServiceMode::WsOnly,
        args.port == 80,
        args.tls_port == 443,
        !args.ipv6_only,
        args.buffer_size == 16384,
        args.basic_auth@.len() == 0,
        args.anonymous_target@.len() == 0,
        args.tls_cert is None && args.tls_key is None && !args.auto_self_signed_cert,
        args.fault() is None,
{
}

/// Options that were accepted are consistent.
pub proof fn law_accepted_options_are_consistent(args: Args)
    requires
        args.fault() is None,
    ensures
        args.buffer_size > 0,
        args.tls_cert is Some <==> args.tls_key is Some,
        !(args.auto_self_signed_cert && args.tls_cert is Some),
        args.service_mode != ServiceMode::WsOnly ==> args.has_tls(),
        args.service_mode == ServiceMode::Both ==> args.port != args.tls_port,
        forall|i: int|
            0 <= i < args.anonymous_target@.len() ==> target::target_of_addr(
                (#[trigger] args.anonymous_target@[i])@,
            ) is Ok,
{
    let all = text::strings(args.anonymous_target@);
    assert forall|i: int| 0 <= i < args.anonymous_target@.len() implies target::target_of_addr(
        (#[trigger] args.anonymous_target@[i])@,
    ) is Ok by {
        lemma_no_bad_target(all, i);
        assert(all[i] == args.anonymous_target@[i]@);
    }
}

/// Where no target is bad, each is good.
pub proof fn lemma_no_bad_target(targets: Seq<Seq<char>>, i: int)
    requires
        bad_target(targets) is None,
        0 <= i < targets.len(),
    ensures
        target::target_of_addr(targets[i]) is Ok,
    decreases targets.len(),
{
    if i > 0 {
        lemma_no_bad_target(targets.skip(1), i - 1);
    }
}

} // verus!
