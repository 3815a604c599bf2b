//! Upstream targets: a host and a port, as they stand in request paths and in the configuration.
use crate::text;
use vstd::prelude::*;
use vstd::slice::slice_subrange;

verus! {

/// What a request path starts with, before the target.
pub const TCP_PREFIX: &'static str = "/tcp:";

/// An upstream. An IPv6 host stands in brackets.
#[derive(Debug, Clone, PartialEq, Eq)]
pub struct Target {
    pub host: String,
    pub port: u16,
}

/// What a target holds.
#[verifier::ext_equal]
pub struct TargetView {
    pub host: Seq<char>,
    pub port: nat,
}

impl View for Target {
    type V = TargetView;

    open spec fn view(&self) -> TargetView {
        TargetView { host: self.host@, port: self.port as nat }
    }
}

/// Why a text is not a target.
#[derive(Debug, PartialEq, Eq)]
pub enum TargetError {
    /// The path does not start with `/tcp:`.
    NotTcp,
    /// A bracketed host is not followed by `]:`.
    BracketForm,
    /// There is no colon.
    Form,
    /// An IPv6 host stands without brackets.
    Unbracketed,
    /// The host is empty.
    EmptyHost,
    /// The port is not a number from 0 to 65535.
    Port { port: String },
}

/// Why a text is not a target.
pub enum TargetErrorView {
    NotTcp,
    BracketForm,
    Form,
    Unbracketed,
    EmptyHost,
    Port { port: Seq<char> },
}

impl View for TargetError {
    type V = TargetErrorView;

    open spec fn view(&self) -> TargetErrorView {
        match self {
            TargetError::NotTcp => TargetErrorView::NotTcp,
            TargetError::BracketForm => TargetErrorView::BracketForm,
            TargetError::Form => TargetErrorView::Form,
            TargetError::Unbracketed => TargetErrorView::Unbracketed,
            TargetError::EmptyHost => TargetErrorView::EmptyHost,
            TargetError::Port { port } => TargetErrorView::Port { port: port@ },
        }
    }
}

impl TargetErrorView {
    /// What the error says.
    pub open spec fn text(self) -> Seq<char> {
        match self {
            TargetErrorView::NotTcp => "path must start with /tcp:"@,
            TargetErrorView::BracketForm => "IPv6 target must be formatted as [host]:port"@,
            TargetErrorView::Form => "target must be formatted as host:port"@,
            TargetErrorView::Unbracketed => "IPv6 target must be enclosed in brackets"@,
            TargetErrorView::EmptyHost => "target host is empty"@,
            TargetErrorView::Port { port } => "invalid target port "@ + text::quoted(port),
        }
    }
}

impl TargetError {
    /// What the error says.
    pub fn text(&self) -> (r: String)
        ensures
            r@ == self@.text(),
    {
        match self {
            TargetError::NotTcp => "path must start with /tcp:".to_owned(),
            TargetError::BracketForm => "IPv6 target must be formatted as [host]:port".to_owned(),
            TargetError::Form => "target must be formatted as host:port".to_owned(),
            TargetError::Unbracketed => "IPv6 target must be enclosed in brackets".to_owned(),
            TargetError::EmptyHost => "target host is empty".to_owned(),
            TargetError::Port { port } => "invalid target port ".to_owned().concat(
                text::quote(port.as_str()).as_str(),
            ),
        }
    }
}

/// A parsed target, by its contents.
pub open spec fn parsed(r: Result<Target, TargetError>) -> Result<TargetView, TargetErrorView> {
    match r {
        Ok(target) => Ok(target@),
        Err(e) => Err(e@),
    }
}

/// A target with the given host and port text.
pub open spec fn with_port(host: Seq<char>, port: Seq<char>) -> Result<
    TargetView,
    TargetErrorView,
> {
    match text::parse_unsigned(port, 65535) {
        Some(n) => Ok(TargetView { host, port: n }),
        None => Err(TargetErrorView::Port { port }),
    }
}

/// The target that `s` stands for: `host:port`, or `[host]:port` for IPv6.
pub open spec fn target_of_addr(s: Seq<char>) -> Result<TargetView, TargetErrorView> {
    if s.len() > 0 && s[0] == '[' {
        let rest = s.skip(1);
        let i = text::first_pair(rest, ']', ':');
        if i >= rest.len() {
            Err(TargetErrorView::BracketForm)
        } else if i == 0 {
            Err(TargetErrorView::EmptyHost)
        } else {
            with_port(seq!['['] + rest.take(i) + seq![']'], rest.skip(i + 2))
        }
    } else {
        match text::rsplit_once(s, ':') {
            None => Err(TargetErrorView::Form),
            Some((host, port)) => if host.contains(':') {
                Err(TargetErrorView::Unbracketed)
            } else if host.len() == 0 {
                Err(TargetErrorView::EmptyHost)
            } else {
                with_port(host, port)
            },
        }
    }
}

/// The target that a request path stands for.
pub open spec fn target_of_path(path: Seq<char>) -> Result<TargetView, TargetErrorView> {
    match text::strip_prefix(path, TCP_PREFIX@) {
        Some(addr) => target_of_addr(addr),
        None => Err(TargetErrorView::NotTcp),
    }
}

impl TargetView {
    /// `host:port`.
    pub open spec fn addr(self) -> Seq<char> {
        self.host + seq![':'] + text::decimal(self.port)
    }
}

impl Target {
    /// The target as `host:port`.
    pub fn addr(&self) -> (r: String)
        ensures
            r@ == self@.addr(),
    {
        let mut out = self.host.clone();
        out.push(':');
        out.append(text::decimal_string(self.port as u64).as_str());
        assert(out@ =~= self@.addr());
        out
    }
}

/// A target with the given host and port text.
fn finish(host: String, port: &[char]) -> (r: Result<Target, TargetError>)
    ensures
        parsed(r) == with_port(host@, port@),
{
    match text::read_unsigned(port, 65535) {
        Some(n) => Ok(Target { host, port: n as u16 }),
        None => Err(TargetError::Port { port: text::string_of(port) }),
    }
}

/// Parses `host:port`, or `[host]:port` for IPv6.
pub fn parse_target_addr(target: &str) -> (r: Result<Target, TargetError>)
    ensures
        parsed(r) == target_of_addr(target@),
{
    let chars = text::chars_of(target);
    parse_chars(&chars)
}

fn parse_chars(chars: &[char]) -> (r: Result<Target, TargetError>)
    ensures
        parsed(r) == target_of_addr(chars@),
{
    if chars.len() > 0 && chars[0] == '[' {
        let rest = slice_subrange(chars, 1, chars.len());
        assert(rest@ =~= chars@.skip(1));
        let i: usize = text::find_pair(rest, ']', ':');
        proof {
            text::lemma_first_pair(rest@, ']', ':');
        }
        if i >= rest.len() {
            return Err(TargetError::BracketForm);
        }
        if i == 0 {
            return Err(TargetError::EmptyHost);
        }
        let inner = text::string_of(slice_subrange(rest, 0, i));
        let mut host = String::new();
        host.push('[');
        host.append(inner.as_str());
        host.push(']');
        let port = slice_subrange(rest, i + 2, rest.len());
        proof {
            assert(rest@.subrange(0, i as int) =~= rest@.take(i as int));
            assert(host@ =~= seq!['['] + rest@.take(i as int) + seq![']']);
            assert(port@ =~= rest@.skip(i as int + 2));
        }
        finish(host, port)
    } else {
        let i: usize = match text::rfind(chars, ':') {
            Some(i) => i,
            None => return Err(TargetError::Form),
        };
        let host = slice_subrange(chars, 0, i);
        let port = slice_subrange(chars, i + 1, chars.len());
        proof {
            text::lemma_last(chars@, ':');
            assert(host@ =~= chars@.take(i as int));
            assert(port@ =~= chars@.skip(i as int + 1));
            text::lemma_first(host@, ':');
        }
        let colon: usize = text::find(host, ':');
        if colon < host.len() {
            assert(host@[colon as int] == ':');
            return Err(TargetError::Unbracketed);
        }
        assert(!host@.contains(':'));
        if host.len() == 0 {
            return Err(TargetError::EmptyHost);
        }
        finish(text::string_of(host), port)
    }
}

/// Parses the target in a request path, `/tcp:host:port`.
pub fn parse_target(path: &str) -> (r: Result<Target, TargetError>)
    ensures
        parsed(r) == target_of_path(path@),
{
    let chars = text::chars_of(path);
    match text::after_prefix(&chars, TCP_PREFIX) {
        Some(addr) => parse_chars(addr),
        None => Err(TargetError::NotTcp),
    }
}

/// A target is written as it is read: the address of a parsed target stands for that target.
pub proof fn law_a_parsed_target_is_read_back(s: Seq<char>)
    requires
        target_of_addr(s) is Ok,
    ensures
        target_of_addr(target_of_addr(s)->Ok_0.addr()) == target_of_addr(s),
{
    let t = target_of_addr(s)->Ok_0;
    let port = text::decimal(t.port);
    text::lemma_decimal_round_trip(t.port);
    assert(text::is_digit(port[0]));
    assert(text::parse_unsigned(port, 65535) == Some(t.port));
    let addr = t.addr();
    if s.len() > 0 && s[0] == '[' {
        let rest = s.skip(1);
        let i = text::first_pair(rest, ']', ':');
        text::lemma_first_pair(rest, ']', ':');
        let inner = rest.take(i);
        let after = addr.skip(1);
        assert(after =~= inner + seq![']', ':'] + port);
        assert forall|j: int| 0 <= j < i && j + 1 < after.len() implies !((#[trigger] after[j])
            == ']' && after[j + 1] == ':') by {
            assert(after[j] == rest[j]);
            if j + 1 < i {
                assert(after[j + 1] == rest[j + 1]);
            }
        }
        text::lemma_first_pair_unique(after, ']', ':', i);
        assert(after.take(i) =~= inner);
        assert(after.skip(i + 2) =~= port);
    } else {
        text::lemma_last(s, ':');
        let i = t.host.len() as int;
        assert(addr[0] == t.host[0]);
        assert(t.host[0] == s[0]);
        assert forall|j: int| i < j < addr.len() implies addr[j] != ':' by {
            assert(addr[j] == port[j - i - 1]);
            assert(text::is_digit(port[j - i - 1]));
        }
        text::lemma_last_unique(addr, ':', i);
        assert(addr.take(i) =~= t.host);
        assert(addr.skip(i + 1) =~= port);
    }
}

/// A path and an address name the same target: `/tcp:` before the address of a target is a path
/// to it.
pub proof fn law_a_path_names_the_target_of_its_address(addr: Seq<char>)
    ensures
        target_of_path(TCP_PREFIX@ + addr) == target_of_addr(addr),
{
    let path = TCP_PREFIX@ + addr;
    assert(path.take(TCP_PREFIX@.len() as int) =~= TCP_PREFIX@);
    assert(path.skip(TCP_PREFIX@.len() as int) =~= addr);
}

} // verus!
