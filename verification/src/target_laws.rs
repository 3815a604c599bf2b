//! What holds of the targets that addresses and paths name.
use crate::proxy;
use crate::proxy::{Protocol, RouteView};
use crate::target;
use crate::target::{TargetErrorView, TargetView};
use crate::text;
use crate::text_laws;
use vstd::prelude::*;

verus! {

/// What a host and the text of a port name: a target where the text is a number up to 65535.
pub open spec fn named(host: Seq<char>, port: Seq<char>) -> Result<TargetView, TargetErrorView> {
    match text::parse_unsigned(port, 65535) {
        Some(n) => Ok(TargetView { host, port: n }),
        None => Err(TargetErrorView::Port { port }),
    }
}

/// A host name or an IPv4 address is followed by a colon and the port, which is a number up to
/// 65535. A second colon, an empty host and the lack of a colon are refused.
pub proof fn law_what_an_address_names(host: Seq<char>, port: Seq<char>, n: nat)
    requires
        host.len() > 0 ==> host[0] != '[',
        !port.contains(':'),
        !(port.len() > 0 && port[0] == '['),
    ensures
        ({
            let r = target::target_of_addr(host + seq![':'] + port);
            &&& host.len() == 0 ==> r == Err::<TargetView, TargetErrorView>(
                TargetErrorView::EmptyHost,
            )
            &&& host.contains(':') ==> r == Err::<TargetView, TargetErrorView>(
                TargetErrorView::Unbracketed,
            )
            &&& host.len() > 0 && !host.contains(':') ==> r == named(host, port)
        }),
        target::target_of_addr(port) == Err::<TargetView, TargetErrorView>(TargetErrorView::Form),
        host.len() > 0 && !host.contains(':') ==> target::target_of_addr(
            host + seq![':'] + text::decimal(n),
        ) == (if n <= 65535 {
            Ok(TargetView { host, port: n })
        } else {
            Err(TargetErrorView::Port { port: text::decimal(n) })
        }),
{
    text_laws::law_cutting_at_the_last(host + seq![':'] + port, ':', host, port);
    text_laws::law_cutting_at_the_last(port, ':', host, port);
    let p = text::decimal(n);
    text_laws::law_decimal_numbers(n, Seq::empty(), '0');
    assert(!p.contains(':'));
    text_laws::law_cutting_at_the_last(host + seq![':'] + p, ':', host, p);
    text_laws::law_reading_numbers(p, n, 65535);
    if host.len() > 0 {
        assert((host + seq![':'] + port)[0] == host[0]);
        assert((host + seq![':'] + p)[0] == host[0]);
    }
}

/// An IPv6 address stands in brackets, which stay with the host; what is in the brackets must not
/// be empty, and a colon and the port must follow.
pub proof fn law_what_a_bracketed_address_names(inner: Seq<char>, port: Seq<char>, s: Seq<char>)
    requires
        !inner.contains(']'),
    ensures
        ({
            let r = target::target_of_addr(seq!['['] + inner + seq![']', ':'] + port);
            &&& inner.len() == 0 ==> r == Err::<TargetView, TargetErrorView>(
                TargetErrorView::EmptyHost,
            )
            &&& inner.len() > 0 ==> r == named(seq!['['] + inner + seq![']'], port)
        }),
        (forall|j: int| 0 <= j && j + 1 < s.len() ==> !((#[trigger] s[j]) == ']' && s[j + 1] == ':'))
            ==> target::target_of_addr(seq!['['] + s) == Err::<TargetView, TargetErrorView>(
            TargetErrorView::BracketForm,
        ),
{
    let t = seq!['['] + inner + seq![']', ':'] + port;
    let rest = t.skip(1);
    let n = inner.len() as int;
    assert forall|j: int| 0 <= j < n && j + 1 < rest.len() implies !((#[trigger] rest[j]) == ']'
        && rest[j + 1] == ':') by {
        assert(rest[j] == inner[j]);
    }
    text::lemma_first_pair_unique(rest, ']', ':', n);
    assert(rest.take(n) =~= inner);
    assert(rest.skip(n + 2) =~= port);
    if forall|j: int|
        0 <= j && j + 1 < s.len() ==> !((#[trigger] s[j]) == ']' && s[j + 1] == ':') {
        text::lemma_first_pair_unique(s, ']', ':', s.len() as int);
        assert((seq!['['] + s).skip(1) =~= s);
    }
}

/// A target is written as its host, a colon and its port.
pub proof fn law_how_targets_are_written(target: TargetView)
    ensures
        target.addr() == target.host + seq![':'] + text::decimal(target.port),
{
}

/// The path `/` is the health check; `/tcp:` and `/udp:` before an address name an upstream of
/// that protocol; no other path names anything.
pub proof fn law_which_paths_are_routes(path: Seq<char>, addr: Seq<char>)
    ensures
        proxy::route_of(seq!['/']) == Ok::<RouteView, TargetErrorView>(RouteView::HealthCheck),
        proxy::route_of("/tcp:"@ + addr) == (match target::target_of_addr(addr) {
            Ok(target) => Ok(RouteView::Proxy { protocol: Protocol::Tcp, target }),
            Err(e) => Err(e),
        }),
        proxy::route_of("/udp:"@ + addr) == (match target::target_of_addr(addr) {
            Ok(target) => Ok(RouteView::Proxy { protocol: Protocol::Udp, target }),
            Err(e) => Err(e),
        }),
        target::target_of_path("/tcp:"@ + addr) == target::target_of_addr(addr),
        path != seq!['/'] && (forall|a: Seq<char>| path != #[trigger] ("/tcp:"@ + a)) && (forall|
            a: Seq<char>,
        |
            path != #[trigger] ("/udp:"@ + a)) ==> proxy::route_of(path) is Err,
        (forall|a: Seq<char>| path != #[trigger] ("/tcp:"@ + a)) ==> target::target_of_path(path)
            == Err::<TargetView, TargetErrorView>(TargetErrorView::NotTcp),
{
    reveal_strlit("/");
    reveal_strlit("/tcp:");
    reveal_strlit("/udp:");
    assert("/"@ =~= seq!['/']);
    let tcp = "/tcp:"@ + addr;
    let udp = "/udp:"@ + addr;
    assert(tcp.len() >= 5 && udp.len() >= 5);
    assert(tcp[1] == 't' && udp[1] == 'u');
    text_laws::law_a_prefix_is_taken_off(tcp, "/tcp:"@, addr);
    text_laws::law_a_prefix_is_taken_off(udp, "/udp:"@, addr);
    match text::strip_prefix(tcp, "/udp:"@) {
        Some(rest) => {
            text_laws::law_a_prefix_is_taken_off(tcp, "/udp:"@, rest);
            assert(("/udp:"@ + rest)[1] == 'u');
        },
        None => {},
    }
    match text::strip_prefix(path, "/tcp:"@) {
        Some(rest) => {
            text_laws::law_a_prefix_is_taken_off(path, "/tcp:"@, rest);
            assert(path == "/tcp:"@ + rest);
        },
        None => {},
    }
    match text::strip_prefix(path, "/udp:"@) {
        Some(rest) => {
            text_laws::law_a_prefix_is_taken_off(path, "/udp:"@, rest);
            assert(path == "/udp:"@ + rest);
        },
        None => {},
    }
}

/// The errors say what is wrong.
pub proof fn law_what_target_errors_say(port: Seq<char>)
    ensures
        TargetErrorView::NotTcp.text() == "path must start with /tcp:"@,
        TargetErrorView::BracketForm.text() == "IPv6 target must be formatted as [host]:port"@,
        TargetErrorView::Form.text() == "target must be formatted as host:port"@,
        TargetErrorView::Unbracketed.text() == "IPv6 target must be enclosed in brackets"@,
        TargetErrorView::EmptyHost.text() == "target host is empty"@,
        (TargetErrorView::Port { port }).text() == "invalid target port "@ + text::quoted(port),
{
}

} // verus!
