//! What the written forms of addresses stand for.
use crate::ip;
use crate::ip::{IpAddr, SocketAddr};
use crate::ip_laws;
use crate::text;
use crate::text_laws;
use vstd::prelude::*;

verus! {

// ---------------------------------------------------------------------------------------------
// IPv4
// ---------------------------------------------------------------------------------------------

/// Four numbers below 256 with dots between them are an IPv4 address, the first one its most
/// significant part; and so it is written.
#[verifier::spinoff_prover]
pub proof fn law_dotted_numbers_are_an_ipv4_address(a: nat, b: nat, c: nat, d: nat)
    requires
        a < 256,
        b < 256,
        c < 256,
        d < 256,
    ensures
        ({
            let v = (a * 16777216 + b * 65536 + c * 256 + d) as u32;
            let written = text::decimal(a) + seq!['.'] + text::decimal(b) + seq!['.']
                + text::decimal(c) + seq!['.'] + text::decimal(d);
            &&& ip::ip_of(written) == Some(IpAddr::V4(v))
            &&& IpAddr::V4(v).spec_text() == written
        }),
{
    lemma_four_parts(a, b, c, d);
    ip_laws::law_ipv4_is_read_back(a * 16777216 + b * 65536 + c * 256 + d);
}

proof fn lemma_four_parts(a: nat, b: nat, c: nat, d: nat)
    requires
        a < 256,
        b < 256,
        c < 256,
        d < 256,
    ensures
        ({
            let v = a * 16777216 + b * 65536 + c * 256 + d;
            &&& v < 0x1_0000_0000
            &&& v / 16777216 == a
            &&& v / 65536 % 256 == b
            &&& v / 256 % 256 == c
            &&& v % 256 == d
        }),
{
    let v = a * 16777216 + b * 65536 + c * 256 + d;
    assert(v / 65536 == a * 256 + b);
    assert(v / 256 == (a * 256 + b) * 256 + c);
}

/// A part of an IPv4 address is a number below 256 that is written without a sign and without
/// zeros before it, and there are four of them.
pub proof fn law_what_is_no_ipv4_address(s: Seq<char>, part: Seq<char>, n: nat, i: int)
    ensures
        text::split(s, '.').len() != 4 ==> ip::ipv4_of(s) is None,
        0 <= i < text::split(s, '.').len() && ip::octet_of(text::split(s, '.')[i]) is None
            ==> ip::ipv4_of(s) is None,
        n < 256 ==> ip::octet_of(text::decimal(n)) == Some(n),
        n >= 256 ==> ip::octet_of(text::decimal(n)) is None,
        part.len() > 0 ==> ip::octet_of(seq!['0'] + part) is None,
        0 <= i < part.len() && !('0' <= part[i] <= '9') ==> ip::octet_of(part) is None,
        ip::octet_of(Seq::empty()) is None,
{
    text::lemma_decimal_round_trip(n);
    if n < 256 {
        ip_laws::lemma_octet(n);
    }
    assert((seq!['0'] + part)[0] == '0');
    if 0 <= i < part.len() && !('0' <= part[i] <= '9') {
        assert(!text::is_digit(part[i]));
    }
    let parts = text::split(s, '.');
    if parts.len() == 4 && 0 <= i < 4 && ip::octet_of(parts[i]) is None {
        assert(i == 0 || i == 1 || i == 2 || i == 3);
    }
}

// ---------------------------------------------------------------------------------------------
// IPv6
// ---------------------------------------------------------------------------------------------

/// Hexadecimal digits are read in either case and written in lower case; a number is written with
/// the most significant digit first, and without zeros before it.
pub proof fn law_hexadecimal_numbers(c: char, digits: Seq<char>, n: nat)
    ensures
        '0' <= c <= '9' ==> ip::hex_digit(c) == Some((c as int - '0' as int) as nat),
        'a' <= c <= 'f' ==> ip::hex_digit(c) == Some((c as int - 'a' as int + 10) as nat),
        'A' <= c <= 'F' ==> ip::hex_digit(c) == Some((c as int - 'A' as int + 10) as nat),
        !('0' <= c <= '9') && !('a' <= c <= 'f') && !('A' <= c <= 'F') ==> ip::hex_digit(c) is None,
        ip::hex_value(Seq::empty()) == 0,
        ip::hex_digit(c) is Some ==> ip::hex_value(digits.push(c)) == 16 * ip::hex_value(digits)
            + ip::hex_digit(c)->0,
        ip::hex_value(ip::hex_text(n)) == n,
        n > 0 ==> ip::hex_text(n)[0] != '0',
        ip::hex_text(0) == seq!['0'],
        forall|i: int|
            0 <= i < ip::hex_text(n).len() ==> {
                let d = #[trigger] ip::hex_text(n)[i];
                '0' <= d <= '9' || 'a' <= d <= 'f'
            },
{
    assert(digits.push(c).drop_last() =~= digits);
    ip_laws::lemma_hex_text(n);
    lemma_hex_form(n);
}

proof fn lemma_hex_form(n: nat)
    ensures
        ip::hex_text(n).len() > 0,
        n > 0 ==> ip::hex_text(n)[0] != '0',
        forall|i: int|
            0 <= i < ip::hex_text(n).len() ==> {
                let d = #[trigger] ip::hex_text(n)[i];
                '0' <= d <= '9' || 'a' <= d <= 'f'
            },
    decreases n,
{
    if n >= 16 {
        lemma_hex_form(n / 16);
        let s = ip::hex_text(n);
        let t = ip::hex_text(n / 16);
        assert(s[0] == t[0]);
        assert forall|i: int| 0 <= i < s.len() implies {
            let d = #[trigger] s[i];
            '0' <= d <= '9' || 'a' <= d <= 'f'
        } by {
            if i < t.len() {
                assert(s[i] == t[i]);
            }
        }
    }
}

/// Groups in hexadecimal with colons between them.
pub open spec fn colon_separated(groups: Seq<nat>) -> Seq<char> {
    text_laws::joined(groups.map_values(|g: nat| ip::hex_text(g)), ':')
}

/// Groups are written one after another, with colons between them.
proof fn lemma_colon_separated(groups: Seq<nat>)
    ensures
        ip::groups_text(groups) == colon_separated(groups),
    decreases groups.len(),
{
    let f = |g: nat| ip::hex_text(g);
    if groups.len() > 1 {
        let init = groups.drop_last();
        lemma_colon_separated(init);
        let parts = groups.map_values(f);
        assert(init.map_values(f) =~= parts.drop_last());
        lemma_joined_back(parts.drop_last(), parts.last(), ':');
        assert(parts =~= parts.drop_last().push(parts.last()));
    }
}

proof fn lemma_joined_back(parts: Seq<Seq<char>>, part: Seq<char>, c: char)
    requires
        parts.len() > 0,
    ensures
        text_laws::joined(parts.push(part), c) == text_laws::joined(parts, c) + seq![c] + part,
    decreases parts.len(),
{
    let all = parts.push(part);
    if parts.len() == 1 {
        assert(all.skip(1) =~= seq![part]);
        assert(text_laws::joined(all.skip(1), c) == part);
        assert(all[0] == parts[0]);
    } else {
        lemma_joined_back(parts.skip(1), part, c);
        assert(all.skip(1) =~= parts.skip(1).push(part));
        assert(text_laws::joined(all, c) =~= text_laws::joined(parts, c) + seq![c] + part);
    }
}

/// Eight groups with colons between them are an IPv6 address, the first group its most significant
/// part; more or fewer are none.
pub proof fn law_eight_groups_are_an_ipv6_address(groups: Seq<nat>, group: nat)
    requires
        groups.len() > 0,
        forall|i: int| 0 <= i < groups.len() ==> (#[trigger] groups[i]) < 65536,
    ensures
        groups.len() == 8 ==> ip::ip_of(colon_separated(groups)) == Some(
            IpAddr::V6(ip::groups_value(groups) as u128),
        ),
        groups.len() != 8 ==> ip::ip_of(colon_separated(groups)) is None,
        ip::groups_value(groups.push(group)) == 65536 * ip::groups_value(groups) + group,
        ip::groups_value(Seq::empty()) == 0,
{
    lemma_colon_separated(groups);
    let s = ip::groups_text(groups);
    ip_laws::lemma_groups_text(groups);
    ip_laws::lemma_side(groups);
    text::lemma_first_pair(s, ':', ':');
    let i = text::first_pair(s, ':', ':');
    if i < s.len() {
        assert(s[i] == ':' && s[i + 1] == ':');
    }
    ip_laws::lemma_split_whole(s, '.');
    assert(groups.push(group).drop_last() =~= groups);
}

/// A double colon stands for as many groups of zeros as are missing, of which there is at least
/// one.
pub proof fn law_a_double_colon_stands_for_zeros(front: Seq<nat>, back: Seq<nat>)
    requires
        forall|i: int| 0 <= i < front.len() ==> (#[trigger] front[i]) < 65536,
        forall|i: int| 0 <= i < back.len() ==> (#[trigger] back[i]) < 65536,
    ensures
        front.len() + back.len() < 8 ==> ip::ip_of(
            colon_separated(front) + seq![':', ':'] + colon_separated(back),
        ) == Some(
            IpAddr::V6(
                ip::groups_value(
                    front + Seq::new((8 - front.len() - back.len()) as nat, |i: int| 0nat) + back,
                ) as u128,
            ),
        ),
        front.len() + back.len() >= 8 ==> ip::ip_of(
            colon_separated(front) + seq![':', ':'] + colon_separated(back),
        ) is None,
{
    lemma_colon_separated(front);
    lemma_colon_separated(back);
    ip_laws::lemma_side(front);
    ip_laws::lemma_side(back);
    ip_laws::lemma_side_text(front);
    ip_laws::lemma_side_text(back);
    let x = ip::groups_text(front);
    let y = ip::groups_text(back);
    ip_laws::lemma_double_colon(x, y);
    ip_laws::lemma_double_colon_clean(x, y);
    let s = x + seq![':', ':'] + y;
    ip_laws::lemma_split_whole(s, '.');
    if front.len() + back.len() < 8 {
        assert(Seq::new((8 - front.len() - back.len()) as nat, |i: int| 0nat) =~= ip::zeros(
            (8 - front.len() - back.len()) as nat,
        ));
    }
}

/// A group is one to four hexadecimal digits.
pub proof fn law_what_a_group_is(s: Seq<char>, i: int)
    ensures
        1 <= s.len() <= 4 && (forall|j: int|
            0 <= j < s.len() ==> ip::hex_digit(#[trigger] s[j]) is Some) ==> ip::group_of(s)
            == Some(ip::hex_value(s)),
        s.len() == 0 || s.len() > 4 ==> ip::group_of(s) is None,
        0 <= i < s.len() && ip::hex_digit(s[i]) is None ==> ip::group_of(s) is None,
{
}

/// Each part between colons has to be a group, and all of them are read.
pub proof fn law_every_part_is_a_group(parts: Seq<Seq<char>>, i: int)
    ensures
        match ip::hex_groups(parts) {
            Some(groups) => groups.len() == parts.len() && (0 <= i < parts.len()
                ==> ip::group_of(parts[i]) == Some(groups[i])),
            None => !(forall|j: int|
                0 <= j < parts.len() ==> ip::group_of(#[trigger] parts[j]) is Some),
        },
    decreases parts.len(),
{
    if parts.len() > 0 {
        let init = parts.drop_last();
        law_every_part_is_a_group(init, i);
        if ip::hex_groups(parts) is None && (forall|j: int|
            0 <= j < parts.len() ==> ip::group_of(#[trigger] parts[j]) is Some) {
            assert forall|j: int| 0 <= j < init.len() implies ip::group_of(
                #[trigger] init[j],
            ) is Some by {
                assert(init[j] == parts[j]);
            }
            assert(ip::group_of(parts[init.len() as int]) is Some);
        }
        if 0 <= i < init.len() {
            assert(init[i] == parts[i]);
        }
    }
}

/// An IPv4 address holds no colon.
proof fn lemma_ipv4_has_no_colon(s: Seq<char>)
    requires
        ip::ipv4_of(s) is Some,
    ensures
        !s.contains(':'),
{
    let parts = text::split(s, '.');
    text_laws::law_parts_make_the_text(s, '.');
    assert forall|k: int| 0 <= k < parts.len() implies !(#[trigger] parts[k]).contains(':') by {
        let part = parts[k];
        assert(ip::octet_of(part) is Some) by {
            assert(k == 0 || k == 1 || k == 2 || k == 3);
        }
        assert(text::all_digits(part));
    }
    crate::client_laws::lemma_joined_clean(parts, '.', ':');
}

/// Groups with an IPv4 address behind them, with a colon between them where there are groups.
pub open spec fn with_ipv4(groups: Seq<nat>, v4: u32) -> Seq<char> {
    if groups.len() == 0 {
        IpAddr::V4(v4).spec_text()
    } else {
        colon_separated(groups) + seq![':'] + IpAddr::V4(v4).spec_text()
    }
}

proof fn lemma_with_ipv4(groups: Seq<nat>, v4: u32)
    requires
        forall|i: int| 0 <= i < groups.len() ==> (#[trigger] groups[i]) < 65536,
    ensures
        with_ipv4(groups, v4).len() > 0,
        ip::mixed_groups(ip::colon_parts(with_ipv4(groups, v4))) == Some(
            groups.push(v4 as nat / 65536).push(v4 as nat % 65536),
        ),
        groups.len() > 0 ==> text::first_pair(with_ipv4(groups, v4), ':', ':') >= with_ipv4(
            groups,
            v4,
        ).len(),
{
    let w = IpAddr::V4(v4).spec_text();
    let s = with_ipv4(groups, v4);
    ip_laws::law_ipv4_is_read_back(v4 as nat);
    ip_laws::lemma_written(groups);
    let parts = text::split(s, ':');
    assert(w.len() > 0);
    if groups.len() == 0 {
        ip_laws::lemma_split_whole(w, ':');
        assert(parts.drop_last() =~= Seq::empty());
        assert(parts.last() == w);
        assert(groups =~= Seq::empty());
    } else {
        lemma_colon_separated(groups);
        ip_laws::lemma_groups_text(groups);
        let x = ip::groups_text(groups);
        ip_laws::lemma_split_back(x, w, ':');
        assert(parts.drop_last() =~= ip_laws::written(groups));
        assert(parts.last() == w);
        let n = x.len() as int;
        assert forall|j: int| 0 <= j < s.len() && j + 1 < s.len() implies !((#[trigger] s[j]) == ':'
            && s[j + 1] == ':') by {
            if j < n - 1 {
                assert(s[j] == x[j] && s[j + 1] == x[j + 1]);
            } else if j == n - 1 {
                assert(s[j] == x.last());
            } else {
                assert(s[j + 1] == w[j - n]);
                assert(w.contains(w[j - n]));
            }
        }
        text::lemma_first_pair_unique(s, ':', ':', s.len() as int);
    }
}

/// An IPv4 address may stand for the last two groups of an IPv6 address, behind six groups or
/// behind a double colon.
pub proof fn law_an_ipv4_address_may_end_an_ipv6_address(
    front: Seq<nat>,
    back: Seq<nat>,
    v4: u32,
)
    requires
        forall|i: int| 0 <= i < front.len() ==> (#[trigger] front[i]) < 65536,
        forall|i: int| 0 <= i < back.len() ==> (#[trigger] back[i]) < 65536,
    ensures
        ({
            let end = seq![v4 as nat / 65536, v4 as nat % 65536];
            let gap = colon_separated(front) + seq![':', ':'] + with_ipv4(back, v4);
            let zeros = Seq::new((6 - front.len() - back.len()) as nat, |i: int| 0nat);
            &&& front.len() == 6 ==> ip::ip_of(with_ipv4(front, v4)) == Some(
                IpAddr::V6(ip::groups_value(front + end) as u128),
            )
            &&& 0 < front.len() && front.len() != 6 ==> ip::ip_of(with_ipv4(front, v4)) is None
            &&& front.len() + back.len() < 6 ==> ip::ip_of(gap) == Some(
                IpAddr::V6(ip::groups_value(front + zeros + back + end) as u128),
            )
            &&& front.len() + back.len() >= 6 ==> ip::ip_of(gap) is None
        }),
{
    let end = seq![v4 as nat / 65536, v4 as nat % 65536];
    let w = IpAddr::V4(v4).spec_text();
    if front.len() > 0 {
        let s = with_ipv4(front, v4);
        lemma_with_ipv4(front, v4);
        assert(s[colon_separated(front).len() as int] == ':');
        if ip::ipv4_of(s) is Some {
            lemma_ipv4_has_no_colon(s);
        }
        assert(front.push(end[0]).push(end[1]) =~= front + end);
    }
    let x = ip::groups_text(front);
    let y = with_ipv4(back, v4);
    let s = x + seq![':', ':'] + y;
    lemma_colon_separated(front);
    lemma_with_ipv4(back, v4);
    ip_laws::lemma_side(front);
    ip_laws::lemma_side_text(front);
    ip_laws::lemma_double_colon(x, y);
    assert(s[x.len() as int] == ':');
    if ip::ipv4_of(s) is Some {
        lemma_ipv4_has_no_colon(s);
    }
    let tail = back.push(end[0]).push(end[1]);
    if front.len() + back.len() < 6 {
        let zeros = Seq::new((6 - front.len() - back.len()) as nat, |i: int| 0nat);
        assert(zeros =~= ip::zeros((8 - front.len() - tail.len()) as nat));
        assert(front + zeros + tail =~= front + zeros + back + end);
    }
}

/// The run that a double colon replaces is the longest there is, and the first of that length.
pub proof fn law_the_longest_run_of_zeros(groups: Seq<nat>, i: int, n: nat)
    requires
        0 <= i,
        i + n <= groups.len(),
        forall|j: int| i <= j < i + n ==> groups[j] == 0,
    ensures
        ({
            let (start, len) = ip::longest_run(groups, 0);
            &&& 0 <= start && start + len <= groups.len()
            &&& forall|j: int| start <= j < start + len ==> groups[j] == 0
            &&& n <= len
            &&& i < start ==> n < len
        }),
{
    ip_laws::lemma_longest_run(groups, 0);
    lemma_run_length(groups, i, n);
    lemma_longest(groups, 0, i);
}

proof fn lemma_run_length(groups: Seq<nat>, i: int, n: nat)
    requires
        0 <= i,
        i + n <= groups.len(),
        forall|j: int| i <= j < i + n ==> groups[j] == 0,
    ensures
        n <= ip::zero_run(groups, i),
    decreases n,
{
    if n > 0 {
        lemma_run_length(groups, i + 1, (n - 1) as nat);
    }
}

proof fn lemma_longest(groups: Seq<nat>, from: int, i: int)
    requires
        0 <= from <= i <= groups.len(),
    ensures
        ({
            let (start, len) = ip::longest_run(groups, from);
            &&& ip::zero_run(groups, i) <= len
            &&& i < start ==> ip::zero_run(groups, i) < len
        }),
    decreases groups.len() - from,
{
    if from < groups.len() {
        if i > from {
            lemma_longest(groups, from + 1, i);
        } else {
            ip_laws::lemma_longest_run(groups, from + 1);
        }
    }
}

/// An IPv6 address is written by its eight groups, of which the longest run of at least two zeros
/// is replaced by a double colon; a mapped IPv4 address is written as one.
pub proof fn law_how_ipv6_addresses_are_written(groups: Seq<nat>, v4: u32)
    requires
        groups.len() == 8,
        forall|i: int| 0 <= i < groups.len() ==> (#[trigger] groups[i]) < 65536,
    ensures
        ({
            let v = ip::groups_value(groups) as u128;
            let (start, len) = ip::longest_run(groups, 0);
            let mapped = 0xffff_0000_0000 <= v <= 0xffff_ffff_ffff;
            &&& !mapped && len >= 2 ==> IpAddr::V6(v).spec_text() == colon_separated(
                groups.take(start),
            ) + seq![':', ':'] + colon_separated(groups.skip(start + len))
            &&& !mapped && len < 2 ==> IpAddr::V6(v).spec_text() == colon_separated(groups)
        }),
        IpAddr::V6((0xffff_0000_0000 + v4) as u128).spec_text() == "::ffff:"@ + IpAddr::V4(
            v4,
        ).spec_text(),
{
    lemma_groups_back(groups);
    ip::lemma_groups_bound(groups);
    reveal_with_fuel(ip::groups_limit, 9);
    let (start, len) = ip::longest_run(groups, 0);
    lemma_colon_separated(groups);
    lemma_colon_separated(groups.take(start));
    lemma_colon_separated(groups.skip(start + len));
}

proof fn lemma_groups_back(groups: Seq<nat>)
    requires
        forall|i: int| 0 <= i < groups.len() ==> (#[trigger] groups[i]) < 65536,
    ensures
        ip::groups_of(ip::groups_value(groups), groups.len()) == groups,
    decreases groups.len(),
{
    if groups.len() > 0 {
        let init = groups.drop_last();
        assert forall|i: int| 0 <= i < init.len() implies (#[trigger] init[i]) < 65536 by {
            assert(init[i] == groups[i]);
        }
        lemma_groups_back(init);
        let v = ip::groups_value(groups);
        assert(groups[groups.len() - 1] < 65536);
        assert(v / 65536 == ip::groups_value(init));
        assert(v % 65536 == groups.last());
        assert(init.push(groups.last()) =~= groups);
    }
}

// ---------------------------------------------------------------------------------------------
// Socket addresses
// ---------------------------------------------------------------------------------------------

/// A socket address is written as its address and its port with a colon between them, an IPv6
/// address in brackets, with its scope behind a percent sign where it has one.
pub proof fn law_how_socket_addresses_are_written(v4: u32, v6: u128, port: u16, scope: u32)
    ensures
        (SocketAddr { ip: IpAddr::V4(v4), port, scope_id: 0 }).spec_text() == IpAddr::V4(
            v4,
        ).spec_text() + seq![':'] + text::decimal(port as nat),
        (SocketAddr { ip: IpAddr::V6(v6), port, scope_id: 0 }).spec_text() == seq!['[']
            + IpAddr::V6(v6).spec_text() + seq![']', ':'] + text::decimal(port as nat),
        scope > 0 ==> (SocketAddr { ip: IpAddr::V6(v6), port, scope_id: scope }).spec_text()
            == seq!['['] + IpAddr::V6(v6).spec_text() + (seq!['%'] + text::decimal(scope as nat))
            + seq![']', ':'] + text::decimal(port as nat),
{
    let w = IpAddr::V6(v6).spec_text();
    assert(seq!['['] + w + Seq::empty() =~= seq!['['] + w);
}

/// The port of a socket address is a number up to 65535 that is written without a sign; with any
/// other text in its place there is no socket address.
pub proof fn law_the_port_of_a_socket_address(v4: u32, v6: u128, port: Seq<char>)
    ensures
        ip::socket_of(IpAddr::V4(v4).spec_text() + seq![':'] + port) == (match text::parse_digits(
            port,
            65535,
        ) {
            Some(n) => Some(SocketAddr { ip: IpAddr::V4(v4), port: n as u16, scope_id: 0 }),
            None => None,
        }),
        ip::socket_of(seq!['['] + IpAddr::V6(v6).spec_text() + seq![']', ':'] + port) == (
        match text::parse_digits(port, 65535) {
            Some(n) => Some(SocketAddr { ip: IpAddr::V6(v6), port: n as u16, scope_id: 0 }),
            None => None,
        }),
{
    let w = IpAddr::V4(v4).spec_text();
    ip_laws::law_ipv4_is_read_back(v4 as nat);
    text_laws::law_cutting_at_the_first(w + seq![':'] + port, ':', w, port);
    text_laws::law_decimal_numbers(v4 as nat / 16777216, Seq::empty(), '0');
    assert(w[0] == text::decimal(v4 as nat / 16777216)[0]);
    assert((w + seq![':'] + port)[0] == w[0]);
    let x = IpAddr::V6(v6).spec_text();
    ip_laws::lemma_scoped(v6 as nat, 0);
    assert(x + Seq::empty() =~= x);
    ip_laws::lemma_socket_v6(x, port);
}

} // verus!
