//! IP addresses and socket addresses: how they are read, written and compared.
use crate::text;
use vstd::prelude::*;
use vstd::slice::slice_subrange;

verus! {

/// An IP address: the 32 bits of an IPv4 address, or the 128 of an IPv6 address.
#[derive(Debug, Clone, Copy, PartialEq, Eq, Structural)]
pub enum IpAddr {
    V4(u32),
    V6(u128),
}

/// An address and a port. Only an IPv6 address has a scope other than 0.
#[derive(Debug, Clone, Copy, PartialEq, Eq, Structural)]
pub struct SocketAddr {
    pub ip: IpAddr,
    pub port: u16,
    pub scope_id: u32,
}

// ---------------------------------------------------------------------------------------------
// Reading addresses
// ---------------------------------------------------------------------------------------------

/// A part of a dotted IPv4 address: one to three digits, without leading zeros.
pub open spec fn octet_of(s: Seq<char>) -> Option<nat> {
    if s.len() <= 3 && (s.len() > 1 ==> s[0] != '0') {
        text::parse_digits(s, 255)
    } else {
        None
    }
}

/// The IPv4 address with the given parts.
pub open spec fn ipv4_value(a: nat, b: nat, c: nat, d: nat) -> nat {
    ((a * 256 + b) * 256 + c) * 256 + d
}

/// The IPv4 address that the parts `parts` make.
pub open spec fn ipv4_of_parts(parts: Seq<Seq<char>>) -> Option<nat> {
    if parts.len() != 4 {
        None
    } else {
        match (octet_of(parts[0]), octet_of(parts[1]), octet_of(parts[2]), octet_of(parts[3])) {
            (Some(a), Some(b), Some(c), Some(d)) => Some(ipv4_value(a, b, c, d)),
            _ => None,
        }
    }
}

/// The IPv4 address that `s` stands for: four parts between dots.
pub open spec fn ipv4_of(s: Seq<char>) -> Option<nat> {
    ipv4_of_parts(text::split(s, '.'))
}

/// The value of a hexadecimal digit.
pub open spec fn hex_digit(c: char) -> Option<nat> {
    if '0' <= c <= '9' {
        Some((c as nat - '0' as nat) as nat)
    } else if 'a' <= c <= 'f' {
        Some((c as nat - 'a' as nat + 10) as nat)
    } else if 'A' <= c <= 'F' {
        Some((c as nat - 'A' as nat + 10) as nat)
    } else {
        None
    }
}

/// All characters are hexadecimal digits.
pub open spec fn all_hex(s: Seq<char>) -> bool {
    forall|i: int| 0 <= i < s.len() ==> hex_digit(#[trigger] s[i]) is Some
}

/// The number that hexadecimal digits stand for.
pub open spec fn hex_value(s: Seq<char>) -> nat
    decreases s.len(),
{
    if s.len() == 0 {
        0
    } else {
        hex_value(s.drop_last()) * 16 + hex_digit(s.last())->0
    }
}

/// A group of an IPv6 address: one to four hexadecimal digits.
pub open spec fn group_of(s: Seq<char>) -> Option<nat> {
    if 1 <= s.len() <= 4 && all_hex(s) {
        Some(hex_value(s))
    } else {
        None
    }
}

/// The groups that the parts `parts` stand for.
pub open spec fn hex_groups(parts: Seq<Seq<char>>) -> Option<Seq<nat>>
    decreases parts.len(),
{
    if parts.len() == 0 {
        Some(Seq::empty())
    } else {
        match (hex_groups(parts.drop_last()), group_of(parts.last())) {
            (Some(groups), Some(group)) => Some(groups.push(group)),
            _ => None,
        }
    }
}

/// The groups that the parts `parts` stand for, where the last part may be an IPv4 address.
pub open spec fn mixed_groups(parts: Seq<Seq<char>>) -> Option<Seq<nat>> {
    if parts.len() == 0 {
        Some(Seq::empty())
    } else {
        match (hex_groups(parts.drop_last()), ipv4_of(parts.last())) {
            (Some(groups), Some(v4)) => Some(groups.push(v4 / 65536).push(v4 % 65536)),
            _ => hex_groups(parts),
        }
    }
}

/// The parts between colons; an empty text has none.
pub open spec fn colon_parts(s: Seq<char>) -> Seq<Seq<char>> {
    if s.len() == 0 {
        Seq::empty()
    } else {
        text::split(s, ':')
    }
}

/// `n` zeros.
pub open spec fn zeros(n: nat) -> Seq<nat> {
    Seq::new(n, |i: int| 0nat)
}

/// The eight groups that `s` stands for: all of them, or fewer on the sides of one `::`.
pub open spec fn ipv6_groups_of(s: Seq<char>) -> Option<Seq<nat>> {
    let i = text::first_pair(s, ':', ':');
    if i >= s.len() {
        match mixed_groups(colon_parts(s)) {
            Some(groups) => if groups.len() == 8 {
                Some(groups)
            } else {
                None
            },
            None => None,
        }
    } else {
        match (hex_groups(colon_parts(s.take(i))), mixed_groups(colon_parts(s.skip(i + 2)))) {
            (Some(head), Some(tail)) => if head.len() + tail.len() <= 7 {
                Some(head + zeros((8 - head.len() - tail.len()) as nat) + tail)
            } else {
                None
            },
            _ => None,
        }
    }
}

/// The number that groups of 16 bits make.
pub open spec fn groups_value(groups: Seq<nat>) -> nat
    decreases groups.len(),
{
    if groups.len() == 0 {
        0
    } else {
        groups_value(groups.drop_last()) * 65536 + groups.last()
    }
}

/// The IP address that `s` stands for.
pub open spec fn ip_of(s: Seq<char>) -> Option<IpAddr> {
    match ipv4_of(s) {
        Some(v) => Some(IpAddr::V4(v as u32)),
        None => match ipv6_groups_of(s) {
            Some(groups) => Some(IpAddr::V6(groups_value(groups) as u128)),
            None => None,
        },
    }
}

/// Reads a part of a dotted IPv4 address.
fn read_octet(s: &[char]) -> (r: Option<u32>)
    ensures
        match r {
            Some(v) => octet_of(s@) == Some(v as nat) && v <= 255,
            None => octet_of(s@) is None,
        },
{
    if s.len() > 3 || (s.len() > 1 && s[0] == '0') {
        return None;
    }
    match text::read_digits(s, 255) {
        Some(v) => Some(v as u32),
        None => None,
    }
}

/// Reads a dotted IPv4 address.
pub fn read_ipv4(s: &[char]) -> (r: Option<u32>)
    ensures
        match r {
            Some(v) => ipv4_of(s@) == Some(v as nat),
            None => ipv4_of(s@) is None,
        },
{
    let parts = text::split_chars(s, '.');
    let ghost all = text::texts(parts@);
    assert(all.len() == parts@.len());
    if parts.len() != 4 {
        return None;
    }
    assert(all[0] == parts@[0]@ && all[1] == parts@[1]@ && all[2] == parts@[2]@ && all[3]
        == parts@[3]@);
    match (read_octet(&parts[0]), read_octet(&parts[1]), read_octet(&parts[2]), read_octet(
        &parts[3],
    )) {
        (Some(a), Some(b), Some(c), Some(d)) => Some(((a * 256 + b) * 256 + c) * 256 + d),
        _ => None,
    }
}

/// Reads a hexadecimal digit.
fn read_hex_digit(c: char) -> (r: Option<u16>)
    ensures
        match r {
            Some(v) => hex_digit(c) == Some(v as nat) && v < 16,
            None => hex_digit(c) is None,
        },
{
    if '0' <= c && c <= '9' {
        Some((c as u32 - '0' as u32) as u16)
    } else if 'a' <= c && c <= 'f' {
        Some((c as u32 - 'a' as u32 + 10) as u16)
    } else if 'A' <= c && c <= 'F' {
        Some((c as u32 - 'A' as u32 + 10) as u16)
    } else {
        None
    }
}

/// How many numbers `n` hexadecimal digits can stand for.
pub open spec fn hex_limit(n: nat) -> nat
    decreases n,
{
    if n == 0 {
        1
    } else {
        hex_limit((n - 1) as nat) * 16
    }
}

/// Hexadecimal digits stand for a number below their limit.
proof fn lemma_hex_value_bound(s: Seq<char>)
    requires
        all_hex(s),
    ensures
        hex_value(s) < hex_limit(s.len()),
    decreases s.len(),
{
    if s.len() > 0 {
        let t = s.drop_last();
        assert forall|i: int| 0 <= i < t.len() implies hex_digit(#[trigger] t[i]) is Some by {
            assert(t[i] == s[i]);
        }
        lemma_hex_value_bound(t);
        assert(hex_digit(s[s.len() - 1]) is Some);
    }
}

/// Reads a group of an IPv6 address.
fn read_group(s: &[char]) -> (r: Option<u16>)
    ensures
        match r {
            Some(v) => group_of(s@) == Some(v as nat),
            None => group_of(s@) is None,
        },
{
    if s.len() < 1 || s.len() > 4 {
        return None;
    }
    let mut value: u16 = 0;
    let mut i: usize = 0;
    assert(s@.take(0) =~= Seq::<char>::empty());
    while i < s.len()
        invariant
            i <= s@.len() <= 4,
            all_hex(s@.take(i as int)),
            value as nat == hex_value(s@.take(i as int)),
        decreases s.len() - i,
    {
        match read_hex_digit(s[i]) {
            Some(d) => {
                proof {
                    let t = s@.take(i + 1);
                    assert(t.drop_last() =~= s@.take(i as int));
                    assert(t.last() == s@[i as int]);
                    assert forall|j: int| 0 <= j < t.len() implies hex_digit(
                        #[trigger] t[j],
                    ) is Some by {
                        if j < i {
                            assert(t[j] == s@.take(i as int)[j]);
                        }
                    }
                    lemma_hex_value_bound(t);
                    reveal_with_fuel(hex_limit, 5);
                }
                value = value * 16 + d;
                i += 1;
            },
            None => {
                assert(hex_digit(s@[i as int]) is None);
                return None;
            },
        }
    }
    assert(s@.take(s@.len() as int) =~= s@);
    Some(value)
}

/// Numbers of 16 bits, by their values.
pub open spec fn nats(v: Seq<u16>) -> Seq<nat> {
    v.map_values(|n: u16| n as nat)
}

/// Where a part is no group, the parts that end with it have no groups, nor have longer ones.
proof fn lemma_hex_groups_none(parts: Seq<Seq<char>>, n: int)
    requires
        0 <= n <= parts.len(),
        hex_groups(parts.take(n)) is None,
    ensures
        hex_groups(parts) is None,
    decreases parts.len(),
{
    if n < parts.len() {
        assert(parts.drop_last().take(n) =~= parts.take(n));
        lemma_hex_groups_none(parts.drop_last(), n);
    } else {
        assert(parts.take(n) =~= parts);
    }
}

/// Reads groups.
fn read_hex_groups(parts: &[Vec<char>]) -> (r: Option<Vec<u16>>)
    ensures
        match r {
            Some(v) => hex_groups(text::texts(parts@)) == Some(nats(v@)),
            None => hex_groups(text::texts(parts@)) is None,
        },
{
    let ghost all = text::texts(parts@);
    let mut out: Vec<u16> = Vec::new();
    let mut i: usize = 0;
    proof {
        assert(all.take(0) =~= Seq::empty());
        assert(nats(out@) =~= Seq::empty());
    }
    while i < parts.len()
        invariant
            i <= parts@.len(),
            all == text::texts(parts@),
            hex_groups(all.take(i as int)) == Some(nats(out@)),
        decreases parts.len() - i,
    {
        let ghost before = nats(out@);
        proof {
            let t = all.take(i + 1);
            assert(t.drop_last() =~= all.take(i as int));
            assert(t.last() == parts@[i as int]@);
        }
        match read_group(&parts[i]) {
            Some(v) => {
                out.push(v);
                assert(nats(out@) =~= before.push(v as nat));
            },
            None => {
                proof {
                    lemma_hex_groups_none(all, i + 1);
                }
                return None;
            },
        }
        i += 1;
    }
    assert(all.take(all.len() as int) =~= all);
    Some(out)
}

/// Reads groups, the last two of which may be written as an IPv4 address.
fn read_mixed_groups(parts: &[Vec<char>]) -> (r: Option<Vec<u16>>)
    ensures
        match r {
            Some(v) => mixed_groups(text::texts(parts@)) == Some(nats(v@)),
            None => mixed_groups(text::texts(parts@)) is None,
        },
{
    let ghost all = text::texts(parts@);
    if parts.len() == 0 {
        let out: Vec<u16> = Vec::new();
        assert(nats(out@) =~= Seq::empty());
        return Some(out);
    }
    let front = slice_subrange(parts, 0, parts.len() - 1);
    proof {
        assert(text::texts(front@) =~= all.drop_last());
        assert(all.last() == parts@[parts@.len() - 1]@);
    }
    match (read_hex_groups(front), read_ipv4(&parts[parts.len() - 1])) {
        (Some(groups), Some(v4)) => {
            let mut out = groups;
            let ghost before = nats(out@);
            out.push((v4 / 65536) as u16);
            out.push((v4 % 65536) as u16);
            assert(nats(out@) =~= before.push(v4 as nat / 65536).push(v4 as nat % 65536));
            Some(out)
        },
        _ => read_hex_groups(parts),
    }
}

/// The parts between colons.
fn split_colons(s: &[char]) -> (r: Vec<Vec<char>>)
    ensures
        text::texts(r@) == colon_parts(s@),
{
    if s.len() == 0 {
        let r: Vec<Vec<char>> = Vec::new();
        assert(text::texts(r@) =~= Seq::empty());
        r
    } else {
        text::split_chars(s, ':')
    }
}

/// Reads the eight groups of an IPv6 address.
pub fn read_ipv6_groups(s: &[char]) -> (r: Option<Vec<u16>>)
    ensures
        match r {
            Some(v) => ipv6_groups_of(s@) == Some(nats(v@)) && v@.len() == 8,
            None => ipv6_groups_of(s@) is None,
        },
{
    let i: usize = text::find_pair(s, ':', ':');
    proof {
        text::lemma_first_pair(s@, ':', ':');
    }
    if i >= s.len() {
        return match read_mixed_groups(&split_colons(s)) {
            Some(groups) => if groups.len() == 8 {
                Some(groups)
            } else {
                None
            },
            None => None,
        };
    }
    let left = slice_subrange(s, 0, i);
    let right = slice_subrange(s, i + 2, s.len());
    assert(left@ =~= s@.take(i as int));
    assert(right@ =~= s@.skip(i + 2));
    match (read_hex_groups(&split_colons(left)), read_mixed_groups(&split_colons(right))) {
        (Some(head), Some(tail)) => {
            if head.len() > 7 || tail.len() > 7 - head.len() {
                return None;
            }
            let mut out: Vec<u16> = Vec::new();
            let mut k: usize = 0;
            while k < 8
                invariant
                    k <= 8,
                    out@.len() == k,
                    head@.len() + tail@.len() <= 7,
                    forall|j: int|
                        0 <= j < k ==> (#[trigger] out@[j]) == (if j < head@.len() {
                            head@[j]
                        } else if j < 8 - tail@.len() {
                            0
                        } else {
                            tail@[j - (8 - tail@.len())]
                        }),
                decreases 8 - k,
            {
                if k < head.len() {
                    out.push(head[k]);
                } else if k < 8 - tail.len() {
                    out.push(0);
                } else {
                    out.push(tail[k - (8 - tail.len())]);
                }
                k += 1;
            }
            assert(nats(out@) =~= nats(head@) + zeros((8 - head@.len() - tail@.len()) as nat)
                + nats(tail@));
            Some(out)
        },
        _ => None,
    }
}

/// The number that eight groups make.
fn join_groups(groups: &[u16]) -> (r: u128)
    requires
        groups@.len() == 8,
    ensures
        r as nat == groups_value(nats(groups@)),
{
    let mut r: u128 = 0;
    let mut i: usize = 0;
    let ghost all = nats(groups@);
    assert(all.take(0) =~= Seq::empty());
    while i < 8
        invariant
            i <= 8,
            groups@.len() == 8,
            all == nats(groups@),
            r as nat == groups_value(all.take(i as int)),
        decreases 8 - i,
    {
        proof {
            let t = all.take(i + 1);
            assert(t.drop_last() =~= all.take(i as int));
            assert(t.last() == groups@[i as int] as nat);
            lemma_groups_bound(t);
            lemma_limit_grows(t.len(), 8);
            reveal_with_fuel(groups_limit, 9);
        }
        r = r * 65536 + groups[i] as u128;
        i += 1;
    }
    assert(all.take(8) =~= all);
    r
}

/// How many numbers `n` groups can stand for.
pub open spec fn groups_limit(n: nat) -> nat
    decreases n,
{
    if n == 0 {
        1
    } else {
        groups_limit((n - 1) as nat) * 65536
    }
}

/// More groups stand for more numbers.
proof fn lemma_limit_grows(a: nat, b: nat)
    requires
        a <= b,
    ensures
        groups_limit(a) <= groups_limit(b),
    decreases b,
{
    if a < b {
        lemma_limit_grows(a, (b - 1) as nat);
    }
}

/// Groups of 16 bits make a number below their limit.
pub proof fn lemma_groups_bound(groups: Seq<nat>)
    requires
        forall|i: int| 0 <= i < groups.len() ==> (#[trigger] groups[i]) < 65536,
    ensures
        groups_value(groups) < groups_limit(groups.len()),
    decreases groups.len(),
{
    if groups.len() > 0 {
        let t = groups.drop_last();
        assert forall|i: int| 0 <= i < t.len() implies (#[trigger] t[i]) < 65536 by {
            assert(t[i] == groups[i]);
        }
        lemma_groups_bound(t);
        assert(groups[groups.len() - 1] < 65536);
    }
}

/// Reads an IP address.
pub fn read_ip(s: &[char]) -> (r: Option<IpAddr>)
    ensures
        r == ip_of(s@),
{
    match read_ipv4(s) {
        Some(v) => Some(IpAddr::V4(v)),
        None => match read_ipv6_groups(s) {
            Some(groups) => Some(IpAddr::V6(join_groups(&groups))),
            None => None,
        },
    }
}

/// Parses an IP address.
pub fn parse_ip(s: &str) -> (r: Option<IpAddr>)
    ensures
        r == ip_of(s@),
{
    read_ip(&text::chars_of(s))
}

// ---------------------------------------------------------------------------------------------
// Reading socket addresses
// ---------------------------------------------------------------------------------------------

/// The socket address that an IPv4 address and a port text make.
pub open spec fn socket_v4_of(s: Seq<char>) -> Option<SocketAddr> {
    match text::split_once(s, ':') {
        Some((addr, port)) => match (ipv4_of(addr), text::parse_digits(port, 65535)) {
            (Some(v), Some(port)) => Some(
                SocketAddr { ip: IpAddr::V4(v as u32), port: port as u16, scope_id: 0 },
            ),
            _ => None,
        },
        None => None,
    }
}

/// The IPv6 address and the scope that stand in the brackets.
pub open spec fn scoped_of(s: Seq<char>) -> Option<(nat, nat)> {
    let (addr, scope) = match text::split_once(s, '%') {
        Some((addr, scope)) => (addr, text::parse_digits(scope, 0xffff_ffff)),
        None => (s, Some(0nat)),
    };
    match (ipv6_groups_of(addr), scope) {
        (Some(groups), Some(scope)) => Some((groups_value(groups), scope)),
        _ => None,
    }
}

/// The socket address that a bracketed IPv6 address and a port text make.
pub open spec fn socket_v6_of(s: Seq<char>) -> Option<SocketAddr> {
    if s.len() > 0 && s[0] == '[' {
        let rest = s.skip(1);
        let i = text::first_pair(rest, ']', ':');
        if i < rest.len() {
            match (scoped_of(rest.take(i)), text::parse_digits(rest.skip(i + 2), 65535)) {
                (Some((addr, scope)), Some(port)) => Some(
                    SocketAddr {
                        ip: IpAddr::V6(addr as u128),
                        port: port as u16,
                        scope_id: scope as u32,
                    },
                ),
                _ => None,
            }
        } else {
            None
        }
    } else {
        None
    }
}

/// The socket address that `s` stands for: `1.2.3.4:5678` or `[2001:db8::1]:443`.
pub open spec fn socket_of(s: Seq<char>) -> Option<SocketAddr> {
    match socket_v4_of(s) {
        Some(addr) => Some(addr),
        None => socket_v6_of(s),
    }
}

/// Reads an IPv4 socket address.
fn read_socket_v4(s: &[char]) -> (r: Option<SocketAddr>)
    ensures
        r == socket_v4_of(s@),
{
    let i: usize = text::find(s, ':');
    if i >= s.len() {
        return None;
    }
    let addr = slice_subrange(s, 0, i);
    let port = slice_subrange(s, i + 1, s.len());
    assert(addr@ =~= s@.take(i as int));
    assert(port@ =~= s@.skip(i + 1));
    match (read_ipv4(addr), text::read_digits(port, 65535)) {
        (Some(v), Some(port)) => Some(
            SocketAddr { ip: IpAddr::V4(v), port: port as u16, scope_id: 0 },
        ),
        _ => None,
    }
}

/// Reads what stands in the brackets of an IPv6 socket address.
fn read_scoped(s: &[char]) -> (r: Option<(u128, u32)>)
    ensures
        match r {
            Some((addr, scope)) => scoped_of(s@) == Some((addr as nat, scope as nat)),
            None => scoped_of(s@) is None,
        },
{
    let i: usize = text::find(s, '%');
    let addr = slice_subrange(s, 0, i);
    let scope: Option<u64> = if i < s.len() {
        let scope = slice_subrange(s, i + 1, s.len());
        assert(addr@ =~= s@.take(i as int));
        assert(scope@ =~= s@.skip(i + 1));
        text::read_digits(scope, 0xffff_ffff)
    } else {
        assert(addr@ =~= s@);
        Some(0)
    };
    match (read_ipv6_groups(addr), scope) {
        (Some(groups), Some(scope)) => Some((join_groups(&groups), scope as u32)),
        _ => None,
    }
}

/// Reads an IPv6 socket address.
fn read_socket_v6(s: &[char]) -> (r: Option<SocketAddr>)
    ensures
        r == socket_v6_of(s@),
{
    if s.len() == 0 || s[0] != '[' {
        return None;
    }
    let rest = slice_subrange(s, 1, s.len());
    assert(rest@ =~= s@.skip(1));
    let i: usize = text::find_pair(rest, ']', ':');
    proof {
        text::lemma_first_pair(rest@, ']', ':');
    }
    if i >= rest.len() {
        return None;
    }
    let inner = slice_subrange(rest, 0, i);
    let port = slice_subrange(rest, i + 2, rest.len());
    assert(inner@ =~= rest@.take(i as int));
    assert(port@ =~= rest@.skip(i + 2));
    match (read_scoped(inner), text::read_digits(port, 65535)) {
        (Some((addr, scope_id)), Some(port)) => Some(
            SocketAddr { ip: IpAddr::V6(addr), port: port as u16, scope_id },
        ),
        _ => None,
    }
}

/// Reads a socket address.
pub fn read_socket(s: &[char]) -> (r: Option<SocketAddr>)
    ensures
        r == socket_of(s@),
{
    match read_socket_v4(s) {
        Some(addr) => Some(addr),
        None => read_socket_v6(s),
    }
}

/// Parses a socket address.
pub fn parse_socket(s: &str) -> (r: Option<SocketAddr>)
    ensures
        r == socket_of(s@),
{
    read_socket(&text::chars_of(s))
}

// ---------------------------------------------------------------------------------------------
// Writing addresses
// ---------------------------------------------------------------------------------------------

/// The dotted form of an IPv4 address.
pub open spec fn ipv4_text(v: nat) -> Seq<char> {
    text::decimal(v / 16777216) + seq!['.'] + text::decimal(v / 65536 % 256) + seq!['.']
        + text::decimal(v / 256 % 256) + seq!['.'] + text::decimal(v % 256)
}

/// A hexadecimal digit, in lower case.
pub open spec fn hex_char(n: nat) -> char {
    if n < 10 {
        (n + '0' as nat) as char
    } else {
        (n - 10 + 'a' as nat) as char
    }
}

/// A number in hexadecimal, in lower case and without leading zeros.
pub open spec fn hex_text(n: nat) -> Seq<char>
    decreases n,
{
    if n < 16 {
        seq![hex_char(n)]
    } else {
        hex_text(n / 16).push(hex_char(n % 16))
    }
}

/// The eight groups of an IPv6 address.
pub open spec fn groups_of(v: nat, n: nat) -> Seq<nat>
    decreases n,
{
    if n == 0 {
        Seq::empty()
    } else {
        groups_of(v / 65536, (n - 1) as nat).push(v % 65536)
    }
}

/// How many groups are zero from `i` on.
pub open spec fn zero_run(groups: Seq<nat>, i: int) -> nat
    decreases groups.len() - i,
{
    if 0 <= i < groups.len() && groups[i] == 0 {
        1 + zero_run(groups, i + 1)
    } else {
        0
    }
}

/// The start and the length of the longest run of zero groups from `i` on, the first of those
/// that are equally long.
pub open spec fn longest_run(groups: Seq<nat>, i: int) -> (int, nat)
    decreases groups.len() - i,
{
    if i >= groups.len() {
        (i, 0)
    } else {
        let rest = longest_run(groups, i + 1);
        if zero_run(groups, i) >= rest.1 {
            (i, zero_run(groups, i))
        } else {
            rest
        }
    }
}

/// Groups between colons.
pub open spec fn groups_text(groups: Seq<nat>) -> Seq<char>
    decreases groups.len(),
{
    if groups.len() == 0 {
        Seq::empty()
    } else if groups.len() == 1 {
        hex_text(groups[0])
    } else {
        groups_text(groups.drop_last()) + seq![':'] + hex_text(groups.last())
    }
}

/// Groups between colons, where `::` stands for the longest run of two or more zero groups.
pub open spec fn compressed_text(groups: Seq<nat>) -> Seq<char> {
    let (start, len) = longest_run(groups, 0);
    if len >= 2 {
        groups_text(groups.take(start)) + seq![':', ':'] + groups_text(groups.skip(start + len))
    } else {
        groups_text(groups)
    }
}

/// The IPv4 address that an IPv6 address maps.
pub open spec fn mapped_ipv4(v: nat) -> Option<nat> {
    if v / 0x1_0000_0000 == 0xffff {
        Some(v % 0x1_0000_0000)
    } else {
        None
    }
}

/// The written form of an IPv6 address.
pub open spec fn ipv6_text(v: nat) -> Seq<char> {
    match mapped_ipv4(v) {
        Some(v4) => "::ffff:"@ + ipv4_text(v4),
        None => compressed_text(groups_of(v, 8)),
    }
}

impl IpAddr {
    /// The written form of the address.
    pub open spec fn spec_text(self) -> Seq<char> {
        match self {
            IpAddr::V4(v) => ipv4_text(v as nat),
            IpAddr::V6(v) => ipv6_text(v as nat),
        }
    }

    /// The IPv4 address where the address maps one, else the address.
    pub open spec fn canonical(self) -> IpAddr {
        match self {
            IpAddr::V4(_) => self,
            IpAddr::V6(v) => match mapped_ipv4(v as nat) {
                Some(v4) => IpAddr::V4(v4 as u32),
                None => self,
            },
        }
    }

    /// The IPv4 address where the address maps one, else the address.
    pub fn to_canonical(&self) -> (r: IpAddr)
        ensures
            r == self.canonical(),
    {
        match *self {
            IpAddr::V4(_) => *self,
            IpAddr::V6(v) => if v / 0x1_0000_0000 == 0xffff {
                IpAddr::V4((v % 0x1_0000_0000) as u32)
            } else {
                *self
            },
        }
    }

    /// Whether this is an IPv4 address.
    pub fn is_ipv4(&self) -> (r: bool)
        ensures
            r == (self is V4),
    {
        match self {
            IpAddr::V4(_) => true,
            IpAddr::V6(_) => false,
        }
    }

    /// The written form of the address.
    pub fn to_text(&self) -> (r: String)
        ensures
            r@ == self.spec_text(),
    {
        match *self {
            IpAddr::V4(v) => write_ipv4(v),
            IpAddr::V6(v) => write_ipv6(v),
        }
    }
}

impl SocketAddr {
    /// The written form of the socket address.
    pub open spec fn spec_text(self) -> Seq<char> {
        match self.ip {
            IpAddr::V4(v) => ipv4_text(v as nat) + seq![':'] + text::decimal(self.port as nat),
            IpAddr::V6(v) => seq!['['] + ipv6_text(v as nat) + (if self.scope_id == 0 {
                Seq::empty()
            } else {
                seq!['%'] + text::decimal(self.scope_id as nat)
            }) + seq![']', ':'] + text::decimal(self.port as nat),
        }
    }

    /// The written form of the socket address.
    pub fn to_text(&self) -> (r: String)
        ensures
            r@ == self.spec_text(),
    {
        let mut out = String::new();
        match self.ip {
            IpAddr::V4(v) => {
                out.append(write_ipv4(v).as_str());
                out.push(':');
            },
            IpAddr::V6(v) => {
                out.push('[');
                out.append(write_ipv6(v).as_str());
                if self.scope_id != 0 {
                    out.push('%');
                    out.append(text::decimal_string(self.scope_id as u64).as_str());
                }
                out.push(']');
                out.push(':');
            },
        }
        out.append(text::decimal_string(self.port as u64).as_str());
        assert(out@ =~= self.spec_text());
        out
    }
}

/// Writes an IPv4 address.
fn write_ipv4(v: u32) -> (r: String)
    ensures
        r@ == ipv4_text(v as nat),
{
    let mut out = text::decimal_string((v / 16777216) as u64);
    out.push('.');
    out.append(text::decimal_string((v / 65536 % 256) as u64).as_str());
    out.push('.');
    out.append(text::decimal_string((v / 256 % 256) as u64).as_str());
    out.push('.');
    out.append(text::decimal_string((v % 256) as u64).as_str());
    assert(out@ =~= ipv4_text(v as nat));
    out
}

/// Writes a group in hexadecimal.
fn write_hex(n: u16) -> (r: String)
    ensures
        r@ == hex_text(n as nat),
    decreases n,
{
    let d: u8 = (n % 16) as u8;
    let c: char = if d < 10 {
        (48u8 + d) as char
    } else {
        (87u8 + d) as char
    };
    assert(c == hex_char((n % 16) as nat));
    if n < 16 {
        let mut out = String::new();
        out.push(c);
        assert(out@ =~= hex_text(n as nat));
        out
    } else {
        let mut out = write_hex(n / 16);
        out.push(c);
        out
    }
}

/// The groups of an IPv6 address.
fn split_groups(v: u128) -> (r: Vec<u16>)
    ensures
        nats(r@) == groups_of(v as nat, 8),
        r@.len() == 8,
{
    proof {
        reveal_with_fuel(groups_of, 9);
    }
    let a: u128 = v / 65536;
    let b: u128 = a / 65536;
    let c: u128 = b / 65536;
    let d: u128 = c / 65536;
    let e: u128 = d / 65536;
    let f: u128 = e / 65536;
    let g: u128 = f / 65536;
    let r: Vec<u16> = vec![
        (g % 65536) as u16,
        (f % 65536) as u16,
        (e % 65536) as u16,
        (d % 65536) as u16,
        (c % 65536) as u16,
        (b % 65536) as u16,
        (a % 65536) as u16,
        (v % 65536) as u16,
    ];
    assert(nats(r@) =~= groups_of(v as nat, 8));
    r
}

/// Writes groups between colons.
fn write_groups(groups: &[u16]) -> (r: String)
    ensures
        r@ == groups_text(nats(groups@)),
    decreases groups@.len(),
{
    let ghost all = nats(groups@);
    if groups.len() == 0 {
        let out = String::new();
        assert(out@ =~= Seq::empty());
        return out;
    }
    if groups.len() == 1 {
        assert(all[0] == groups@[0] as nat);
        return write_hex(groups[0]);
    }
    let front = slice_subrange(groups, 0, groups.len() - 1);
    proof {
        assert(nats(front@) =~= all.drop_last());
        assert(all.last() == groups@[groups@.len() - 1] as nat);
    }
    let mut out = write_groups(front);
    out.push(':');
    let last: u16 = groups[groups.len() - 1];
    out.append(write_hex(last).as_str());
    assert(out@ =~= groups_text(all.drop_last()) + seq![':'] + hex_text(last as nat));
    out
}

/// The longest run of zero groups: where it starts, and how many they are.
fn find_longest_run(groups: &[u16]) -> (r: (usize, usize))
    ensures
        (r.0 as int, r.1 as nat) == longest_run(nats(groups@), 0),
        r.0 + r.1 <= groups@.len(),
{
    let ghost all = nats(groups@);
    let mut i: usize = groups.len();
    let mut run: usize = 0;
    let mut start: usize = i;
    let mut len: usize = 0;
    while i > 0
        invariant
            i <= groups@.len(),
            all == nats(groups@),
            run as nat == zero_run(all, i as int),
            i + run <= groups@.len(),
            (start as int, len as nat) == longest_run(all, i as int),
            start + len <= groups@.len(),
        decreases i,
    {
        i -= 1;
        assert(all[i as int] == groups@[i as int] as nat);
        if groups[i] == 0 {
            run += 1;
        } else {
            run = 0;
        }
        if run >= len {
            start = i;
            len = run;
        }
    }
    (start, len)
}

/// Writes an IPv6 address.
fn write_ipv6(v: u128) -> (r: String)
    ensures
        r@ == ipv6_text(v as nat),
{
    if v / 0x1_0000_0000 == 0xffff {
        let mut out = "::ffff:".to_owned();
        out.append(write_ipv4((v % 0x1_0000_0000) as u32).as_str());
        return out;
    }
    let groups = split_groups(v);
    let ghost all = nats(groups@);
    let (start, len): (usize, usize) = find_longest_run(&groups);
    if len >= 2 {
        let front = slice_subrange(groups.as_slice(), 0, start);
        let back = slice_subrange(groups.as_slice(), start + len, groups.len());
        proof {
            assert(nats(front@) =~= all.take(start as int));
            assert(nats(back@) =~= all.skip(start + len));
        }
        let mut out = write_groups(front);
        out.push(':');
        out.push(':');
        out.append(write_groups(back).as_str());
        assert(out@ =~= compressed_text(all));
        out
    } else {
        write_groups(&groups)
    }
}

} // verus!
