//! What holds of ranges, of the entries of `X-Forwarded-For`, and of the client among them.
use crate::client_addr;
use crate::client_addr::{IpRange, RangeFault};
use crate::codec;
use crate::http;
use crate::ip;
use crate::ip::{IpAddr, SocketAddr};
use crate::ip_laws;
use crate::text;
use crate::text_laws;
use vstd::arithmetic::div_mod::*;
use vstd::arithmetic::power2::*;
use vstd::prelude::*;

verus! {

// ---------------------------------------------------------------------------------------------
// The selection
// ---------------------------------------------------------------------------------------------

/// Some range holds the address.
pub open spec fn is_covered(ranges: Seq<IpRange>, ip: IpAddr) -> bool {
    exists|i: int| 0 <= i < ranges.len() && (#[trigger] ranges[i]).has(ip)
}

/// The entry is the address of a trusted proxy.
pub open spec fn is_proxy(ranges: Seq<IpRange>, entry: Seq<char>) -> bool {
    client_addr::forwarded_address(entry) matches Some(ip) && is_covered(ranges, ip)
}

/// Proxies at the right are passed.
proof fn lemma_passing(ranges: Seq<IpRange>, entries: Seq<Seq<char>>, n: int)
    requires
        0 <= n < entries.len(),
        forall|j: int| n < j < entries.len() ==> is_proxy(ranges, #[trigger] entries[j]),
    ensures
        client_addr::selected(ranges, entries) == client_addr::selected(
            ranges,
            entries.take(n + 1),
        ),
    decreases entries.len(),
{
    if n + 1 < entries.len() {
        let all = client_addr::addresses(entries);
        assert(is_proxy(ranges, entries[entries.len() - 1]));
        assert(client_addr::addresses(entries.drop_last()) =~= all.drop_last());
        lemma_passing(ranges, entries.drop_last(), n);
        assert(entries.drop_last().take(n + 1) =~= entries.take(n + 1));
    } else {
        assert(entries.take(n + 1) =~= entries);
    }
}

/// An entry that is the address of no trusted proxy is the client, whatever its family, wherever
/// only trusted proxies stand to its right, and whatever stands to its left.
pub proof fn law_an_untrusted_entry_behind_proxies_is_the_client(
    ranges: Seq<IpRange>,
    entries: Seq<Seq<char>>,
    n: int,
    ip: IpAddr,
)
    requires
        0 <= n < entries.len(),
        client_addr::forwarded_address(entries[n]) == Some(ip),
        forall|i: int| 0 <= i < ranges.len() ==> !(#[trigger] ranges[i]).has(ip),
        forall|j: int| n < j < entries.len() ==> is_proxy(ranges, #[trigger] entries[j]),
    ensures
        client_addr::selected(ranges, entries) == Some(ip),
{
    lemma_passing(ranges, entries, n);
    let some = client_addr::addresses(entries.take(n + 1));
    assert(some.last() == client_addr::forwarded_address(entries[n]));
}

/// Where every entry is a trusted proxy, the leftmost is reported.
pub proof fn law_the_leftmost_of_proxies_alone_is_the_client(
    ranges: Seq<IpRange>,
    entries: Seq<Seq<char>>,
)
    requires
        entries.len() > 0,
        forall|j: int| 0 <= j < entries.len() ==> is_proxy(ranges, #[trigger] entries[j]),
    ensures
        client_addr::selected(ranges, entries) == client_addr::forwarded_address(entries[0]),
{
    lemma_passing(ranges, entries, 0);
    let some = client_addr::addresses(entries.take(1));
    assert(is_proxy(ranges, entries[0]));
    assert(some.last() == client_addr::forwarded_address(entries[0]));
}

/// An entry that is no address stops the search, unless a client stands to its right; and without
/// entries there is no client.
pub proof fn law_an_unreadable_entry_names_nobody(
    ranges: Seq<IpRange>,
    entries: Seq<Seq<char>>,
    n: int,
)
    requires
        0 <= n < entries.len(),
        client_addr::forwarded_address(entries[n]) is None,
        forall|j: int| n < j < entries.len() ==> is_proxy(ranges, #[trigger] entries[j]),
    ensures
        client_addr::selected(ranges, entries) is None,
        client_addr::selected(ranges, Seq::empty()) is None,
{
    lemma_passing(ranges, entries, n);
    let some = client_addr::addresses(entries.take(n + 1));
    assert(some.last() == client_addr::forwarded_address(entries[n]));
}

/// Trusted are the addresses in the configured ranges, all of them and no others.
pub proof fn law_who_is_trusted(ranges: Seq<IpRange>, i: int, ip: IpAddr)
    ensures
        0 <= i < ranges.len() && ranges[i].has(ip) ==> client_addr::is_trusted(ranges, ip),
        (forall|j: int| 0 <= j < ranges.len() ==> !(#[trigger] ranges[j]).has(ip))
            ==> !client_addr::is_trusted(ranges, ip),
{
}

// ---------------------------------------------------------------------------------------------
// Entries
// ---------------------------------------------------------------------------------------------

/// The entries of a value are its parts between commas, trimmed, without the empty ones.
pub proof fn law_entries_are_the_parts_that_say_something(parts: Seq<Seq<char>>)
    ensures
        client_addr::filled(parts) == parts.map_values(
            |part: Seq<char>| text::trimmed(part),
        ).filter(|entry: Seq<char>| entry.len() > 0),
    decreases parts.len(),
{
    let trim = |part: Seq<char>| text::trimmed(part);
    let says = |entry: Seq<char>| entry.len() > 0;
    reveal(Seq::filter);
    if parts.len() > 0 {
        law_entries_are_the_parts_that_say_something(parts.drop_last());
        assert(parts.map_values(trim).drop_last() =~= parts.drop_last().map_values(trim));
        assert(parts.map_values(trim).last() == text::trimmed(parts.last()));
    }
}

/// The entries of a head are those of its `X-Forwarded-For` headers, however the name is written,
/// one header after another; a value that is no UTF-8 has none.
pub proof fn law_all_forwarding_headers_count(
    a: Seq<(Seq<char>, Seq<u8>)>,
    b: Seq<(Seq<char>, Seq<u8>)>,
    name: Seq<char>,
    value: Seq<char>,
    bytes: Seq<u8>,
)
    ensures
        client_addr::forwarded_entries(a + b) == client_addr::forwarded_entries(a)
            + client_addr::forwarded_entries(b),
        text::lowered(name) == "x-forwarded-for"@ && codec::utf8_text(bytes) == Some(value)
            ==> client_addr::forwarded_entries(seq![(name, bytes)]) == client_addr::filled(
            text::split(value, ','),
        ),
        text::lowered(name) != "x-forwarded-for"@ || codec::utf8_text(bytes) is None
            ==> client_addr::forwarded_entries(seq![(name, bytes)]) == Seq::<Seq<char>>::empty(),
    decreases b.len(),
{
    reveal_strlit("x-forwarded-for");
    assert(text::lowered("x-forwarded-for"@) =~= "x-forwarded-for"@);
    let one = seq![(name, bytes)];
    assert(one.drop_last() =~= Seq::empty());
    assert(client_addr::forwarded_entries(one.drop_last()) =~= Seq::empty());
    assert(one.last() == (name, bytes));
    assert(client_addr::forwarded_entries(one) =~= client_addr::header_entries(name, bytes));
    if b.len() == 0 {
        assert(a + b =~= a);
    } else {
        law_all_forwarding_headers_count(a, b.drop_last(), name, value, bytes);
        assert((a + b).drop_last() =~= a + b.drop_last());
        assert((a + b).last() == b.last());
    }
}

/// A head names the client that is selected among all its entries; where it cannot be parsed it
/// names none.
pub proof fn law_a_head_names_the_selected_client(ranges: Seq<IpRange>, raw: http::RawView)
    ensures
        client_addr::forwarded_in(ranges, Some(raw)) == client_addr::selected(
            ranges,
            client_addr::forwarded_entries(raw.2),
        ),
        client_addr::forwarded_in(ranges, None) is None,
{
}

/// What is read as an address holds hexadecimal digits, colons and dots alone.
proof fn lemma_read_text(s: Seq<char>)
    requires
        ip::ip_of(s) is Some,
    ensures
        ip_laws::is_addr_text(s),
{
    if ip::ipv4_of(s) is Some {
        lemma_read_ipv4(s);
    } else {
        let i = text::first_pair(s, ':', ':');
        text::lemma_first_pair(s, ':', ':');
        if i >= s.len() {
            lemma_read_side(s);
        } else {
            let x = s.take(i);
            let y = s.skip(i + 2);
            lemma_read_hex(x);
            lemma_read_side(y);
            assert forall|j: int| 0 <= j < s.len() implies ip_laws::is_addr_char(#[trigger] s[j]) by {
                if j < i {
                    assert(s[j] == x[j]);
                } else if j >= i + 2 {
                    assert(s[j] == y[j - i - 2]);
                }
            }
        }
    }
}

proof fn lemma_read_ipv4(s: Seq<char>)
    requires
        ip::ipv4_of(s) is Some,
    ensures
        ip_laws::is_addr_text(s),
{
    let parts = text::split(s, '.');
    text_laws::law_parts_make_the_text(s, '.');
    assert forall|k: int| 0 <= k < parts.len() implies ip_laws::is_addr_text(
        #[trigger] parts[k],
    ) by {
        let part = parts[k];
        assert(ip::octet_of(part) is Some) by {
            assert(k == 0 || k == 1 || k == 2 || k == 3);
        }
        assert forall|j: int| 0 <= j < part.len() implies ip_laws::is_addr_char(
            #[trigger] part[j],
        ) by {
            assert(text::is_digit(part[j]));
        }
    }
    lemma_joined_text(parts, '.');
}

proof fn lemma_read_groups(parts: Seq<Seq<char>>)
    requires
        ip::hex_groups(parts) is Some,
    ensures
        forall|k: int| 0 <= k < parts.len() ==> ip_laws::is_addr_text(#[trigger] parts[k]),
    decreases parts.len(),
{
    if parts.len() > 0 {
        lemma_read_groups(parts.drop_last());
        assert forall|k: int| 0 <= k < parts.len() implies ip_laws::is_addr_text(
            #[trigger] parts[k],
        ) by {
            if k < parts.len() - 1 {
                assert(parts.drop_last()[k] == parts[k]);
            }
        }
    }
}

proof fn lemma_read_hex(s: Seq<char>)
    requires
        ip::hex_groups(ip::colon_parts(s)) is Some,
    ensures
        ip_laws::is_addr_text(s),
{
    if s.len() > 0 {
        text_laws::law_parts_make_the_text(s, ':');
        lemma_read_groups(text::split(s, ':'));
        lemma_joined_text(text::split(s, ':'), ':');
    }
}

proof fn lemma_read_side(s: Seq<char>)
    requires
        ip::mixed_groups(ip::colon_parts(s)) is Some,
    ensures
        ip_laws::is_addr_text(s),
{
    if s.len() > 0 {
        let parts = text::split(s, ':');
        text_laws::law_parts_make_the_text(s, ':');
        if ip::hex_groups(parts.drop_last()) is Some && ip::ipv4_of(parts.last()) is Some {
            lemma_read_groups(parts.drop_last());
            lemma_read_ipv4(parts.last());
            assert forall|k: int| 0 <= k < parts.len() implies ip_laws::is_addr_text(
                #[trigger] parts[k],
            ) by {
                if k < parts.len() - 1 {
                    assert(parts.drop_last()[k] == parts[k]);
                }
            }
        } else {
            lemma_read_groups(parts);
        }
        lemma_joined_text(parts, ':');
    }
}

proof fn lemma_joined_text(parts: Seq<Seq<char>>, c: char)
    requires
        ip_laws::is_addr_char(c),
        forall|k: int| 0 <= k < parts.len() ==> ip_laws::is_addr_text(#[trigger] parts[k]),
    ensures
        ip_laws::is_addr_text(text_laws::joined(parts, c)),
    decreases parts.len(),
{
    if parts.len() > 1 {
        assert forall|k: int| 0 <= k < parts.skip(1).len() implies ip_laws::is_addr_text(
            #[trigger] parts.skip(1)[k],
        ) by {
            assert(parts.skip(1)[k] == parts[k + 1]);
        }
        lemma_joined_text(parts.skip(1), c);
        let s = text_laws::joined(parts, c);
        let a = parts[0];
        let b = text_laws::joined(parts.skip(1), c);
        assert forall|j: int| 0 <= j < s.len() implies ip_laws::is_addr_char(#[trigger] s[j]) by {
            if j < a.len() {
                assert(s[j] == a[j]);
            } else if j > a.len() {
                assert(s[j] == b[j - a.len() - 1]);
            }
        }
    }
}

/// An IPv4 address with a port is no address by itself.
proof fn lemma_socket_is_no_address(v: u32, port: u16)
    ensures
        ip::ip_of(ip::ipv4_text(v as nat) + seq![':'] + text::decimal(port as nat)) is None,
{
    let w = ip::ipv4_text(v as nat);
    let p = text::decimal(port as nat);
    let s = w + seq![':'] + p;
    ip_laws::law_ipv4_is_read_back(v as nat);
    ip_laws::lemma_decimal_clean(port as nat);
    // No part between dots may hold the colon.
    if ip::ipv4_of(s) is Some {
        let parts = text::split(s, '.');
        text_laws::law_parts_make_the_text(s, '.');
        assert(s[w.len() as int] == ':');
        assert(s.contains(':'));
        assert forall|k: int| 0 <= k < parts.len() implies !(#[trigger] parts[k]).contains(':') by {
            let part = parts[k];
            assert(ip::octet_of(part) is Some) by {
                assert(k == 0 || k == 1 || k == 2 || k == 3);
            }
            assert(text::all_digits(part));
        }
        lemma_joined_clean(parts, '.', ':');
    }
    // There is one colon, and what stands before it is no group of hexadecimal digits.
    assert forall|j: int| 0 <= j && j + 1 < s.len() implies !((#[trigger] s[j]) == ':' && s[j + 1]
        == ':') by {
        if j < w.len() {
            assert(w.contains(w[j]));
            assert(s[j] == w[j]);
        } else {
            assert(s[j + 1] == p[j - w.len()]);
            assert(p.contains(p[j - w.len()]));
        }
    }
    text::lemma_first_pair_unique(s, ':', ':', s.len() as int);
    ip_laws::lemma_split_front(w, p, ':');
    ip_laws::lemma_split_whole(p, ':');
    let parts = text::split(s, ':');
    assert(parts =~= seq![w, p]);
    let n = text::decimal(v as nat / 16777216).len() as int;
    assert(w[n] == '.');
    assert(ip::hex_digit(w[n]) is None);
    assert(ip::group_of(w) is None);
    assert(parts.drop_last() =~= seq![w]);
    assert(parts.drop_last().drop_last() =~= Seq::empty());
    assert(parts.drop_last().last() == w);
    assert(ip::hex_groups(parts.drop_last()) is None);
}

pub proof fn lemma_joined_clean(parts: Seq<Seq<char>>, c: char, d: char)
    requires
        c != d,
        forall|k: int| 0 <= k < parts.len() ==> !(#[trigger] parts[k]).contains(d),
    ensures
        !text_laws::joined(parts, c).contains(d),
    decreases parts.len(),
{
    if parts.len() > 1 {
        assert forall|k: int| 0 <= k < parts.skip(1).len() implies !(
        #[trigger] parts.skip(1)[k]).contains(d) by {
            assert(parts.skip(1)[k] == parts[k + 1]);
        }
        lemma_joined_clean(parts.skip(1), c, d);
        ip_laws::lemma_join_clean(parts[0], c, text_laws::joined(parts.skip(1), c), d);
    }
}

/// An entry is read in each form in which proxies write an address: by itself, with a port, and in
/// brackets; a mapped IPv4 address stands for the IPv4 address.
pub proof fn law_forwarded_addresses_are_read(addr: SocketAddr)
    requires
        addr.ip is V4 ==> addr.scope_id == 0,
    ensures
        client_addr::forwarded_address(addr.ip.spec_text()) == Some(addr.ip.canonical()),
        client_addr::forwarded_address(addr.spec_text()) == Some(addr.ip.canonical()),
        client_addr::forwarded_address(seq!['['] + addr.ip.spec_text() + seq![']']) == Some(
            addr.ip.canonical(),
        ),
{
    ip_laws::law_addresses_are_read_back(addr.ip);
    ip_laws::law_socket_addresses_are_read_back(addr);
    let w = addr.ip.spec_text();
    let s = addr.spec_text();
    match addr.ip {
        IpAddr::V4(v) => {
            lemma_socket_is_no_address(v, addr.port);
        },
        IpAddr::V6(v) => {
            if ip::ip_of(s) is Some {
                lemma_read_text(s);
                assert(s[0] == '[');
                assert(ip_laws::is_addr_char(s[0]));
            }
        },
    }
    let t = seq!['['] + w + seq![']'];
    lemma_read_text(w);
    if ip::ip_of(t) is Some {
        lemma_read_text(t);
        assert(ip_laws::is_addr_char(t[0]));
    }
    // No `]:` follows the bracket.
    let rest = t.skip(1);
    assert forall|j: int| 0 <= j < rest.len() && j + 1 < rest.len() implies !((#[trigger] rest[j])
        == ']' && rest[j + 1] == ':') by {
        assert(rest[j] == w[j]);
        assert(ip_laws::is_addr_char(w[j]));
    }
    text::lemma_first_pair_unique(rest, ']', ':', rest.len() as int);
    assert(ip::socket_v4_of(t) is None) by {
        text::lemma_first(t, ':');
        let i = text::first(t, ':');
        if i < t.len() {
            assert(t[0] == '[');
            assert(t.take(i)[0] == '[');
            ip_laws::lemma_no_ipv4(t.take(i));
        }
    }
    assert(t.subrange(1, t.len() - 1) =~= w);
}

/// What is read from an entry was written in one of these forms.
pub proof fn law_other_entries_are_no_addresses(entry: Seq<char>)
    requires
        ip::ip_of(entry) is None,
        ip::socket_of(entry) is None,
        entry.len() < 2 || entry[0] != '[' || entry.last() != ']' || ip::ip_of(
            entry.subrange(1, entry.len() - 1),
        ) is None,
    ensures
        client_addr::forwarded_address(entry) is None,
{
}

// ---------------------------------------------------------------------------------------------
// Ranges
// ---------------------------------------------------------------------------------------------

/// A mapped IPv4 address is the IPv4 address; every other address is itself.
pub proof fn law_mapped_addresses_are_unmapped(v4: u32, v6: u128)
    ensures
        IpAddr::V4(v4).canonical() == IpAddr::V4(v4),
        IpAddr::V6((0xffff_0000_0000 + v4) as u128).canonical() == IpAddr::V4(v4),
        v6 < 0xffff_0000_0000 || v6 > 0xffff_ffff_ffff ==> IpAddr::V6(v6).canonical()
            == IpAddr::V6(v6),
{
}

/// A range of addresses is an interval: it starts at the network, which is what is left of the
/// address without the bits behind the prefix, and has as many addresses as those bits can tell
/// apart. It holds no address of the other family.
pub proof fn law_a_range_is_an_interval(range: IpRange, ip: IpAddr)
    requires
        range.wf(),
    ensures
        match (range.addr, ip.canonical()) {
            (IpAddr::V4(a), IpAddr::V4(v)) => {
                let size = pow2((32 - range.prefix) as nat);
                let start = a - a as int % size as int;
                range.has(ip) <==> start <= v < start + size
            },
            (IpAddr::V6(a), IpAddr::V6(v)) => {
                let size = pow2((128 - range.prefix) as nat);
                let start = a - a as int % size as int;
                range.has(ip) <==> start <= v < start + size
            },
            _ => !range.has(ip),
        },
{
    match (range.addr, ip.canonical()) {
        (IpAddr::V4(a), IpAddr::V4(v)) => {
            lemma_pow2_pos((32 - range.prefix) as nat);
            lemma_same_quotient(a as int, v as int, pow2((32 - range.prefix) as nat) as int);
        },
        (IpAddr::V6(a), IpAddr::V6(v)) => {
            lemma_pow2_pos((128 - range.prefix) as nat);
            lemma_same_quotient(a as int, v as int, pow2((128 - range.prefix) as nat) as int);
        },
        _ => {},
    }
}

proof fn lemma_same_quotient(a: int, v: int, k: int)
    requires
        a >= 0,
        v >= 0,
        k > 0,
    ensures
        a / k == v / k <==> a - a % k <= v < a - a % k + k,
{
    lemma_fundamental_div_mod(a, k);
    lemma_fundamental_div_mod(v, k);
    lemma_mod_bound(a, k);
    lemma_mod_bound(v, k);
    let q = a / k;
    let p = v / k;
    assert(p < q ==> k * p + k <= k * q) by (nonlinear_arith)
        requires
            k > 0,
    ;
    assert(p > q ==> k * p >= k * q + k) by (nonlinear_arith)
        requires
            k > 0,
    ;
}

/// A range is an address, by itself or with the length of a prefix behind a slash, which is at
/// most 32 for IPv4 and 128 for IPv6. Everything else is refused, and a mapped address too.
pub proof fn law_how_ranges_are_written(addr: IpAddr, n: nat)
    ensures
        ({
            let max = match addr {
                IpAddr::V4(_) => 32nat,
                IpAddr::V6(_) => 128nat,
            };
            let bare = addr.spec_text();
            let cidr = addr.spec_text() + seq!['/'] + text::decimal(n);
            let mapped = addr.canonical() != addr;
            &&& !mapped ==> client_addr::range_of(bare) == Ok::<IpRange, RangeFault>(
                IpRange { addr, prefix: max as u8 },
            )
            &&& !mapped && n <= max ==> client_addr::range_of(cidr) == Ok::<IpRange, RangeFault>(
                IpRange { addr, prefix: n as u8 },
            )
            &&& !mapped && n > max ==> client_addr::range_of(cidr) == Err::<IpRange, RangeFault>(
                RangeFault::Prefix { max },
            )
            &&& mapped ==> client_addr::range_of(bare) == Err::<IpRange, RangeFault>(
                RangeFault::Mapped,
            ) && client_addr::range_of(cidr) == Err::<IpRange, RangeFault>(RangeFault::Mapped)
        }),
{
    let bare = addr.spec_text();
    let prefix = text::decimal(n);
    let cidr = bare + seq!['/'] + prefix;
    ip_laws::law_addresses_are_read_back(addr);
    lemma_read_text(bare);
    ip_laws::lemma_nothing_to_trim(bare);
    ip_laws::lemma_decimal_clean(n);
    ip_laws::lemma_nothing_to_trim(prefix);
    text_laws::law_reading_numbers(prefix, n, 255);
    assert(!bare.contains('/')) by {
        assert forall|j: int| 0 <= j < bare.len() implies bare[j] != '/' by {
            assert(ip_laws::is_addr_char(bare[j]));
        }
    }
    text_laws::law_cutting_at_the_first(bare, '/', bare, bare);
    text_laws::law_cutting_at_the_first(cidr, '/', bare, prefix);
}

/// A text is refused as a range where what stands before the slash is no address, or what stands
/// behind it is no number; white space around either does not matter.
pub proof fn law_refused_ranges(addr: Seq<char>, prefix: Seq<char>)
    requires
        !addr.contains('/'),
    ensures
        ip::ip_of(text::trimmed(addr)) is None ==> client_addr::range_of(addr) == Err::<
            IpRange,
            RangeFault,
        >(RangeFault::NotAddress) && client_addr::range_of(addr + seq!['/'] + prefix) == Err::<
            IpRange,
            RangeFault,
        >(RangeFault::NotAddress),
        ip::ip_of(text::trimmed(addr)) is Some && text::parse_unsigned(
            text::trimmed(prefix),
            255,
        ) is None ==> client_addr::range_of(addr + seq!['/'] + prefix) is Err,
        client_addr::range_of(text::trimmed(addr)) == client_addr::range_of(addr),
        client_addr::range_of(text::trimmed(addr) + seq!['/'] + text::trimmed(prefix))
            == client_addr::range_of(addr + seq!['/'] + prefix),
{
    text_laws::law_cutting_at_the_first(addr, '/', addr, addr);
    text_laws::law_cutting_at_the_first(addr + seq!['/'] + prefix, '/', addr, prefix);
    let a = text::trimmed(addr);
    let p = text::trimmed(prefix);
    let (i, j) = text_laws::law_trimming_takes_white_space_off_both_ends(addr);
    assert(!a.contains('/')) by {
        if a.contains('/') {
            let k = a.index_of('/');
            assert(addr[i + k] == '/');
        }
    }
    text_laws::law_cutting_at_the_first(a, '/', a, a);
    text_laws::law_cutting_at_the_first(a + seq!['/'] + p, '/', a, p);
    text_laws::law_trimming_again_changes_nothing(addr);
    text_laws::law_trimming_again_changes_nothing(prefix);
}

/// The ranges are written one after another, with a comma and a space between each two.
pub proof fn law_ranges_are_listed(a: Seq<IpRange>, b: Seq<IpRange>, range: IpRange)
    requires
        a.len() > 0,
        b.len() > 0,
    ensures
        client_addr::ranges_text(seq![range]) == range.addr.spec_text() + seq!['/'] + text::decimal(
            range.prefix as nat,
        ),
        client_addr::ranges_text(a + b) == client_addr::ranges_text(a) + seq![',', ' ']
            + client_addr::ranges_text(b),
    decreases b.len(),
{
    reveal_strlit(", ");
    assert(", "@ =~= seq![',', ' ']);
    assert((a + b).drop_last() =~= a + b.drop_last());
    if b.len() == 1 {
        assert(a + b.drop_last() =~= a);
    } else {
        law_ranges_are_listed(a, b.drop_last(), range);
        assert(client_addr::ranges_text(a + b) =~= client_addr::ranges_text(a) + seq![',', ' ']
            + client_addr::ranges_text(b));
    }
}

} // verus!
