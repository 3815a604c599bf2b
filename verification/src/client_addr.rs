//! Where a connection really came from.
//!
//! Behind a reverse proxy every connection arrives from the proxy, so the logs would show the
//! proxy's address for every client. The proxy passes the client's address on in
//! `X-Forwarded-For`, but any client can send that header itself, so it is believed only when the
//! connection comes from a *trusted proxy*, and then only the part that trusted proxies added: the
//! header is read from the right, skipping the trusted proxies' own addresses, and the first other
//! address is the client. Whatever a client puts to the left of that cannot change the outcome.
use crate::codec;
use crate::http;
use crate::http::RawHead;
use crate::ip;
use crate::ip::{IpAddr, SocketAddr};
use crate::text;
use vstd::arithmetic::power2::*;
use vstd::prelude::*;
use vstd::slice::slice_subrange;

verus! {

pub const MAX_HEADERS: usize = 64;

pub const FORWARDED_FOR: &'static str = "x-forwarded-for";

// ---------------------------------------------------------------------------------------------
// Ranges
// ---------------------------------------------------------------------------------------------

/// An IP address range: a single address, or a CIDR block such as `10.0.0.0/8`.
#[derive(Debug, Clone, Copy, PartialEq, Eq, Structural)]
pub struct IpRange {
    pub addr: IpAddr,
    pub prefix: u8,
}

/// How many bits the addresses of a family have.
pub open spec fn family_bits(addr: IpAddr) -> nat {
    if addr is V4 {
        32
    } else {
        128
    }
}

impl IpRange {
    /// The prefix is no longer than the address.
    pub open spec fn wf(self) -> bool {
        self.prefix <= family_bits(self.addr)
    }

    /// The address is in the range: it is of the same family, and its first `prefix` bits are
    /// those of the range. An IPv4-mapped address counts as the IPv4 address that it maps.
    pub open spec fn has(self, ip: IpAddr) -> bool {
        match (self.addr, ip.canonical()) {
            (IpAddr::V4(network), IpAddr::V4(v)) => network as nat / pow2((32 - self.prefix) as nat)
                == v as nat / pow2((32 - self.prefix) as nat),
            (IpAddr::V6(network), IpAddr::V6(v)) => network as nat / pow2(
                (128 - self.prefix) as nat,
            ) == v as nat / pow2((128 - self.prefix) as nat),
            _ => false,
        }
    }

    /// The written form of the range.
    pub open spec fn spec_text(self) -> Seq<char> {
        self.addr.spec_text() + seq!['/'] + text::decimal(self.prefix as nat)
    }

    /// The loopback addresses, where a reverse proxy on the same host connects from.
    pub fn loopback() -> (r: Vec<IpRange>)
        ensures
            r@ == seq![
                IpRange { addr: IpAddr::V4(0x7f00_0000), prefix: 8 },
                IpRange { addr: IpAddr::V6(1), prefix: 128 },
            ],
    {
        let r: Vec<IpRange> = vec![
            IpRange { addr: IpAddr::V4(0x7f00_0000), prefix: 8 },
            IpRange { addr: IpAddr::V6(1), prefix: 128 },
        ];
        assert(r@ =~= seq![
            IpRange { addr: IpAddr::V4(0x7f00_0000), prefix: 8 },
            IpRange { addr: IpAddr::V6(1), prefix: 128 },
        ]);
        r
    }

    /// Whether an address is in the range.
    pub fn contains(&self, ip: IpAddr) -> (r: bool)
        requires
            self.wf(),
        ensures
            r == self.has(ip),
    {
        // A dual-stack listener reports IPv4 peers as IPv4-mapped IPv6 addresses.
        match (self.addr, ip.to_canonical()) {
            (IpAddr::V4(network), IpAddr::V4(v)) => {
                proof {
                    lemma_pow2_widths();
                }
                if self.prefix == 0 {
                    assert(network as nat / pow2(32) == 0 && v as nat / pow2(32) == 0);
                    return true;
                }
                let shift: u32 = 32 - self.prefix as u32;
                proof {
                    vstd::bits::lemma_u32_shr_is_div(network, shift);
                    vstd::bits::lemma_u32_shr_is_div(v, shift);
                }
                network >> shift == v >> shift
            },
            (IpAddr::V6(network), IpAddr::V6(v)) => {
                proof {
                    lemma_pow2_widths();
                }
                if self.prefix == 0 {
                    assert(network as nat / pow2(128) == 0 && v as nat / pow2(128) == 0);
                    return true;
                }
                let shift: u128 = 128 - self.prefix as u128;
                proof {
                    vstd::bits::lemma_u128_shr_is_div(network, shift);
                    vstd::bits::lemma_u128_shr_is_div(v, shift);
                }
                network >> shift == v >> shift
            },
            _ => false,
        }
    }

    /// Parses an address or a CIDR range.
    pub fn from_str(input: &str) -> (r: Result<IpRange, String>)
        ensures
            match r {
                Ok(range) => range_of(input@) == Ok::<IpRange, RangeFault>(range) && range.wf(),
                Err(message) => range_of(input@) is Err && message@ == range_of(
                    input@,
                )->Err_0.text(input@),
            },
    {
        let chars = text::chars_of(input);
        let slash: usize = text::find(&chars, '/');
        let addr = slice_subrange(&chars, 0, slash);
        proof {
            assert(addr@ =~= if slash < chars@.len() {
                chars@.take(slash as int)
            } else {
                chars@
            });
        }
        let addr = match ip::read_ip(text::trim(addr)) {
            Some(addr) => addr,
            None => {
                return Err(
                    text::quote(input).concat(" is not an IP address or a CIDR range"),
                );
            },
        };
        if addr.to_canonical() != addr {
            return Err(
                text::quote(input).concat(
                    " is an IPv4-mapped IPv6 address; write the IPv4 address instead",
                ),
            );
        }
        let max: u8 = if addr.is_ipv4() {
            32
        } else {
            128
        };
        if slash == chars.len() {
            return Ok(IpRange { addr, prefix: max });
        }
        let prefix = slice_subrange(&chars, slash + 1, chars.len());
        assert(prefix@ =~= chars@.skip(slash + 1));
        match text::read_unsigned(text::trim(prefix), 255) {
            Some(n) => if n <= max as u64 {
                return Ok(IpRange { addr, prefix: n as u8 });
            },
            None => {},
        }
        Err(
            "invalid prefix length in ".to_owned().concat(text::quote(input).as_str()).concat(
                ", expected 0-",
            ).concat(text::decimal_string(max as u64).as_str()),
        )
    }

    /// The written form of the range.
    pub fn to_text(&self) -> (r: String)
        ensures
            r@ == self.spec_text(),
    {
        let mut out = self.addr.to_text();
        out.push('/');
        out.append(text::decimal_string(self.prefix as u64).as_str());
        assert(out@ =~= self.spec_text());
        out
    }
}

/// The sizes of the two address families.
proof fn lemma_pow2_widths()
    ensures
        pow2(32) == 0x1_0000_0000,
        pow2(128) == 0x1_0000_0000_0000_0000_0000_0000_0000_0000,
{
    lemma2_to64();
    lemma_pow2_adds(64, 64);
    assert(pow2(64) * pow2(64) == 0x1_0000_0000_0000_0000_0000_0000_0000_0000) by (nonlinear_arith)
        requires
            pow2(64) == 0x1_0000_0000_0000_0000,
    ;
}

/// Why a text is not a range.
pub enum RangeFault {
    NotAddress,
    Mapped,
    Prefix { max: nat },
}

impl RangeFault {
    /// What is said of the text `input`.
    pub open spec fn text(self, input: Seq<char>) -> Seq<char> {
        match self {
            RangeFault::NotAddress => text::quoted(input)
                + " is not an IP address or a CIDR range"@,
            RangeFault::Mapped => text::quoted(input)
                + " is an IPv4-mapped IPv6 address; write the IPv4 address instead"@,
            RangeFault::Prefix { max } => "invalid prefix length in "@ + text::quoted(input)
                + ", expected 0-"@ + text::decimal(max),
        }
    }
}

/// The range that `input` stands for: an address, which a prefix length may follow.
pub open spec fn range_of(input: Seq<char>) -> Result<IpRange, RangeFault> {
    let (addr, prefix) = match text::split_once(input, '/') {
        Some((addr, prefix)) => (addr, Some(prefix)),
        None => (input, None),
    };
    match ip::ip_of(text::trimmed(addr)) {
        None => Err(RangeFault::NotAddress),
        Some(addr) => {
            let max = family_bits(addr);
            if addr.canonical() != addr {
                Err(RangeFault::Mapped)
            } else {
                match prefix {
                    None => Ok(IpRange { addr, prefix: max as u8 }),
                    Some(prefix) => match text::parse_unsigned(text::trimmed(prefix), 255) {
                        Some(n) => if n <= max {
                            Ok(IpRange { addr, prefix: n as u8 })
                        } else {
                            Err(RangeFault::Prefix { max })
                        },
                        None => Err(RangeFault::Prefix { max }),
                    },
                }
            }
        },
    }
}

/// A bare address is a range of one.
pub proof fn law_a_full_prefix_is_a_range_of_one(range: IpRange, ip: IpAddr)
    requires
        range.prefix == family_bits(range.addr),
    ensures
        range.has(ip) <==> ip.canonical() == range.addr,
{
    lemma2_to64();
    assert((family_bits(range.addr) - range.prefix) as nat == 0);
    assert(pow2(0) == 1);
}

/// Without a prefix length an address stands for itself alone.
pub proof fn law_a_bare_address_stands_for_itself(input: Seq<char>, ip: IpAddr)
    requires
        range_of(input) is Ok,
        text::split_once(input, '/') is None,
    ensures
        range_of(input)->Ok_0.has(ip) <==> Some(ip.canonical()) == ip::ip_of(text::trimmed(input)),
{
    law_a_full_prefix_is_a_range_of_one(range_of(input)->Ok_0, ip);
}

/// Host bits in a range are ignored: the range around any of its addresses, with the same
/// prefix, holds the same addresses.
pub proof fn law_host_bits_are_ignored(range: IpRange, member: IpAddr, ip: IpAddr)
    requires
        range.has(member),
    ensures
        (IpRange { addr: member.canonical(), prefix: range.prefix }).has(ip) == range.has(ip),
{
}

/// Families never match each other.
pub proof fn law_families_never_match(range: IpRange, ip: IpAddr)
    requires
        range.has(ip),
    ensures
        range.addr is V4 <==> ip.canonical() is V4,
{
}

/// IPv4 peers of a dual-stack listener match IPv4 ranges.
pub proof fn law_mapped_addresses_match_as_ipv4(range: IpRange, ip: IpAddr)
    ensures
        range.has(ip) == range.has(ip.canonical()),
        ip.canonical().canonical() == ip.canonical(),
{
}

/// A prefix of no bits holds every address of the family.
pub proof fn law_an_empty_prefix_holds_the_family(range: IpRange, ip: IpAddr)
    requires
        range.prefix == 0,
        range.addr is V4 <==> ip.canonical() is V4,
    ensures
        range.has(ip),
{
    lemma_pow2_widths();
    match (range.addr, ip.canonical()) {
        (IpAddr::V4(network), IpAddr::V4(v)) => {
            assert(network as nat / pow2(32) == 0 && v as nat / pow2(32) == 0);
        },
        (IpAddr::V6(network), IpAddr::V6(v)) => {
            assert(network as nat / pow2(128) == 0 && v as nat / pow2(128) == 0);
        },
        _ => {},
    }
}

/// Ranges that are read are well formed, and never around a mapped address.
pub proof fn law_read_ranges_are_well_formed(input: Seq<char>)
    ensures
        range_of(input) matches Ok(range) ==> range.wf() && range.addr.canonical() == range.addr,
{
}

// ---------------------------------------------------------------------------------------------
// Forwarded addresses
// ---------------------------------------------------------------------------------------------

/// What stands in brackets, where brackets are all around it.
pub open spec fn unbracketed(s: Seq<char>) -> Option<Seq<char>> {
    if s.len() >= 2 && s[0] == '[' && s.last() == ']' {
        Some(s.subrange(1, s.len() - 1))
    } else {
        None
    }
}

/// The address that an `X-Forwarded-For` entry stands for.
pub open spec fn forwarded_address(entry: Seq<char>) -> Option<IpAddr> {
    match ip::ip_of(entry) {
        Some(addr) => Some(addr.canonical()),
        None => match ip::socket_of(entry) {
            Some(addr) => Some(addr.ip.canonical()),
            None => match unbracketed(entry) {
                Some(inner) => match ip::ip_of(inner) {
                    Some(addr) => Some(addr.canonical()),
                    None => None,
                },
                None => None,
            },
        },
    }
}

/// An `X-Forwarded-For` entry: an IP address, possibly with a port (`1.2.3.4:5678`,
/// `[2001:db8::1]:443`) or in brackets (`[2001:db8::1]`).
pub fn parse_forwarded_address(entry: &str) -> (r: Option<IpAddr>)
    ensures
        r == forwarded_address(entry@),
{
    let chars = text::chars_of(entry);
    match ip::read_ip(&chars) {
        Some(addr) => return Some(addr.to_canonical()),
        None => {},
    }
    match ip::read_socket(&chars) {
        Some(addr) => return Some(addr.ip.to_canonical()),
        None => {},
    }
    if chars.len() >= 2 && chars[0] == '[' && chars[chars.len() - 1] == ']' {
        let inner = slice_subrange(&chars, 1, chars.len() - 1);
        match ip::read_ip(inner) {
            Some(addr) => Some(addr.to_canonical()),
            None => None,
        }
    } else {
        None
    }
}

/// The trimmed parts that are not empty.
pub open spec fn filled(parts: Seq<Seq<char>>) -> Seq<Seq<char>>
    decreases parts.len(),
{
    if parts.len() == 0 {
        Seq::empty()
    } else if text::trimmed(parts.last()).len() == 0 {
        filled(parts.drop_last())
    } else {
        filled(parts.drop_last()).push(text::trimmed(parts.last()))
    }
}

/// The entries of one header: those of an `X-Forwarded-For` that is text, between its commas.
pub open spec fn header_entries(name: Seq<char>, value: Seq<u8>) -> Seq<Seq<char>> {
    if text::lowered(name) != text::lowered(FORWARDED_FOR@) {
        Seq::empty()
    } else {
        match codec::utf8_text(value) {
            Some(value) => filled(text::split(value, ',')),
            None => Seq::empty(),
        }
    }
}

/// The `X-Forwarded-For` entries of a head. Several header lines count as one comma-separated
/// list, in order.
pub open spec fn forwarded_entries(headers: Seq<(Seq<char>, Seq<u8>)>) -> Seq<Seq<char>>
    decreases headers.len(),
{
    if headers.len() == 0 {
        Seq::empty()
    } else {
        forwarded_entries(headers.drop_last()) + header_entries(headers.last().0, headers.last().1)
    }
}

/// The trimmed parts that are not empty.
fn fill(parts: &Vec<Vec<char>>) -> (r: Vec<String>)
    ensures
        text::strings(r@) == filled(text::texts(parts@)),
{
    let ghost all = text::texts(parts@);
    let mut out: Vec<String> = Vec::new();
    let mut i: usize = 0;
    proof {
        assert(all.take(0) =~= Seq::empty());
        assert(text::strings(out@) =~= Seq::empty());
    }
    while i < parts.len()
        invariant
            i <= parts@.len(),
            all == text::texts(parts@),
            text::strings(out@) == filled(all.take(i as int)),
        decreases parts.len() - i,
    {
        let ghost before = text::strings(out@);
        proof {
            let t = all.take(i + 1);
            assert(t.drop_last() =~= all.take(i as int));
            assert(t.last() == parts@[i as int]@);
        }
        let entry = text::trim(&parts[i]);
        if entry.len() > 0 {
            out.push(text::string_of(entry));
            assert(text::strings(out@) =~= before.push(entry@));
        }
        i += 1;
    }
    assert(all.take(all.len() as int) =~= all);
    out
}

/// The entries of one header.
fn entries_of_header(name: &str, value: &[u8]) -> (r: Vec<String>)
    ensures
        text::strings(r@) == header_entries(name@, value@),
{
    let none: Vec<String> = Vec::new();
    assert(text::strings(none@) =~= Seq::empty());
    if !text::eq_ignore_ascii_case(name, FORWARDED_FOR) {
        return none;
    }
    match codec::utf8_string(value) {
        Some(value) => fill(&text::split_chars(&text::chars_of(value.as_str()), ',')),
        None => none,
    }
}

/// The `X-Forwarded-For` entries of a head.
pub fn entries_of_head(raw: &RawHead) -> (r: Vec<String>)
    ensures
        text::strings(r@) == forwarded_entries(raw@.2),
{
    let ghost all = raw@.2;
    let mut out: Vec<String> = Vec::new();
    let mut i: usize = 0;
    proof {
        assert(all.take(0) =~= Seq::empty());
        assert(text::strings(out@) =~= Seq::empty());
    }
    while i < raw.headers.len()
        invariant
            i <= raw.headers@.len(),
            all == http::raw_headers(raw.headers@),
            text::strings(out@) == forwarded_entries(all.take(i as int)),
        decreases raw.headers.len() - i,
    {
        let ghost before = text::strings(out@);
        proof {
            let t = all.take(i + 1);
            assert(t.drop_last() =~= all.take(i as int));
            assert(t.last() == (raw.headers@[i as int].0@, raw.headers@[i as int].1@));
        }
        let mut entries = entries_of_header(
            raw.headers[i].0.as_str(),
            raw.headers[i].1.as_slice(),
        );
        let ghost added = text::strings(entries@);
        out.append(&mut entries);
        assert(text::strings(out@) =~= before + added);
        i += 1;
    }
    assert(all.take(all.len() as int) =~= all);
    out
}

// ---------------------------------------------------------------------------------------------
// Trusted proxies
// ---------------------------------------------------------------------------------------------

/// The proxies whose `X-Forwarded-For` is believed.
#[derive(Debug, Clone)]
pub struct TrustedProxies {
    pub ranges: Vec<IpRange>,
}

/// An address is in one of the ranges.
pub open spec fn is_trusted(ranges: Seq<IpRange>, ip: IpAddr) -> bool {
    exists|i: int| 0 <= i < ranges.len() && (#[trigger] ranges[i]).has(ip)
}

/// The client among the addresses of `X-Forwarded-For` entries: the rightmost one that is not a
/// trusted proxy.
///
/// When every entry is a trusted proxy, the leftmost is the best there is. An entry that is not
/// an address stops the search: the header cannot be understood, so it is not used.
pub open spec fn rightmost_client(ranges: Seq<IpRange>, addrs: Seq<Option<IpAddr>>) -> Option<
    IpAddr,
>
    decreases addrs.len(),
{
    if addrs.len() == 0 {
        None
    } else {
        match addrs.last() {
            None => None,
            Some(ip) => if !is_trusted(ranges, ip) || addrs.len() == 1 {
                Some(ip)
            } else {
                rightmost_client(ranges, addrs.drop_last())
            },
        }
    }
}

/// The addresses that entries stand for.
pub open spec fn addresses(entries: Seq<Seq<char>>) -> Seq<Option<IpAddr>> {
    entries.map_values(|entry: Seq<char>| forwarded_address(entry))
}

/// The client among `X-Forwarded-For` entries.
pub open spec fn selected(ranges: Seq<IpRange>, entries: Seq<Seq<char>>) -> Option<IpAddr> {
    rightmost_client(ranges, addresses(entries))
}

/// The client that a parsed head names.
pub open spec fn forwarded_in(ranges: Seq<IpRange>, raw: Option<http::RawView>) -> Option<IpAddr> {
    match raw {
        Some(raw) => selected(ranges, forwarded_entries(raw.2)),
        None => None,
    }
}

/// The written form of ranges.
pub open spec fn ranges_text(ranges: Seq<IpRange>) -> Seq<char>
    decreases ranges.len(),
{
    if ranges.len() == 0 {
        Seq::empty()
    } else if ranges.len() == 1 {
        ranges[0].spec_text()
    } else {
        ranges_text(ranges.drop_last()) + ", "@ + ranges.last().spec_text()
    }
}

/// Texts, by their contents.
pub open spec fn str_views(entries: Seq<&str>) -> Seq<Seq<char>> {
    entries.map_values(|s: &str| s@)
}

impl TrustedProxies {
    /// Each range is well formed.
    pub open spec fn wf(self) -> bool {
        forall|i: int| 0 <= i < self.ranges@.len() ==> (#[trigger] self.ranges@[i]).wf()
    }

    pub fn new(ranges: Vec<IpRange>) -> (r: Self)
        ensures
            r.ranges == ranges,
    {
        TrustedProxies { ranges }
    }

    /// Whether an address is a trusted proxy.
    pub fn contains(&self, ip: IpAddr) -> (r: bool)
        requires
            self.wf(),
        ensures
            r == is_trusted(self.ranges@, ip),
    {
        let mut i: usize = 0;
        while i < self.ranges.len()
            invariant
                i <= self.ranges@.len(),
                self.wf(),
                forall|j: int| 0 <= j < i ==> !(#[trigger] self.ranges@[j]).has(ip),
            decreases self.ranges.len() - i,
        {
            let range: IpRange = self.ranges[i];
            if range.contains(ip) {
                assert(self.ranges@[i as int].has(ip));
                return true;
            }
            i += 1;
        }
        false
    }

    /// The address to report for a connection from `peer` that sent the request `head`.
    pub fn client_addr(&self, peer: SocketAddr, head: &[u8]) -> (r: ClientAddr)
        requires
            self.wf(),
        ensures
            r.peer == peer,
            r.forwarded == (if is_trusted(self.ranges@, peer.ip) {
                forwarded_in(self.ranges@, http::parsed_head(head@, MAX_HEADERS as nat))
            } else {
                None
            }),
    {
        let forwarded = if self.contains(peer.ip) {
            self.forwarded_client(head)
        } else {
            None
        };
        ClientAddr { peer, forwarded }
    }

    /// The client that a request head names.
    pub fn forwarded_client(&self, head: &[u8]) -> (r: Option<IpAddr>)
        requires
            self.wf(),
        ensures
            r == forwarded_in(self.ranges@, http::parsed_head(head@, MAX_HEADERS as nat)),
    {
        match http::parse_head(head, MAX_HEADERS) {
            Some(raw) => self.client_in_head(&raw),
            None => None,
        }
    }

    /// The client that a parsed request head names.
    pub fn client_in_head(&self, raw: &RawHead) -> (r: Option<IpAddr>)
        requires
            self.wf(),
        ensures
            r == forwarded_in(self.ranges@, Some(raw@)),
    {
        let entries = entries_of_head(raw);
        let mut refs: Vec<&str> = Vec::new();
        let mut i: usize = 0;
        while i < entries.len()
            invariant
                i <= entries@.len(),
                refs@.len() == i,
                forall|j: int| 0 <= j < i ==> (#[trigger] refs@[j])@ == entries@[j]@,
            decreases entries.len() - i,
        {
            refs.push(entries[i].as_str());
            i += 1;
        }
        assert(str_views(refs@) =~= text::strings(entries@));
        self.select_client(&refs)
    }

    /// The client among `X-Forwarded-For` entries: the rightmost one that is not a trusted proxy.
    ///
    /// Each proxy appends the address it received the request from, so the rightmost entries
    /// were written by our own proxies and the ones further left by whoever sent the request.
    /// When every entry is a trusted proxy, the leftmost is the best there is. An entry that is
    /// not an address stops the search: the header cannot be understood, so it is not used.
    pub fn select_client(&self, entries: &[&str]) -> (r: Option<IpAddr>)
        requires
            self.wf(),
        ensures
            r == selected(self.ranges@, str_views(entries@)),
    {
        let ghost all = addresses(str_views(entries@));
        let mut i: usize = entries.len();
        assert(all.take(i as int) =~= all);
        while i > 0
            invariant
                i <= entries@.len(),
                all == addresses(str_views(entries@)),
                self.wf(),
                rightmost_client(self.ranges@, all) == rightmost_client(
                    self.ranges@,
                    all.take(i as int),
                ),
            decreases i,
        {
            proof {
                assert(all.take(i as int).last() == forwarded_address(entries@[i - 1]@));
                assert(all.take(i as int).drop_last() =~= all.take(i - 1));
            }
            i -= 1;
            match parse_forwarded_address(entries[i]) {
                None => return None,
                Some(ip) => {
                    if !self.contains(ip) || i == 0 {
                        return Some(ip);
                    }
                },
            }
        }
        None
    }

    /// The written form of the ranges.
    pub fn to_text(&self) -> (r: String)
        ensures
            r@ == (if self.ranges@.len() == 0 {
                "none"@
            } else {
                ranges_text(self.ranges@)
            }),
    {
        if self.ranges.len() == 0 {
            return "none".to_owned();
        }
        let mut out = String::new();
        let mut i: usize = 0;
        assert(self.ranges@.take(0) =~= Seq::empty());
        while i < self.ranges.len()
            invariant
                i <= self.ranges@.len(),
                out@ == ranges_text(self.ranges@.take(i as int)),
            decreases self.ranges.len() - i,
        {
            let ghost before = out@;
            proof {
                let t = self.ranges@.take(i + 1);
                assert(t.drop_last() =~= self.ranges@.take(i as int));
                assert(t.last() == self.ranges@[i as int]);
            }
            if i > 0 {
                out.append(", ");
            }
            out.append(self.ranges[i].to_text().as_str());
            assert(i == 0 ==> out@ =~= self.ranges@[i as int].spec_text());
            i += 1;
        }
        assert(self.ranges@.take(self.ranges@.len() as int) =~= self.ranges@);
        out
    }
}

impl Default for TrustedProxies {
    /// Nobody is trusted.
    fn default() -> (r: Self)
        ensures
            r.ranges@ == Seq::<IpRange>::empty(),
    {
        TrustedProxies { ranges: Vec::new() }
    }
}

/// The address of a trusted proxy, which the search passes.
pub open spec fn is_passed(ranges: Seq<IpRange>, addr: Option<IpAddr>) -> bool {
    addr matches Some(ip) && is_trusted(ranges, ip)
}

/// A client cannot forge the address by prepending entries: whatever stands further left, the
/// outcome is the same, unless the entries to the right are all trusted proxies.
pub proof fn law_prepended_entries_cannot_change_the_outcome(
    ranges: Seq<IpRange>,
    prepended: Seq<Seq<char>>,
    entries: Seq<Seq<char>>,
)
    requires
        exists|i: int|
            0 <= i < entries.len() && !is_passed(ranges, #[trigger] addresses(entries)[i]),
    ensures
        selected(ranges, prepended + entries) == selected(ranges, entries),
{
    assert(addresses(prepended + entries) =~= addresses(prepended) + addresses(entries));
    lemma_prepended(ranges, addresses(prepended), addresses(entries));
}

/// What stands to the left of where the search stops does not matter.
proof fn lemma_prepended(
    ranges: Seq<IpRange>,
    prepended: Seq<Option<IpAddr>>,
    addrs: Seq<Option<IpAddr>>,
)
    requires
        exists|i: int| 0 <= i < addrs.len() && !is_passed(ranges, #[trigger] addrs[i]),
    ensures
        rightmost_client(ranges, prepended + addrs) == rightmost_client(ranges, addrs),
    decreases addrs.len(),
{
    let all = prepended + addrs;
    assert(all.last() == addrs.last());
    if is_passed(ranges, addrs.last()) {
        let i = choose|i: int| 0 <= i < addrs.len() && !is_passed(ranges, #[trigger] addrs[i]);
        assert(i < addrs.len() - 1);
        assert(addrs.drop_last()[i] == addrs[i]);
        assert(all.drop_last() =~= prepended + addrs.drop_last());
        lemma_prepended(ranges, prepended, addrs.drop_last());
    }
}

/// The selected client is the address of one of the entries, and every entry to its right is a
/// trusted proxy.
pub proof fn law_the_rightmost_untrusted_entry_is_selected(
    ranges: Seq<IpRange>,
    addrs: Seq<Option<IpAddr>>,
) -> (n: int)
    requires
        rightmost_client(ranges, addrs) is Some,
    ensures
        0 <= n < addrs.len(),
        addrs[n] == rightmost_client(ranges, addrs),
        forall|j: int| n < j < addrs.len() ==> is_passed(ranges, #[trigger] addrs[j]),
        is_passed(ranges, addrs[n]) ==> n == 0,
    decreases addrs.len(),
{
    let last = addrs.len() - 1;
    let front = addrs.drop_last();
    if is_passed(ranges, addrs[last]) && addrs.len() > 1 {
        let n = law_the_rightmost_untrusted_entry_is_selected(ranges, front);
        assert(front[n] == addrs[n]);
        assert forall|j: int| n < j < addrs.len() implies is_passed(
            ranges,
            #[trigger] addrs[j],
        ) by {
            if j < last {
                assert(front[j] == addrs[j]);
            }
        }
        n
    } else {
        last
    }
}

/// Nobody's header is believed when nobody is trusted.
pub proof fn law_nobody_is_trusted_by_an_empty_list(ip: IpAddr)
    ensures
        !is_trusted(Seq::empty(), ip),
{
}

// ---------------------------------------------------------------------------------------------
// The reported address
// ---------------------------------------------------------------------------------------------

/// The address a connection is reported under in the logs.
#[derive(Debug, Clone, Copy, PartialEq, Eq, Structural)]
pub struct ClientAddr {
    /// Who connected to us: the client, or the reverse proxy in front of it.
    pub peer: SocketAddr,
    /// The client behind a trusted proxy, from `X-Forwarded-For`.
    pub forwarded: Option<IpAddr>,
}

impl ClientAddr {
    /// A client that connected itself.
    pub fn from(peer: SocketAddr) -> (r: ClientAddr)
        ensures
            r == (ClientAddr { peer, forwarded: None }),
    {
        ClientAddr { peer, forwarded: None }
    }

    /// The client's IP address when a trusted proxy reported it (the port of the proxy's
    /// connection would say nothing about the client), else the peer's socket address, as always.
    pub fn to_text(&self) -> (r: String)
        ensures
            r@ == (match self.forwarded {
                Some(ip) => ip.spec_text(),
                None => self.peer.spec_text(),
            }),
    {
        match self.forwarded {
            Some(ip) => ip.to_text(),
            None => self.peer.to_text(),
        }
    }
}

} // verus!
