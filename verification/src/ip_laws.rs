//! Addresses and ranges are read back as they are written.
use crate::client_addr;
use crate::client_addr::IpRange;
use crate::ip;
use crate::ip::{IpAddr, SocketAddr};
use crate::text;
use vstd::prelude::*;

verus! {

// ---------------------------------------------------------------------------------------------
// Splitting
// ---------------------------------------------------------------------------------------------

/// A text without the separator is one part.
pub proof fn lemma_split_whole(s: Seq<char>, c: char)
    requires
        !s.contains(c),
    ensures
        text::split(s, c) == seq![s],
{
    text::lemma_first(s, c);
    if text::first(s, c) < s.len() {
        assert(s.contains(s[text::first(s, c)]));
    }
}

/// The part before the first separator, and the parts after it.
pub proof fn lemma_split_front(a: Seq<char>, b: Seq<char>, c: char)
    requires
        !a.contains(c),
    ensures
        text::split(a + seq![c] + b, c) == seq![a] + text::split(b, c),
{
    let s = a + seq![c] + b;
    assert forall|j: int| 0 <= j < a.len() implies s[j] != c by {
        assert(s[j] == a[j]);
        if a[j] == c {
            assert(a.contains(c));
        }
    }
    assert(s[a.len() as int] == c);
    text::lemma_first_unique(s, c, a.len() as int);
    assert(s.take(a.len() as int) =~= a);
    assert(s.skip(a.len() as int + 1) =~= b);
}

/// The parts before the last separator, and the part after it.
pub proof fn lemma_split_back(a: Seq<char>, b: Seq<char>, c: char)
    requires
        !b.contains(c),
    ensures
        text::split(a + seq![c] + b, c) == text::split(a, c).push(b),
    decreases a.len(),
{
    text::lemma_first(a, c);
    let i = text::first(a, c);
    if i < a.len() {
        let x = a.take(i);
        let y = a.skip(i + 1);
        assert(!x.contains(c));
        assert(a =~= x + seq![c] + y);
        assert(a + seq![c] + b =~= x + seq![c] + (y + seq![c] + b));
        lemma_split_front(x, y + seq![c] + b, c);
        lemma_split_front(x, y, c);
        lemma_split_back(y, b, c);
        assert(seq![x] + text::split(y, c).push(b) =~= (seq![x] + text::split(y, c)).push(b));
    } else {
        assert(!a.contains(c));
        lemma_split_front(a, b, c);
        lemma_split_whole(b, c);
        lemma_split_whole(a, c);
        assert(seq![a] + seq![b] =~= seq![a].push(b));
    }
}

// ---------------------------------------------------------------------------------------------
// Numbers
// ---------------------------------------------------------------------------------------------

/// The characters of written addresses.
pub open spec fn is_addr_char(c: char) -> bool {
    ip::hex_digit(c) is Some || c == ':' || c == '.'
}

/// The text is made of the characters of written addresses.
pub open spec fn is_addr_text(s: Seq<char>) -> bool {
    forall|i: int| 0 <= i < s.len() ==> is_addr_char(#[trigger] s[i])
}

/// Texts of these characters make such a text.
proof fn lemma_addr_text(a: Seq<char>, b: Seq<char>)
    requires
        is_addr_text(a),
        is_addr_text(b),
    ensures
        is_addr_text(a + b),
{
    let s = a + b;
    assert forall|i: int| 0 <= i < s.len() implies is_addr_char(#[trigger] s[i]) by {
        if i < a.len() {
            assert(s[i] == a[i]);
        } else {
            assert(s[i] == b[i - a.len()]);
        }
    }
}

/// Digits are no separators.
pub proof fn lemma_decimal_clean(n: nat)
    ensures
        !text::decimal(n).contains('.'),
        !text::decimal(n).contains(':'),
        is_addr_text(text::decimal(n)),
{
    text::lemma_decimal_round_trip(n);
    let s = text::decimal(n);
    assert forall|i: int| 0 <= i < s.len() implies (#[trigger] s[i]) != '.' && s[i] != ':'
        && is_addr_char(s[i]) by {
        assert(text::is_digit(s[i]));
    }
}

/// A number has no leading zero, and no more digits than its size asks for.
#[verifier::spinoff_prover]
pub proof fn lemma_decimal_form(n: nat)
    ensures
        text::decimal(n).len() >= 1,
        n > 0 ==> text::decimal(n)[0] != '0',
        text::decimal(n).len() > 1 ==> n >= 10,
        n < 1000 ==> text::decimal(n).len() <= 3,
    decreases n,
{
    reveal_with_fuel(text::decimal, 4);
    if n >= 10 {
        lemma_decimal_form(n / 10);
    }
}

/// A part of an IPv4 address is read back.
pub proof fn lemma_octet(n: nat)
    requires
        n <= 255,
    ensures
        ip::octet_of(text::decimal(n)) == Some(n),
{
    lemma_decimal_form(n);
    text::lemma_decimal_round_trip(n);
}

/// What a hexadecimal number looks like.
#[verifier::spinoff_prover]
pub proof fn lemma_hex_text(n: nat)
    ensures
        ip::hex_text(n).len() >= 1,
        ip::all_hex(ip::hex_text(n)),
        ip::hex_value(ip::hex_text(n)) == n,
        n < 65536 ==> ip::hex_text(n).len() <= 4,
    decreases n,
{
    reveal_with_fuel(ip::hex_text, 5);
    let s = ip::hex_text(n);
    if n < 16 {
        assert(s.drop_last() =~= Seq::<char>::empty());
        assert(ip::hex_value(Seq::<char>::empty()) == 0);
        assert(ip::hex_digit(ip::hex_char(n)) == Some(n));
    } else {
        lemma_hex_text(n / 16);
        let front = ip::hex_text(n / 16);
        assert(s.drop_last() =~= front);
        assert(ip::hex_digit(ip::hex_char(n % 16)) == Some(n % 16));
        assert forall|i: int| 0 <= i < s.len() implies ip::hex_digit(#[trigger] s[i]) is Some by {
            if i < s.len() - 1 {
                assert(s[i] == front[i]);
            }
        }
    }
}

/// A group is read back.
proof fn lemma_group(n: nat)
    requires
        n < 65536,
    ensures
        ip::group_of(ip::hex_text(n)) == Some(n),
        !ip::hex_text(n).contains(':'),
        !ip::hex_text(n).contains('.'),
        is_addr_text(ip::hex_text(n)),
{
    lemma_hex_text(n);
    let s = ip::hex_text(n);
    assert forall|i: int| 0 <= i < s.len() implies (#[trigger] s[i]) != ':' && s[i] != '.'
        && is_addr_char(s[i]) by {
        assert(ip::hex_digit(s[i]) is Some);
    }
}

// ---------------------------------------------------------------------------------------------
// IPv4
// ---------------------------------------------------------------------------------------------

/// A character that is in neither text, nor between them, is not in both together.
pub proof fn lemma_join_clean(a: Seq<char>, sep: char, b: Seq<char>, c: char)
    requires
        !a.contains(c),
        sep != c,
        !b.contains(c),
    ensures
        !(a + seq![sep] + b).contains(c),
{
    let s = a + seq![sep] + b;
    assert forall|i: int| 0 <= i < s.len() implies s[i] != c by {
        if i < a.len() {
            assert(s[i] == a[i]);
            assert(a.contains(a[i]));
        } else if i > a.len() {
            assert(s[i] == b[i - a.len() - 1]);
            assert(b.contains(b[i - a.len() - 1]));
        }
    }
}

/// The parts between dots.
pub proof fn lemma_dotted(x: Seq<char>, y: Seq<char>, z: Seq<char>, w: Seq<char>)
    requires
        !x.contains('.'),
        !y.contains('.'),
        !z.contains('.'),
        !w.contains('.'),
    ensures
        text::split(x + seq!['.'] + y + seq!['.'] + z + seq!['.'] + w, '.') == seq![x, y, z, w],
{
    let dot = seq!['.'];
    let s = x + dot + y + dot + z + dot + w;
    assert(s =~= x + dot + (y + dot + (z + dot + w)));
    lemma_split_front(x, y + dot + (z + dot + w), '.');
    lemma_split_front(y, z + dot + w, '.');
    lemma_split_front(z, w, '.');
    lemma_split_whole(w, '.');
    assert(text::split(s, '.') =~= seq![x, y, z, w]);
}

/// Four parts joined by dots are the text of an address without colons, where they are.
proof fn lemma_dotted_clean(x: Seq<char>, y: Seq<char>, z: Seq<char>, w: Seq<char>)
    requires
        !x.contains(':') && is_addr_text(x),
        !y.contains(':') && is_addr_text(y),
        !z.contains(':') && is_addr_text(z),
        !w.contains(':') && is_addr_text(w),
    ensures
        !(x + seq!['.'] + y + seq!['.'] + z + seq!['.'] + w).contains(':'),
        is_addr_text(x + seq!['.'] + y + seq!['.'] + z + seq!['.'] + w),
{
    let dot = seq!['.'];
    lemma_join_clean(x, '.', y, ':');
    lemma_join_clean(x + dot + y, '.', z, ':');
    lemma_join_clean(x + dot + y + dot + z, '.', w, ':');
    lemma_addr_text(x, dot);
    lemma_addr_text(x + dot, y);
    lemma_addr_text(x + dot + y, dot);
    lemma_addr_text(x + dot + y + dot, z);
    lemma_addr_text(x + dot + y + dot + z, dot);
    lemma_addr_text(x + dot + y + dot + z + dot, w);
}

/// An IPv4 address is read back as it is written.
#[verifier::spinoff_prover]
pub proof fn law_ipv4_is_read_back(v: nat)
    requires
        v < 0x1_0000_0000,
    ensures
        ip::ipv4_of(ip::ipv4_text(v)) == Some(v),
        !ip::ipv4_text(v).contains(':'),
        is_addr_text(ip::ipv4_text(v)),
{
    let a = v / 16777216;
    let b = v / 65536 % 256;
    let c = v / 256 % 256;
    let d = v % 256;
    let (x, y, z, w) = (text::decimal(a), text::decimal(b), text::decimal(c), text::decimal(d));
    lemma_decimal_clean(a);
    lemma_decimal_clean(b);
    lemma_decimal_clean(c);
    lemma_decimal_clean(d);
    lemma_dotted(x, y, z, w);
    lemma_dotted_clean(x, y, z, w);
    lemma_octet(a);
    lemma_octet(b);
    lemma_octet(c);
    lemma_octet(d);
    let parts = seq![x, y, z, w];
    assert(parts[0] == x && parts[1] == y && parts[2] == z && parts[3] == w);
    assert(ip::ipv4_of_parts(parts) == Some(ip::ipv4_value(a, b, c, d)));
    assert(ip::ipv4_value(a, b, c, d) == v);
}

// ---------------------------------------------------------------------------------------------
// IPv6
// ---------------------------------------------------------------------------------------------

/// All groups are numbers of 16 bits.
pub open spec fn are_groups(groups: Seq<nat>) -> bool {
    forall|i: int| 0 <= i < groups.len() ==> (#[trigger] groups[i]) < 65536
}

/// The written groups.
pub open spec fn written(groups: Seq<nat>) -> Seq<Seq<char>> {
    groups.map_values(|g: nat| ip::hex_text(g))
}

/// No two colons stand side by side, and none at an end.
pub open spec fn tidy(s: Seq<char>) -> bool {
    &&& s.len() > 0
    &&& s[0] != ':'
    &&& s.last() != ':'
    &&& forall|i: int| 0 <= i < s.len() - 1 ==> !((#[trigger] s[i]) == ':' && s[i + 1] == ':')
}

/// Groups between colons are read back.
#[verifier::spinoff_prover]
pub proof fn lemma_groups_text(groups: Seq<nat>)
    requires
        are_groups(groups),
        groups.len() > 0,
    ensures
        text::split(ip::groups_text(groups), ':') == written(groups),
        tidy(ip::groups_text(groups)),
        !ip::groups_text(groups).contains('.'),
        is_addr_text(ip::groups_text(groups)),
    decreases groups.len(),
{
    let last = groups.last();
    assert(groups[groups.len() - 1] < 65536);
    lemma_group(last);
    lemma_hex_text(last);
    let h = ip::hex_text(last);
    assert forall|i: int| 0 <= i < h.len() implies h[i] != ':' by {
        assert(h.contains(h[i]));
    }
    let s = ip::groups_text(groups);
    if groups.len() == 1 {
        assert(s == h);
        lemma_split_whole(h, ':');
        assert(written(groups) =~= seq![h]);
    } else {
        let front = groups.drop_last();
        assert forall|i: int| 0 <= i < front.len() implies (#[trigger] front[i]) < 65536 by {
            assert(front[i] == groups[i]);
        }
        lemma_groups_text(front);
        let t = ip::groups_text(front);
        assert(s =~= t + seq![':'] + h);
        lemma_split_back(t, h, ':');
        assert(written(groups) =~= written(front).push(h));
        let n = t.len() as int;
        assert(s[0] == t[0]);
        assert(s.last() == h.last());
        assert(h.last() == h[h.len() - 1]);
        assert forall|i: int| 0 <= i < s.len() - 1 implies !((#[trigger] s[i]) == ':' && s[i + 1]
            == ':') by {
            if i < n - 1 {
                assert(s[i] == t[i] && s[i + 1] == t[i + 1]);
            } else if i == n - 1 {
                assert(s[i] == t.last());
            } else {
                assert(s[i + 1] == h[i - n]);
            }
        }
        lemma_join_clean(t, ':', h, '.');
        lemma_addr_text(t, seq![':']);
        lemma_addr_text(t + seq![':'], h);
    }
}

/// Written groups are read back.
pub proof fn lemma_written(groups: Seq<nat>)
    requires
        are_groups(groups),
    ensures
        ip::hex_groups(written(groups)) == Some(groups),
        ip::mixed_groups(written(groups)) == Some(groups),
    decreases groups.len(),
{
    let parts = written(groups);
    if groups.len() == 0 {
        assert(parts =~= Seq::empty());
        assert(groups =~= Seq::empty());
    } else {
        let front = groups.drop_last();
        assert forall|i: int| 0 <= i < front.len() implies (#[trigger] front[i]) < 65536 by {
            assert(front[i] == groups[i]);
        }
        lemma_written(front);
        assert(parts.drop_last() =~= written(front));
        assert(groups[groups.len() - 1] < 65536);
        lemma_group(groups.last());
        assert(parts.last() == ip::hex_text(groups.last()));
        assert(front.push(groups.last()) =~= groups);
        lemma_split_whole(parts.last(), '.');
        assert(ip::ipv4_of(parts.last()) is None);
    }
}

/// Groups on a side of `::`, or without one, are read back; there may be none.
pub proof fn lemma_side(groups: Seq<nat>)
    requires
        are_groups(groups),
    ensures
        ip::hex_groups(ip::colon_parts(ip::groups_text(groups))) == Some(groups),
        ip::mixed_groups(ip::colon_parts(ip::groups_text(groups))) == Some(groups),
{
    lemma_written(groups);
    if groups.len() == 0 {
        assert(written(groups) =~= Seq::empty());
    } else {
        lemma_groups_text(groups);
    }
}

/// What a run of zero groups is.
proof fn lemma_zero_run(groups: Seq<nat>, i: int)
    requires
        0 <= i <= groups.len(),
    ensures
        i + ip::zero_run(groups, i) <= groups.len(),
        forall|j: int| i <= j < i + ip::zero_run(groups, i) ==> groups[j] == 0,
    decreases groups.len() - i,
{
    if i < groups.len() && groups[i] == 0 {
        lemma_zero_run(groups, i + 1);
    }
}

/// The longest run is a run of zero groups.
pub proof fn lemma_longest_run(groups: Seq<nat>, i: int)
    requires
        0 <= i <= groups.len(),
    ensures
        ({
            let (start, len) = ip::longest_run(groups, i);
            &&& i <= start
            &&& start + len <= groups.len()
            &&& forall|j: int| start <= j < start + len ==> groups[j] == 0
        }),
    decreases groups.len() - i,
{
    if i < groups.len() {
        lemma_longest_run(groups, i + 1);
        lemma_zero_run(groups, i);
    }
}

/// Where `::` stands between two texts, the first of which is tidy or empty.
pub proof fn lemma_double_colon(x: Seq<char>, y: Seq<char>)
    requires
        x.len() == 0 || tidy(x),
    ensures
        ({
            let s = x + seq![':', ':'] + y;
            &&& text::first_pair(s, ':', ':') == x.len()
            &&& s.take(x.len() as int) == x
            &&& s.skip(x.len() as int + 2) == y
        }),
{
    let s = x + seq![':', ':'] + y;
    let n = x.len() as int;
    assert forall|j: int| 0 <= j < n && j + 1 < s.len() implies !((#[trigger] s[j]) == ':' && s[j
        + 1] == ':') by {
        assert(s[j] == x[j]);
        if j + 1 < n {
            assert(s[j + 1] == x[j + 1]);
        } else {
            assert(x[j] == x.last());
        }
    }
    text::lemma_first_pair_unique(s, ':', ':', n);
    assert(s.take(n) =~= x);
    assert(s.skip(n + 2) =~= y);
}

/// Texts around `::` are the text of an address without dots, where they are.
pub proof fn lemma_double_colon_clean(x: Seq<char>, y: Seq<char>)
    requires
        !x.contains('.') && is_addr_text(x),
        !y.contains('.') && is_addr_text(y),
    ensures
        !(x + seq![':', ':'] + y).contains('.'),
        is_addr_text(x + seq![':', ':'] + y),
{
    let empty = Seq::<char>::empty();
    lemma_join_clean(x, ':', empty, '.');
    lemma_join_clean(x + seq![':'] + empty, ':', y, '.');
    assert(x + seq![':'] + empty + seq![':'] + y =~= x + seq![':', ':'] + y);
    lemma_addr_text(x, seq![':', ':']);
    lemma_addr_text(x + seq![':', ':'], y);
}

/// The text of groups, of which there may be none.
pub proof fn lemma_side_text(groups: Seq<nat>)
    requires
        are_groups(groups),
    ensures
        ip::groups_text(groups).len() == 0 || tidy(ip::groups_text(groups)),
        !ip::groups_text(groups).contains('.'),
        is_addr_text(ip::groups_text(groups)),
{
    if groups.len() > 0 {
        lemma_groups_text(groups);
    }
}

/// Groups with a run of zeros left out are read back.
proof fn lemma_with_gap(groups: Seq<nat>, start: int, len: nat)
    requires
        are_groups(groups),
        groups.len() == 8,
        0 <= start,
        start + len <= 8,
        len >= 2,
        forall|j: int| start <= j < start + len ==> groups[j] == 0,
    ensures
        ip::ipv6_groups_of(
            ip::groups_text(groups.take(start)) + seq![':', ':'] + ip::groups_text(
                groups.skip(start + len),
            ),
        ) == Some(groups),
        !(ip::groups_text(groups.take(start)) + seq![':', ':'] + ip::groups_text(
            groups.skip(start + len),
        )).contains('.'),
        is_addr_text(
            ip::groups_text(groups.take(start)) + seq![':', ':'] + ip::groups_text(
                groups.skip(start + len),
            ),
        ),
{
    let front = groups.take(start);
    let back = groups.skip(start + len);
    assert forall|i: int| 0 <= i < front.len() implies (#[trigger] front[i]) < 65536 by {
        assert(front[i] == groups[i]);
    }
    assert forall|i: int| 0 <= i < back.len() implies (#[trigger] back[i]) < 65536 by {
        assert(back[i] == groups[start + len + i]);
    }
    lemma_side(front);
    lemma_side(back);
    lemma_side_text(front);
    lemma_side_text(back);
    let x = ip::groups_text(front);
    let y = ip::groups_text(back);
    lemma_double_colon(x, y);
    lemma_double_colon_clean(x, y);
    assert(front + ip::zeros((8 - front.len() - back.len()) as nat) + back =~= groups);
}

/// Compressed groups are read back.
#[verifier::spinoff_prover]
proof fn lemma_compressed(groups: Seq<nat>)
    requires
        are_groups(groups),
        groups.len() == 8,
    ensures
        ip::ipv6_groups_of(ip::compressed_text(groups)) == Some(groups),
        !ip::compressed_text(groups).contains('.'),
        is_addr_text(ip::compressed_text(groups)),
        ip::compressed_text(groups).len() > 0,
{
    let (start, len) = ip::longest_run(groups, 0);
    lemma_longest_run(groups, 0);
    if len >= 2 {
        lemma_with_gap(groups, start, len);
    } else {
        let s = ip::groups_text(groups);
        lemma_groups_text(groups);
        lemma_side(groups);
        text::lemma_first_pair(s, ':', ':');
        let i = text::first_pair(s, ':', ':');
        if i < s.len() {
            assert(s[i] == ':' && s[i + 1] == ':');
        }
    }
}

/// The groups of a number make the number.
pub proof fn lemma_groups_of(v: nat, n: nat)
    requires
        v < ip::groups_limit(n),
    ensures
        ip::groups_of(v, n).len() == n,
        are_groups(ip::groups_of(v, n)),
        ip::groups_value(ip::groups_of(v, n)) == v,
    decreases n,
{
    if n > 0 {
        let m = (n - 1) as nat;
        lemma_groups_of(v / 65536, m);
        let groups = ip::groups_of(v, n);
        assert(groups.drop_last() =~= ip::groups_of(v / 65536, m));
        assert forall|i: int| 0 <= i < groups.len() implies (#[trigger] groups[i]) < 65536 by {
            if i < n - 1 {
                assert(groups[i] == ip::groups_of(v / 65536, m)[i]);
            }
        }
    }
}

/// The group `ffff`.
#[verifier::spinoff_prover]
proof fn lemma_ffff()
    ensures
        ip::hex_groups(seq![seq!['f', 'f', 'f', 'f']]) == Some(seq![65535nat]),
        !seq!['f', 'f', 'f', 'f'].contains(':'),
{
    let f = seq!['f', 'f', 'f', 'f'];
    reveal_with_fuel(ip::hex_groups, 2);
    assert(seq![f].drop_last() =~= Seq::empty());
    assert(seq![f].last() == f);
    reveal_with_fuel(ip::hex_value, 5);
    assert(f.drop_last() =~= seq!['f', 'f', 'f']);
    assert(seq!['f', 'f', 'f'].drop_last() =~= seq!['f', 'f']);
    assert(seq!['f', 'f'].drop_last() =~= seq!['f']);
    assert(seq!['f'].drop_last() =~= Seq::<char>::empty());
    assert(ip::hex_value(f) == 65535);
    assert(Seq::<nat>::empty().push(65535) =~= seq![65535nat]);
}

/// The value of the groups of a mapped IPv4 address.
proof fn lemma_mapped_value(v4: nat)
    requires
        v4 < 0x1_0000_0000,
    ensures
        ip::groups_value(
            Seq::<nat>::empty() + ip::zeros(5) + seq![65535nat].push(v4 / 65536).push(v4 % 65536),
        ) == 0xffff * 0x1_0000_0000 + v4,
{
    let tail = seq![65535nat].push(v4 / 65536).push(v4 % 65536);
    let groups = Seq::<nat>::empty() + ip::zeros(5) + tail;
    let g7 = groups.drop_last();
    let g6 = g7.drop_last();
    let g5 = g6.drop_last();
    assert(groups.last() == v4 % 65536);
    assert(g7.last() == v4 / 65536);
    assert(g6.last() == 65535);
    assert(g5 =~= ip::zeros(5));
    lemma_zeros_value(5);
    assert(ip::groups_value(g6) == 65535);
    assert(ip::groups_value(g7) == 65535 * 65536 + v4 / 65536);
}

/// A text that starts with no digit is no IPv4 address.
pub proof fn lemma_no_ipv4(s: Seq<char>)
    requires
        s.len() > 0,
        !text::is_digit(s[0]),
        s[0] != '.',
    ensures
        ip::ipv4_of(s) is None,
{
    text::lemma_first(s, '.');
    let i = text::first(s, '.');
    let first = text::split(s, '.')[0];
    if i < s.len() {
        assert(first =~= s.take(i));
    } else {
        assert(first =~= s);
    }
    assert(first[0] == s[0]);
    assert(ip::octet_of(first) is None);
}

/// A mapped IPv4 address is read back.
#[verifier::spinoff_prover]
proof fn lemma_mapped(v: nat)
    requires
        ip::mapped_ipv4(v) is Some,
    ensures
        ip::ipv6_groups_of(ip::ipv6_text(v)) is Some,
        ip::groups_value(ip::ipv6_groups_of(ip::ipv6_text(v))->0) == v,
        ip::ipv4_of(ip::ipv6_text(v)) is None,
        is_addr_text(ip::ipv6_text(v)),
        ip::ipv6_text(v).len() > 0,
{
    reveal_strlit("::ffff:");
    let v4 = v % 0x1_0000_0000;
    let w = ip::ipv4_text(v4);
    law_ipv4_is_read_back(v4);
    let s = ip::ipv6_text(v);
    let f = seq!['f', 'f', 'f', 'f'];
    let t = f + seq![':'] + w;
    assert(s =~= seq![':', ':'] + t);
    lemma_no_ipv4(s);
    text::lemma_first_pair_unique(s, ':', ':', 0);
    assert(s.take(0) =~= Seq::empty());
    assert(s.skip(2) =~= t);
    lemma_ffff();
    lemma_split_front(f, w, ':');
    lemma_split_whole(w, ':');
    let parts = text::split(t, ':');
    assert(parts =~= seq![f, w]);
    assert(parts.drop_last() =~= seq![f]);
    assert(parts.last() == w);
    let tail = seq![65535nat].push(v4 / 65536).push(v4 % 65536);
    assert(ip::mixed_groups(parts) == Some(tail));
    assert(ip::colon_parts(s.take(0)) =~= Seq::empty());
    assert(ip::ipv6_groups_of(s) == Some(Seq::<nat>::empty() + ip::zeros(5) + tail));
    lemma_mapped_value(v4);
    assert(is_addr_text("::ffff:"@));
    lemma_addr_text("::ffff:"@, w);
}

/// Zero groups make nothing.
pub proof fn lemma_zeros_value(n: nat)
    ensures
        ip::groups_value(ip::zeros(n)) == 0,
    decreases n,
{
    if n > 0 {
        lemma_zeros_value((n - 1) as nat);
        assert(ip::zeros(n).drop_last() =~= ip::zeros((n - 1) as nat));
    }
}

/// An IPv6 address is read back as it is written, and is not taken for an IPv4 address.
pub proof fn law_ipv6_is_read_back(v: nat)
    requires
        v <= u128::MAX,
    ensures
        ip::ipv6_groups_of(ip::ipv6_text(v)) is Some,
        ip::groups_value(ip::ipv6_groups_of(ip::ipv6_text(v))->0) == v,
        ip::ipv4_of(ip::ipv6_text(v)) is None,
        is_addr_text(ip::ipv6_text(v)),
        ip::ipv6_text(v).len() > 0,
{
    if ip::mapped_ipv4(v) is Some {
        lemma_mapped(v);
    } else {
        reveal_with_fuel(ip::groups_limit, 9);
        lemma_groups_of(v, 8);
        lemma_compressed(ip::groups_of(v, 8));
        lemma_split_whole(ip::ipv6_text(v), '.');
    }
}

/// An address is read back as it is written.
pub proof fn law_addresses_are_read_back(addr: IpAddr)
    ensures
        ip::ip_of(addr.spec_text()) == Some(addr),
{
    match addr {
        IpAddr::V4(v) => {
            law_ipv4_is_read_back(v as nat);
        },
        IpAddr::V6(v) => {
            law_ipv6_is_read_back(v as nat);
        },
    }
}

/// What stands in the brackets of an IPv6 socket address is read back.
pub proof fn lemma_scoped(v: nat, scope_id: nat)
    requires
        v <= u128::MAX,
        scope_id <= 0xffff_ffff,
    ensures
        ({
            let w = ip::ipv6_text(v);
            let inner = w + (if scope_id == 0 {
                Seq::empty()
            } else {
                seq!['%'] + text::decimal(scope_id)
            });
            &&& ip::scoped_of(inner) == Some((v, scope_id))
            &&& !inner.contains(']')
        }),
{
    let w = ip::ipv6_text(v);
    law_ipv6_is_read_back(v);
    if scope_id == 0 {
        let inner = w + Seq::<char>::empty();
        assert(inner =~= w);
        assert forall|j: int| 0 <= j < w.len() implies w[j] != '%' && w[j] != ']' by {
            assert(is_addr_char(w[j]));
        }
        text::lemma_first_unique(w, '%', w.len() as int);
    } else {
        let scope = text::decimal(scope_id);
        let inner = w + (seq!['%'] + scope);
        text::lemma_decimal_round_trip(scope_id);
        lemma_decimal_clean(scope_id);
        assert(inner =~= w + seq!['%'] + scope);
        assert forall|j: int| 0 <= j < inner.len() implies inner[j] != ']' && (j < w.len()
            ==> inner[j] != '%') by {
            if j < w.len() {
                assert(inner[j] == w[j]);
                assert(is_addr_char(w[j]));
            } else if j > w.len() {
                assert(inner[j] == scope[j - w.len() - 1]);
                assert(is_addr_char(scope[j - w.len() - 1]));
            }
        }
        text::lemma_first_unique(inner, '%', w.len() as int);
        assert(inner.take(w.len() as int) =~= w);
        assert(inner.skip(w.len() as int + 1) =~= scope);
    }
}

/// An IPv6 socket address is read back.
#[verifier::spinoff_prover]
pub proof fn lemma_socket_v6(inner: Seq<char>, port: Seq<char>)
    requires
        !inner.contains(']'),
    ensures
        ({
            let s = seq!['['] + inner + seq![']', ':'] + port;
            &&& ip::socket_v4_of(s) is None
            &&& s.skip(1).take(text::first_pair(s.skip(1), ']', ':')) == inner
            &&& text::first_pair(s.skip(1), ']', ':') < s.skip(1).len()
            &&& s.skip(1).skip(text::first_pair(s.skip(1), ']', ':') + 2) == port
        }),
{
    let s = seq!['['] + inner + seq![']', ':'] + port;
    let rest = inner + seq![']', ':'] + port;
    let n = inner.len() as int;
    assert(s.skip(1) =~= rest);
    assert forall|j: int| 0 <= j < n implies (#[trigger] rest[j]) != ']' by {
        assert(rest[j] == inner[j]);
        assert(inner.contains(inner[j]));
    }
    text::lemma_first_pair_unique(rest, ']', ':', n);
    assert(rest.take(n) =~= inner);
    assert(rest.skip(n + 2) =~= port);
    // The bracket makes it no IPv4 socket address.
    text::lemma_first(s, ':');
    let i = text::first(s, ':');
    assert(s[0] == '[');
    if i < s.len() {
        assert(s.take(i)[0] == '[');
        lemma_no_ipv4(s.take(i));
    }
}

/// A socket address is read back as it is written. An IPv4 address has no scope.
pub proof fn law_socket_addresses_are_read_back(addr: SocketAddr)
    requires
        addr.ip is V4 ==> addr.scope_id == 0,
    ensures
        ip::socket_of(addr.spec_text()) == Some(addr),
{
    let s = addr.spec_text();
    let port = text::decimal(addr.port as nat);
    text::lemma_decimal_round_trip(addr.port as nat);
    match addr.ip {
        IpAddr::V4(v) => {
            let w = ip::ipv4_text(v as nat);
            law_ipv4_is_read_back(v as nat);
            assert forall|j: int| 0 <= j < w.len() implies s[j] != ':' by {
                assert(s[j] == w[j]);
                assert(w.contains(w[j]));
            }
            text::lemma_first_unique(s, ':', w.len() as int);
            assert(s.take(w.len() as int) =~= w);
            assert(s.skip(w.len() as int + 1) =~= port);
        },
        IpAddr::V6(v) => {
            let inner = ip::ipv6_text(v as nat) + (if addr.scope_id == 0 {
                Seq::empty()
            } else {
                seq!['%'] + text::decimal(addr.scope_id as nat)
            });
            lemma_scoped(v as nat, addr.scope_id as nat);
            lemma_socket_v6(inner, port);
            assert(s =~= seq!['['] + inner + seq![']', ':'] + port);
        },
    }
}

// ---------------------------------------------------------------------------------------------
// Ranges
// ---------------------------------------------------------------------------------------------

/// Written addresses and numbers have no white space to trim.
pub proof fn lemma_nothing_to_trim(s: Seq<char>)
    requires
        is_addr_text(s),
    ensures
        text::trimmed(s) == s,
{
    if s.len() > 0 {
        assert(is_addr_char(s[0]));
        assert(is_addr_char(s[s.len() - 1]));
    }
}

/// A range is read back as it is written; a range is never around a mapped address.
pub proof fn law_ranges_are_read_back(range: IpRange)
    requires
        range.wf(),
        range.addr.canonical() == range.addr,
    ensures
        client_addr::range_of(range.spec_text()) == Ok::<IpRange, client_addr::RangeFault>(range),
{
    let addr = range.addr.spec_text();
    let prefix = text::decimal(range.prefix as nat);
    law_addresses_are_read_back(range.addr);
    match range.addr {
        IpAddr::V4(v) => {
            law_ipv4_is_read_back(v as nat);
        },
        IpAddr::V6(v) => {
            law_ipv6_is_read_back(v as nat);
        },
    }
    lemma_decimal_clean(range.prefix as nat);
    text::lemma_decimal_round_trip(range.prefix as nat);
    lemma_nothing_to_trim(addr);
    lemma_nothing_to_trim(prefix);
    let s = range.spec_text();
    assert forall|j: int| 0 <= j < addr.len() implies s[j] != '/' by {
        assert(s[j] == addr[j]);
        assert(is_addr_char(addr[j]));
    }
    text::lemma_first_unique(s, '/', addr.len() as int);
    assert(s.take(addr.len() as int) =~= addr);
    assert(s.skip(addr.len() as int + 1) =~= prefix);
    assert(text::is_digit(prefix[0]));
}

} // verus!
