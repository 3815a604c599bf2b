//! Numbers as big-endian bytes.
use vstd::prelude::*;

verus! {

/// The number that `s` holds, most significant byte first.
pub open spec fn be_value(s: Seq<u8>) -> nat
    decreases s.len(),
{
    if s.len() == 0 {
        0
    } else {
        be_value(s.drop_last()) * 256 + s.last() as nat
    }
}

/// The last `len` bytes of `n`, most significant byte first.
pub open spec fn be_bytes(n: nat, len: nat) -> Seq<u8>
    decreases len,
{
    if len == 0 {
        Seq::empty()
    } else {
        be_bytes(n / 256, (len - 1) as nat).push((n % 256) as u8)
    }
}

/// How many numbers `len` bytes can hold.
pub open spec fn be_limit(len: nat) -> nat
    decreases len,
{
    if len == 0 {
        1
    } else {
        be_limit((len - 1) as nat) * 256
    }
}

/// `len` bytes hold every number below their limit, and give it back.
pub proof fn lemma_be_round_trip(n: nat, len: nat)
    requires
        n < be_limit(len),
    ensures
        be_bytes(n, len).len() == len,
        be_value(be_bytes(n, len)) == n,
    decreases len,
{
    if len > 0 {
        lemma_be_round_trip(n / 256, (len - 1) as nat);
        assert(be_bytes(n, len).drop_last() =~= be_bytes(n / 256, (len - 1) as nat));
    }
}

/// Eight bytes hold every `u64`.
pub proof fn lemma_be_u64(n: u64)
    ensures
        be_bytes(n as nat, 8).len() == 8,
        be_value(be_bytes(n as nat, 8)) == n,
{
    reveal_with_fuel(be_limit, 9);
    lemma_be_round_trip(n as nat, 8);
}

/// The values of byte strings grow with their length.
proof fn lemma_be_value_bound(s: Seq<u8>)
    ensures
        be_value(s) < be_limit(s.len()),
    decreases s.len(),
{
    if s.len() > 0 {
        lemma_be_value_bound(s.drop_last());
    }
}

/// Bytes are those of the number that they hold.
pub proof fn lemma_be_bytes_back(s: Seq<u8>)
    ensures
        be_bytes(be_value(s), s.len()) == s,
    decreases s.len(),
{
    if s.len() > 0 {
        lemma_be_bytes_back(s.drop_last());
        assert(be_value(s) / 256 == be_value(s.drop_last()));
        assert(be_value(s) % 256 == s.last() as nat);
    }
    assert(be_bytes(be_value(s), s.len()) =~= s);
}

/// Eight bytes hold a `u64`.
pub proof fn lemma_eight_bytes(s: Seq<u8>)
    requires
        s.len() == 8,
    ensures
        be_value(s) <= u64::MAX,
        be_bytes(be_value(s), 8) == s,
{
    reveal_with_fuel(be_limit, 9);
    lemma_be_value_bound(s);
    lemma_be_bytes_back(s);
}

/// The eight bytes of `n`, most significant first.
pub fn u64_bytes(n: u64) -> (r: Vec<u8>)
    ensures
        r@ == be_bytes(n as nat, 8),
{
    proof {
        reveal_with_fuel(be_bytes, 9);
    }
    let a: u64 = n / 256;
    let b: u64 = a / 256;
    let c: u64 = b / 256;
    let d: u64 = c / 256;
    let e: u64 = d / 256;
    let f: u64 = e / 256;
    let g: u64 = f / 256;
    let r: Vec<u8> = vec![
        (g % 256) as u8,
        (f % 256) as u8,
        (e % 256) as u8,
        (d % 256) as u8,
        (c % 256) as u8,
        (b % 256) as u8,
        (a % 256) as u8,
        (n % 256) as u8,
    ];
    assert(r@ =~= be_bytes(n as nat, 8));
    r
}

/// The number that eight bytes hold, most significant first.
pub fn u64_value(bytes: &[u8]) -> (r: u64)
    requires
        bytes@.len() == 8,
    ensures
        r as nat == be_value(bytes@),
{
    let mut r: u64 = 0;
    let mut i: usize = 0;
    proof {
        assert(bytes@.take(0) =~= Seq::<u8>::empty());
    }
    while i < 8
        invariant
            i <= 8,
            bytes@.len() == 8,
            r as nat == be_value(bytes@.take(i as int)),
        decreases 8 - i,
    {
        proof {
            reveal_with_fuel(be_limit, 9);
            let next = bytes@.take(i + 1);
            assert(next.drop_last() =~= bytes@.take(i as int));
            lemma_be_value_bound(next);
            lemma_limit_grows(next.len(), 8);
        }
        r = r * 256 + bytes[i] as u64;
        i += 1;
    }
    assert(bytes@.take(8) =~= bytes@);
    r
}

/// More bytes hold more numbers.
proof fn lemma_limit_grows(a: nat, b: nat)
    requires
        a <= b,
    ensures
        be_limit(a) <= be_limit(b),
    decreases b,
{
    if a < b {
        lemma_limit_grows(a, (b - 1) as nat);
    }
}

} // verus!
