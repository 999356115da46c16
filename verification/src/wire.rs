//! Fixed-width integers on the wire.
//!
//! Byte strings are read as numbers in base 256. The network order is big-endian; the few
//! little-endian readings go through [`le_nat`].

use vstd::prelude::*;

verus! {

/// The number that `s` spells in base 256, most significant byte first.
pub open spec fn be_nat(s: Seq<u8>) -> nat
    decreases s.len(),
{
    if s.len() == 0 {
        0
    } else {
        be_nat(s.drop_last()) * 256 + s.last() as nat
    }
}

/// The `len` low base-256 digits of `n`, most significant byte first.
pub open spec fn be_bytes(n: nat, len: nat) -> Seq<u8>
    decreases len,
{
    if len == 0 {
        Seq::empty()
    } else {
        be_bytes(n / 256, (len - 1) as nat).push((n % 256) as u8)
    }
}

/// The number that `s` spells in base 256, least significant byte first.
pub open spec fn le_nat(s: Seq<u8>) -> nat {
    be_nat(s.reverse())
}

/// The `len` low base-256 digits of `n`, least significant byte first.
pub open spec fn le_bytes(n: nat, len: nat) -> Seq<u8> {
    be_bytes(n, len).reverse()
}

/// An encoding has exactly the asked number of bytes.
pub broadcast proof fn be_bytes_len(n: nat, len: nat)
    ensures
        #[trigger] be_bytes(n, len).len() == len,
    decreases len,
{
    if len > 0 {
        be_bytes_len(n / 256, (len - 1) as nat);
    }
}

/// Encoding the number that a byte string spells gives the byte string back.
pub proof fn be_bytes_of_be_nat(s: Seq<u8>)
    ensures
        be_bytes(be_nat(s), s.len()) == s,
    decreases s.len(),
{
    if s.len() > 0 {
        be_bytes_of_be_nat(s.drop_last());
        let hi = be_nat(s.drop_last());
        let lo = s.last() as nat;
        assert((hi * 256 + lo) / 256 == hi);
        assert((hi * 256 + lo) % 256 == lo);
        assert(s.drop_last().push(s.last()) =~= s);
    }
}

/// Two byte strings of one length that spell the same number are the same string.
pub proof fn be_nat_injective(a: Seq<u8>, b: Seq<u8>)
    requires
        a.len() == b.len(),
        be_nat(a) == be_nat(b),
    ensures
        a == b,
{
    be_bytes_of_be_nat(a);
    be_bytes_of_be_nat(b);
}

/// One more low digit.
pub proof fn be_nat_push(s: Seq<u8>, b: u8)
    ensures
        be_nat(s.push(b)) == be_nat(s) * 256 + b,
{
    assert(s.push(b).drop_last() =~= s);
}

/// Of two byte strings of one length, the one with the smaller prefix spells the smaller number.
pub proof fn be_nat_prefix_order(a: Seq<u8>, b: Seq<u8>, n: int)
    requires
        a.len() == b.len(),
        0 <= n <= a.len(),
        be_nat(a.take(n)) < be_nat(b.take(n)),
    ensures
        be_nat(a) < be_nat(b),
    decreases a.len(),
{
    if n == a.len() {
        assert(a.take(n) =~= a);
        assert(b.take(n) =~= b);
    } else {
        assert(a.drop_last().take(n) =~= a.take(n));
        assert(b.drop_last().take(n) =~= b.take(n));
        be_nat_prefix_order(a.drop_last(), b.drop_last(), n);
    }
}

/// The powers of 256 that bound the fixed-width readings.
pub open spec fn pow256(n: nat) -> nat
    decreases n,
{
    if n == 0 {
        1
    } else {
        256 * pow256((n - 1) as nat)
    }
}

/// A byte string spells a number below 256 to the power of its length.
pub proof fn be_nat_bound(s: Seq<u8>)
    ensures
        be_nat(s) < pow256(s.len()),
    decreases s.len(),
{
    if s.len() > 0 {
        be_nat_bound(s.drop_last());
    }
}

/// Reading back a number that fits its width gives the number.
pub proof fn be_nat_of_be_bytes(n: nat, len: nat)
    requires
        n < pow256(len),
    ensures
        be_nat(be_bytes(n, len)) == n,
    decreases len,
{
    if len > 0 {
        assert(n / 256 < pow256((len - 1) as nat));
        be_nat_of_be_bytes(n / 256, (len - 1) as nat);
        be_nat_push(be_bytes(n / 256, (len - 1) as nat), (n % 256) as u8);
    }
}

/// Read a big-endian `u16`.
pub fn be_u16(b: &[u8]) -> (r: u16)
    requires
        b@.len() == 2,
    ensures
        r == be_nat(b@),
{
    proof {
        reveal_with_fuel(be_nat, 3);
    }
    b[0] as u16 * 256 + b[1] as u16
}

/// Read a big-endian `u32`.
pub fn be_u32(b: &[u8]) -> (r: u32)
    requires
        b@.len() == 4,
    ensures
        r == be_nat(b@),
{
    proof {
        reveal_with_fuel(be_nat, 5);
    }
    ((b[0] as u32 * 256 + b[1] as u32) * 256 + b[2] as u32) * 256 + b[3] as u32
}

/// Read a big-endian `u64`.
pub fn be_u64(b: &[u8]) -> (r: u64)
    requires
        b@.len() == 8,
    ensures
        r == be_nat(b@),
{
    let mut r: u64 = 0;
    let mut i: usize = 0;
    while i < 8
        invariant
            i <= 8,
            b@.len() == 8,
            r == be_nat(b@.take(i as int)),
        decreases 8 - i,
    {
        proof {
            be_nat_bound(b@.take(i as int));
            reveal_with_fuel(pow256, 9);
            assert(b@.take(i as int + 1) =~= b@.take(i as int).push(b@[i as int]));
            be_nat_push(b@.take(i as int), b@[i as int]);
            assert(pow256(i as nat) <= pow256(7));
        }
        r = r * 256 + b[i] as u64;
        i = i + 1;
    }
    assert(b@.take(8) =~= b@);
    r
}

/// Encode a `u16` in network order.
pub fn u16_be(v: u16) -> (r: [u8; 2])
    ensures
        r@ == be_bytes(v as nat, 2),
{
    proof {
        reveal_with_fuel(be_bytes, 3);
    }
    let r = [(v / 256) as u8, (v % 256) as u8];
    assert(r@ =~= be_bytes(v as nat, 2));
    r
}

/// Encode a `u32` in network order.
pub fn u32_be(v: u32) -> (r: [u8; 4])
    ensures
        r@ == be_bytes(v as nat, 4),
{
    proof {
        reveal_with_fuel(be_bytes, 5);
    }
    let r = [
        (v / 0x100_0000) as u8,
        (v / 0x1_0000 % 256) as u8,
        (v / 256 % 256) as u8,
        (v % 256) as u8,
    ];
    assert(r@ =~= be_bytes(v as nat, 4));
    r
}

/// Encode a `u64` in network order.
pub fn u64_be(v: u64) -> (r: [u8; 8])
    ensures
        r@ == be_bytes(v as nat, 8),
{
    let hi = u32_be((v / 0x1_0000_0000) as u32);
    let lo = u32_be((v % 0x1_0000_0000) as u32);
    let r = [hi[0], hi[1], hi[2], hi[3], lo[0], lo[1], lo[2], lo[3]];
    proof {
        be_bytes_split(v as nat);
        assert(r@ =~= hi@ + lo@);
    }
    r
}

/// Eight digits are four digits of the quotient by 2^32 and four of the remainder.
proof fn be_bytes_split(n: nat)
    requires
        n < 0x1_0000_0000_0000_0000,
    ensures
        be_bytes(n, 8) == be_bytes(n / 0x1_0000_0000, 4) + be_bytes(n % 0x1_0000_0000, 4),
{
    broadcast use be_bytes_len;
    let a = be_bytes(n / 0x1_0000_0000, 4);
    let b = be_bytes(n % 0x1_0000_0000, 4);
    reveal_with_fuel(pow256, 5);
    be_nat_of_be_bytes(n / 0x1_0000_0000, 4);
    be_nat_of_be_bytes(n % 0x1_0000_0000, 4);
    be_nat_push(a, b[0]);
    be_nat_push(a.push(b[0]), b[1]);
    be_nat_push(a.push(b[0]).push(b[1]), b[2]);
    be_nat_push(a.push(b[0]).push(b[1]).push(b[2]), b[3]);
    assert(a + b =~= a.push(b[0]).push(b[1]).push(b[2]).push(b[3]));
    assert(be_nat(b) == ((b[0] * 256 + b[1]) * 256 + b[2]) * 256 + b[3]) by {
        reveal_with_fuel(be_nat, 5);
    }
    be_bytes_of_be_nat(a + b);
}

} // verus!
