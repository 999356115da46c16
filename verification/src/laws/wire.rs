//! What holds of numbers in bytes.

use vstd::prelude::*;

use crate::wire;

verus! {

/// A number of two, four or eight bytes has its most significant byte first.
pub proof fn most_significant_byte_is_first(n: u64)
    ensures
        n <= 0xffff ==> wire::be_bytes(n as nat, 2) == seq![
            (n as nat / 0x100) as u8,
            (n as nat % 0x100) as u8,
        ],
        n <= 0xffff_ffff ==> wire::be_bytes(n as nat, 4) == seq![
            (n as nat / 0x100_0000) as u8,
            (n as nat / 0x1_0000 % 0x100) as u8,
            (n as nat / 0x100 % 0x100) as u8,
            (n as nat % 0x100) as u8,
        ],
        wire::be_bytes(n as nat, 8) == seq![
            (n as nat / 0x100_0000_0000_0000) as u8,
            (n as nat / 0x1_0000_0000_0000 % 0x100) as u8,
            (n as nat / 0x100_0000_0000 % 0x100) as u8,
            (n as nat / 0x1_0000_0000 % 0x100) as u8,
            (n as nat / 0x100_0000 % 0x100) as u8,
            (n as nat / 0x1_0000 % 0x100) as u8,
            (n as nat / 0x100 % 0x100) as u8,
            (n as nat % 0x100) as u8,
        ],
{
    reveal_with_fuel(wire::be_bytes, 9);
    let m = n as nat;
    assert(m / 256 / 256 == m / 0x1_0000);
    assert(m / 0x1_0000 / 256 == m / 0x100_0000);
    assert(m / 0x100_0000 / 256 == m / 0x1_0000_0000);
    assert(m / 0x1_0000_0000 / 256 == m / 0x100_0000_0000);
    assert(m / 0x100_0000_0000 / 256 == m / 0x1_0000_0000_0000);
    assert(m / 0x1_0000_0000_0000 / 256 == m / 0x100_0000_0000_0000);
}

/// Four bytes spell the sum of their values, each of which weighs 256 times the next.
pub proof fn bytes_weigh_by_place(a: u8, b: u8, c: u8, d: u8)
    ensures
        wire::be_nat(seq![a, b]) == 0x100 * a + b,
        wire::be_nat(seq![a, b, c, d]) == 0x100_0000 * a + 0x1_0000 * b + 0x100 * c + d,
        wire::le_nat(seq![a, b, c, d]) == a + 0x100 * b + 0x1_0000 * c + 0x100_0000 * d,
{
    reveal_with_fuel(wire::be_nat, 5);
    assert(seq![a, b].drop_last() =~= seq![a]);
    assert(seq![a].drop_last() =~= Seq::empty());
    assert(seq![a, b, c, d].drop_last() =~= seq![a, b, c]);
    assert(seq![a, b, c].drop_last() =~= seq![a, b]);
    assert(seq![a, b, c, d].reverse() =~= seq![d, c, b, a]);
    assert(seq![d, c, b, a].drop_last() =~= seq![d, c, b]);
    assert(seq![d, c, b].drop_last() =~= seq![d, c]);
    assert(seq![d, c].drop_last() =~= seq![d]);
    assert(seq![d].drop_last() =~= Seq::empty());
}

} // verus!
