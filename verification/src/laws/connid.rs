//! What holds of connection ids.

use vstd::prelude::*;

use crate::connid;
use crate::wire;

verus! {

/// The MAC covers the address and, after it, the window as eight bytes, least significant first.
/// So it covers different bytes for different addresses and for different windows.
pub proof fn mac_covers_address_and_window(a: Seq<u8>, b: Seq<u8>, v: u64, w: u64)
    requires
        a.len() == b.len(),
    ensures
        ({
            let c = connid::covered(a, v as nat);
            let n = a.len() as int;
            &&& c.len() == n + 8
            &&& c.take(n) == a
            &&& c[n] == v as nat % 0x100
            &&& c[n + 1] == v as nat / 0x100 % 0x100
            &&& c[n + 2] == v as nat / 0x1_0000 % 0x100
            &&& c[n + 3] == v as nat / 0x100_0000 % 0x100
            &&& c[n + 4] == v as nat / 0x1_0000_0000 % 0x100
            &&& c[n + 5] == v as nat / 0x100_0000_0000 % 0x100
            &&& c[n + 6] == v as nat / 0x1_0000_0000_0000 % 0x100
            &&& c[n + 7] == v as nat / 0x100_0000_0000_0000
        }),
        connid::covered(a, v as nat) == connid::covered(b, w as nat) ==> a == b && v == w,
{
    broadcast use wire::be_bytes_len;

    crate::laws::wire::most_significant_byte_is_first(v);
    let c = connid::covered(a, v as nat);
    let d = connid::covered(b, w as nat);
    let n = a.len() as int;
    assert(c.take(n) =~= a);
    assert(d.take(n) =~= b);
    if c == d {
        let x = wire::be_bytes(v as nat, 8);
        let y = wire::be_bytes(w as nat, 8);
        assert(c.skip(n) =~= x.reverse());
        assert(d.skip(n) =~= y.reverse());
        assert(x =~= x.reverse().reverse());
        assert(y =~= y.reverse().reverse());
        crate::laws::udp::widths_read_back(v, 0, 0);
        crate::laws::udp::widths_read_back(w, 0, 0);
    }
}

/// An id is the first eight bytes of its MAC, least significant first.
pub proof fn id_is_the_low_half(mac: Seq<u8>)
    requires
        mac.len() == 32,
    ensures
        connid::low_half(mac) == mac[0] + 0x100 * mac[1] + 0x1_0000 * mac[2] + 0x100_0000 * mac[3]
            + 0x1_0000_0000 * mac[4] + 0x100_0000_0000 * mac[5] + 0x1_0000_0000_0000 * mac[6]
            + 0x100_0000_0000_0000 * mac[7],
{
    let r = mac.take(8).reverse();
    assert(r =~= seq![mac[7], mac[6], mac[5], mac[4], mac[3], mac[2], mac[1], mac[0]]);
    reveal_with_fuel(wire::be_nat, 9);
    assert(r.drop_last() =~= seq![mac[7], mac[6], mac[5], mac[4], mac[3], mac[2], mac[1]]);
    assert(r.drop_last().drop_last() =~= seq![mac[7], mac[6], mac[5], mac[4], mac[3], mac[2]]);
    assert(r.drop_last().drop_last().drop_last() =~= seq![
        mac[7],
        mac[6],
        mac[5],
        mac[4],
        mac[3],
    ]);
    assert(seq![mac[7], mac[6], mac[5], mac[4], mac[3]].drop_last() =~= seq![
        mac[7],
        mac[6],
        mac[5],
        mac[4],
    ]);
    assert(seq![mac[7], mac[6], mac[5], mac[4]].drop_last() =~= seq![mac[7], mac[6], mac[5]]);
    assert(seq![mac[7], mac[6], mac[5]].drop_last() =~= seq![mac[7], mac[6]]);
    assert(seq![mac[7], mac[6]].drop_last() =~= seq![mac[7]]);
    assert(seq![mac[7]].drop_last() =~= Seq::empty());
}

/// In window `w` exactly two ids are accepted from an address: those handed out to it in that
/// window and in the one before. In the first window it is one.
pub proof fn two_windows_are_accepted(
    key: Seq<u8>,
    window_secs: nat,
    id: u64,
    ip: Seq<u8>,
    w: nat,
    second: nat,
)
    requires
        second < window_secs,
    ensures
        ({
            let now = w * window_secs + second;
            let mac = |window: u64|
                connid::low_half(
                    connid::blake3_keyed(key, ip + wire::be_bytes(window as nat, 8).reverse()),
                );
            w <= u64::MAX ==> (connid::accepted(key, window_secs, id, ip, now) <==> id == mac(
                w as u64,
            ) || w > 0 && id == mac((w - 1) as u64))
        }),
{
    let now = w * window_secs + second;
    vstd::arithmetic::div_mod::lemma_fundamental_div_mod_converse(
        now as int,
        window_secs as int,
        w as int,
        second as int,
    );
}

} // verus!
