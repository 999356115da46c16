//! What holds of a swarm: who is in it, who is counted, who is handed out.

use vstd::prelude::*;

use crate::bytemap;
use crate::flag;
use crate::peers;
use crate::peers::{PeerVal, SwarmView};

verus! {

/// The members of a swarm whose flag byte has the top bit set: the seeders.
pub open spec fn top_bit_set(peers: Map<Seq<u8>, PeerVal>) -> Set<Seq<u8>> {
    peers.dom().filter(|k: Seq<u8>| peers[k].flags & 0x80 != 0)
}

/// The seeders of a swarm are its members with the top flag bit, no others.
pub proof fn seeders_are_by_flag(peers: Map<Seq<u8>, PeerVal>)
    requires
        peers.dom().finite(),
    ensures
        peers::seed_count(peers) == top_bit_set(peers).len(),
        top_bit_set(peers).len() <= peers.len(),
        top_bit_set(peers).finite(),
{
    assert(peers::seed_set(peers) =~= top_bit_set(peers));
    peers::seed_count_remove(peers, Seq::empty());
}

/// Expiry goes by age alone: whatever its flags, a peer stays exactly if it was seen less than the
/// timeout ago, and stays as it was. Recorded downloads stay.
pub proof fn expiry_goes_by_age(s: SwarmView, now: u32, timeout: u32, k: Seq<u8>)
    ensures
        s.peers.contains_key(k) && s.peers[k].seen + timeout <= now ==> !s.expired(
            now,
            timeout,
        ).peers.contains_key(k),
        s.peers.contains_key(k) && now < s.peers[k].seen + timeout && timeout > 0 ==> s.expired(
            now,
            timeout,
        ).peers.contains_key(k),
        s.expired(now, timeout).peers.contains_key(k) ==> s.peers.contains_key(k) && s.expired(
            now,
            timeout,
        ).peers[k] == s.peers[k],
        timeout == 0 ==> !s.expired(now, timeout).peers.contains_key(k),
        s.expired(now, timeout).downloaded == s.downloaded,
{
}

/// An announce puts the peer in, seen now, a seeder exactly if it says so; that it completed is
/// taken only together with seeding and then kept for good. Other peers stay as they were.
pub proof fn announce_registers_the_peer(
    s: SwarmView,
    key: Seq<u8>,
    flags: u8,
    now: u32,
    other: Seq<u8>,
)
    requires
        other != key,
    ensures
        ({
            let after = s.announced(key, flags, now);
            let kept = after.peers[key].flags;
            let was = s.peers.contains_key(key) && s.peers[key].flags & 0x40 != 0;
            &&& after.peers.contains_key(key)
            &&& after.peers[key].seen == now
            &&& (kept & 0x80 != 0) == (flags & 0x80 != 0)
            &&& (kept & 0x40 != 0) == (was || (flags & 0x40 != 0 && flags & 0x80 != 0))
            &&& kept & 0x3f == flags & 0x3f
            &&& after.peers.contains_key(other) == s.peers.contains_key(other)
            &&& s.peers.contains_key(other) ==> after.peers[other] == s.peers[other]
        }),
{
    let before = if s.peers.contains_key(key) {
        s.peers[key].flags
    } else {
        0
    };
    let clean = peers::sanitized(flags);
    assert((flags & !0x40u8) & 0x80 == flags & 0x80) by (bit_vector);
    assert((flags & !0x40u8) & 0x40 == 0) by (bit_vector);
    assert((flags & !0x40u8) & 0x3f == flags & 0x3f) by (bit_vector);
    assert(forall|c: u8, b: u8| (#[trigger] (c | (b & 0x40u8))) & 0x80 == c & 0x80) by (bit_vector);
    assert(forall|c: u8, b: u8| (#[trigger] (c | (b & 0x40u8))) & 0x3f == c & 0x3f) by (bit_vector);
    assert(forall|c: u8, b: u8|
        ((#[trigger] (c | (b & 0x40u8))) & 0x40 != 0) == (c & 0x40 != 0 || b & 0x40 != 0))
        by (bit_vector);
}

/// A download is recorded when a seeder reports that it completed and was not known to have: then
/// one more, else none. After the last number that fits 64 bits the count starts over.
pub proof fn completion_is_recorded_once(s: SwarmView, key: Seq<u8>, flags: u8, now: u32)
    ensures
        ({
            let more: int = if flags & 0x40 != 0 && flags & 0x80 != 0 && !(s.peers.contains_key(key)
                && s.peers[key].flags & 0x40 != 0) {
                1
            } else {
                0
            };
            let total = s.downloaded + more;
            s.announced(key, flags, now).downloaded == (if total <= 0xffff_ffff_ffff_ffff {
                total
            } else {
                0
            })
        }),
{
    assert((flags & !0x40u8) & 0x40 == 0) by (bit_vector);
}

/// A peer that leaves is gone; the others and the recorded downloads stay as they were.
pub proof fn leaving_takes_only_the_peer(s: SwarmView, key: Seq<u8>, other: Seq<u8>)
    requires
        other != key,
    ensures
        !s.removed(key).peers.contains_key(key),
        s.removed(key).peers.contains_key(other) == s.peers.contains_key(other),
        s.peers.contains_key(other) ==> s.removed(key).peers[other] == s.peers[other],
        s.removed(key).downloaded == s.downloaded,
{
}

/// The `i`-th address of a compact list of addresses of `n` bytes.
pub open spec fn nth(list: Seq<u8>, n: nat, i: int) -> Seq<u8> {
    list.subrange(n * i, n * i + n)
}

/// A place in a list of `n`-byte addresses lies inside it.
proof fn nth_fits(n: nat, i: int, count: nat)
    requires
        0 <= i < count,
    ensures
        0 <= n * i,
        n * i + n <= n * count,
        n * i + n == n * (i + 1),
{
    assert(0 <= n * i && n * i + n <= n * count && n * i + n == n * (i + 1)) by (nonlinear_arith)
        requires
            0 <= i < count,
            n >= 0,
    ;
}

/// Addresses of one length, joined, are found again at their places.
proof fn joined_at(ks: Seq<Seq<u8>>, n: nat, i: int)
    requires
        0 <= i < ks.len(),
        forall|j: int| 0 <= j < ks.len() ==> (#[trigger] ks[j]).len() == n,
    ensures
        nth(peers::joined(ks), n, i) == ks[i],
    decreases ks.len(),
{
    let head = ks.drop_last();
    peers::joined_len(head, n);
    peers::joined_len(ks, n);
    nth_fits(n, i, ks.len());
    assert(ks[ks.len() - 1].len() == n);
    let all = peers::joined(ks);
    if i == ks.len() - 1 {
        assert(all.subrange(n * i, n * i + n) =~= ks[i]);
    } else {
        nth_fits(n, i, head.len());
        joined_at(head, n, i);
        assert(all.subrange(n * i, n * i + n) =~= peers::joined(head).subrange(n * i, n * i + n));
    }
}

/// Peers of one kind are in strictly ascending order, so none comes twice.
proof fn kind_is_ascending(ks: Seq<Seq<u8>>, pred: spec_fn(Seq<u8>) -> bool)
    requires
        forall|i: int, j: int|
            0 <= i < j < ks.len() ==> bytemap::before(#[trigger] ks[i], #[trigger] ks[j]),
    ensures
        forall|i: int, j: int|
            0 <= i < j < ks.filter(pred).len() ==> bytemap::before(
                #[trigger] ks.filter(pred)[i],
                #[trigger] ks.filter(pred)[j],
            ),
        forall|i: int|
            0 <= i < ks.filter(pred).len() ==> ks.contains(#[trigger] ks.filter(pred)[i]) && pred(
                ks.filter(pred)[i],
            ),
    decreases ks.len(),
{
    reveal(Seq::filter);
    if ks.len() > 0 {
        let head = ks.drop_last();
        kind_is_ascending(head, pred);
        let f = ks.filter(pred);
        let h = head.filter(pred);
        assert forall|i: int| 0 <= i < f.len() implies ks.contains(#[trigger] f[i]) && pred(
            f[i],
        ) by {
            if i < h.len() {
                let j = choose|j: int| 0 <= j < head.len() && head[j] == h[i];
                assert(ks[j] == f[i]);
            } else {
                assert(ks[ks.len() - 1] == f[i]);
            }
        }
        assert forall|i: int, j: int| 0 <= i < j < f.len() implies bytemap::before(
            #[trigger] f[i],
            #[trigger] f[j],
        ) by {
            if j < h.len() {
                assert(bytemap::before(h[i], h[j]));
            } else {
                let m = choose|m: int| 0 <= m < head.len() && head[m] == h[i];
                assert(bytemap::before(ks[m], ks[ks.len() - 1]));
            }
        }
    }
}

/// No peer is handed out twice.
proof fn hand_out_has_no_doubles(peers: Map<Seq<u8>, PeerVal>, n: nat, i: int, j: int)
    requires
        peers.dom().finite(),
        n <= bytemap::MAX_KEY,
        forall|k: Seq<u8>| #[trigger] peers.contains_key(k) ==> k.len() == n,
        0 <= i < j < peers::hand_out(peers).len(),
    ensures
        peers::hand_out(peers)[i] != peers::hand_out(peers)[j],
{
    let ks = bytemap::listing(peers.dom());
    assert forall|k: Seq<u8>| #[trigger] peers.dom().contains(k) implies k.len() == n by {
        assert(peers.contains_key(k));
    }
    bytemap::listing_exists(peers.dom(), n);
    kind_is_ascending(ks, peers::of_kind(peers, false));
    kind_is_ascending(ks, peers::of_kind(peers, true));
    let leech = peers::kind_listing(peers, false);
    let seed = peers::kind_listing(peers, true);
    if j < leech.len() {
        assert(bytemap::before(leech[i], leech[j]));
    } else if i >= leech.len() {
        assert(bytemap::before(seed[i - leech.len()], seed[j - leech.len()]));
    } else {
        assert(peers::of_kind(peers, false)(leech[i]));
        assert(peers::of_kind(peers, true)(seed[j - leech.len()]));
    }
}

/// A compact peer list of `n`-byte addresses is as long as asked for or as the swarm is large. Each
/// place holds a member of the swarm, no member comes twice, and a seeder comes only once every
/// leecher has come.
pub proof fn compact_lists_members(
    peers: Map<Seq<u8>, PeerVal>,
    n: nat,
    numwant: nat,
    i: int,
    j: int,
    leecher: Seq<u8>,
)
    requires
        peers.dom().finite(),
        0 < n <= 20,
        forall|k: Seq<u8>| #[trigger] peers.contains_key(k) ==> k.len() == n,
        0 <= i < numwant,
        i < peers.len(),
    ensures
        ({
            let list = peers::compact(peers, numwant);
            &&& list.len() == n * (if numwant <= peers.len() {
                numwant
            } else {
                peers.len()
            })
            &&& peers.contains_key(nth(list, n, i))
            &&& 0 <= j < i ==> nth(list, n, i) != nth(list, n, j)
            &&& peers[nth(list, n, i)].flags & 0x80 != 0 && peers.contains_key(leecher)
                && peers[leecher].flags & 0x80 == 0 ==> exists|m: int|
                0 <= m < i && nth(list, n, m) == leecher
        }),
{
    peers::compact_len(peers, n, numwant);
    peers::hand_out_is_everyone(peers, n);
    let order = peers::hand_out(peers);
    let given = peers::up_to(order, numwant);
    assert forall|m: int| 0 <= m < given.len() implies (#[trigger] given[m]).len() == n by {
        assert(peers.contains_key(order[m]));
    }
    joined_at(given, n, i);
    assert(given[i] == order[i]);
    if 0 <= j < i {
        joined_at(given, n, j);
        assert(given[j] == order[j]);
        hand_out_has_no_doubles(peers, n, j, i);
    }
    if peers[order[i]].flags & 0x80 != 0 && peers.contains_key(leecher) && peers[leecher].flags
        & 0x80 == 0 {
        assert(order.contains(leecher));
        let m = choose|m: int| 0 <= m < order.len() && order[m] == leecher;
        assert(m != i);
        if i < m {
            peers::leechers_come_first(peers, i, m);
        }
        joined_at(given, n, m);
        assert(nth(peers::compact(peers, numwant), n, m) == leecher);
    }
}

/// A client that wants at least as many peers as there are gets every one of them.
pub proof fn everyone_is_listed(peers: Map<Seq<u8>, PeerVal>, n: nat, numwant: nat, k: Seq<u8>)
    requires
        peers.dom().finite(),
        0 < n <= 20,
        forall|k: Seq<u8>| #[trigger] peers.contains_key(k) ==> k.len() == n,
        peers.len() <= numwant,
        peers.contains_key(k),
    ensures
        exists|m: int| 0 <= m < peers.len() && nth(peers::compact(peers, numwant), n, m) == k,
{
    peers::hand_out_is_everyone(peers, n);
    let order = peers::hand_out(peers);
    let given = peers::up_to(order, numwant);
    assert(given =~= order);
    assert forall|m: int| 0 <= m < given.len() implies (#[trigger] given[m]).len() == n by {
        assert(peers.contains_key(order[m]));
    }
    assert(order.contains(k));
    let m = choose|m: int| 0 <= m < order.len() && order[m] == k;
    joined_at(given, n, m);
    assert(nth(peers::compact(peers, numwant), n, m) == k);
}

} // verus!
