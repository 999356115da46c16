//! What holds of the store: the counters of a torrent, sweeps, totals.

use vstd::prelude::*;

use crate::bytemap;
use crate::laws::swarm;
use crate::peers;
use crate::peers::PeerVal;
use crate::store;
use crate::store::TorrentView;

verus! {

/// The counters of a torrent cover both families: together they count every peer once, and the
/// seeders among them are the peers whose flag byte says so, IPv4 and IPv6 alike. Downloads of
/// both families add up.
pub proof fn counters_cover_both_families(t: TorrentView)
    requires
        t.valid(),
        t.v4.peers.len() + t.v6.peers.len() < 0x1_0000_0000,
        t.v4.downloaded + t.v6.downloaded < 0x1_0000_0000,
    ensures
        t.counts().complete == swarm::top_bit_set(t.v4.peers).len() + swarm::top_bit_set(
            t.v6.peers,
        ).len(),
        t.counts().complete + t.counts().incomplete == t.v4.peers.len() + t.v6.peers.len(),
        t.counts().downloaded == t.v4.downloaded + t.v6.downloaded,
{
    swarm::seeders_are_by_flag(t.v4.peers);
    swarm::seeders_are_by_flag(t.v6.peers);
}

/// Counters are given in 32 bits: of a larger number the low ones.
pub proof fn counters_are_of_32_bits(t: TorrentView)
    requires
        t.valid(),
    ensures
        ({
            let seeders = swarm::top_bit_set(t.v4.peers).len() + swarm::top_bit_set(
                t.v6.peers,
            ).len();
            let everyone = t.v4.peers.len() + t.v6.peers.len();
            &&& t.counts().complete == seeders % 0x1_0000_0000
            &&& t.counts().incomplete == (everyone - seeders) % 0x1_0000_0000
            &&& t.counts().downloaded == (t.v4.downloaded + t.v6.downloaded) % 0x1_0000_0000
        }),
{
    swarm::seeders_are_by_flag(t.v4.peers);
    swarm::seeders_are_by_flag(t.v6.peers);
}

/// A torrent that nobody knows has no peers and no downloads to count.
pub proof fn unknown_torrent_counts_nothing(torrents: Map<Seq<u8>, TorrentView>, hash: Seq<u8>)
    requires
        !torrents.contains_key(hash),
    ensures
        store::known(torrents, hash).counts().complete == 0,
        store::known(torrents, hash).counts().incomplete == 0,
        store::known(torrents, hash).counts().downloaded == 0,
        store::no_counts() == store::known(torrents, hash).counts(),
{
    let t = store::known(torrents, hash);
    assert(peers::seed_set(t.v4.peers) =~= Set::empty());
    assert(peers::seed_set(t.v6.peers) =~= Set::empty());
}

/// An announce or a departure of one family leaves the other family's swarm as it is, and sets the
/// time of the torrent's last announce.
pub proof fn families_are_apart(t: TorrentView, key: Seq<u8>, flags: u8, now: u32)
    ensures
        t.announced_v4(key, flags, now).v6 == t.v6,
        t.announced_v6(key, flags, now).v4 == t.v4,
        t.announced_v4(key, flags, now).v4.peers.contains_key(key),
        t.announced_v6(key, flags, now).v6.peers.contains_key(key),
        t.removed_v4(key, now).v6 == t.v6,
        t.removed_v6(key, now).v4 == t.v4,
        !t.removed_v4(key, now).v4.peers.contains_key(key),
        !t.removed_v6(key, now).v6.peers.contains_key(key),
        t.announced_v4(key, flags, now).base == now,
        t.announced_v6(key, flags, now).base == now,
        t.removed_v4(key, now).base == now,
        t.removed_v6(key, now).base == now,
{
}

/// A new seeder raises the number of seeders by one and no other counter; so does a new leecher
/// the number of leechers, in either family.
pub proof fn newcomer_is_counted(t: TorrentView, key: Seq<u8>, now: u32)
    requires
        t.valid(),
        t.v4.peers.len() + t.v6.peers.len() + 1 < 0x1_0000_0000,
        !t.v4.peers.contains_key(key),
        !t.v6.peers.contains_key(key),
    ensures
        ({
            let c = t.counts();
            let s4 = t.announced_v4(key, 0x80, now).counts();
            let s6 = t.announced_v6(key, 0x80, now).counts();
            let l4 = t.announced_v4(key, 0, now).counts();
            let l6 = t.announced_v6(key, 0, now).counts();
            &&& s4.complete == c.complete + 1 && s4.incomplete == c.incomplete && s4.downloaded
                == c.downloaded
            &&& s6.complete == c.complete + 1 && s6.incomplete == c.incomplete && s6.downloaded
                == c.downloaded
            &&& l4.incomplete == c.incomplete + 1 && l4.complete == c.complete && l4.downloaded
                == c.downloaded
            &&& l6.incomplete == c.incomplete + 1 && l6.complete == c.complete && l6.downloaded
                == c.downloaded
        }),
{
    assert(0x80u8 & 0x80 != 0 && 0u8 & 0x80 == 0 && 0x80u8 & 0x40 == 0 && 0u8 & 0x40 == 0)
        by (bit_vector);
    assert forall|f: u8| f == 0x80 || f == 0 implies #[trigger] peers::sanitized(f) == f by {}
    let seeder = PeerVal { flags: 0x80, seen: now };
    let leecher = PeerVal { flags: 0, seen: now };
    peers::seed_count_insert(t.v4.peers, key, seeder);
    peers::seed_count_insert(t.v6.peers, key, seeder);
    peers::seed_count_insert(t.v4.peers, key, leecher);
    peers::seed_count_insert(t.v6.peers, key, leecher);
}

/// A sweep drops every peer unseen for 45 minutes, of either family and whatever its flags, and
/// keeps every other as it was, with the recorded downloads and the time of the last announce.
pub proof fn sweep_drops_stale_peers(
    torrents: Map<Seq<u8>, TorrentView>,
    hash: Seq<u8>,
    k: Seq<u8>,
    now: u32,
)
    requires
        store::swept(torrents, now).contains_key(hash),
    ensures
        ({
            let t = torrents[hash];
            let after = store::swept(torrents, now)[hash];
            &&& torrents.contains_key(hash)
            &&& after.v4.peers.contains_key(k) == (t.v4.peers.contains_key(k) && now
                < t.v4.peers[k].seen + 45)
            &&& after.v6.peers.contains_key(k) == (t.v6.peers.contains_key(k) && now
                < t.v6.peers[k].seen + 45)
            &&& after.v4.peers.contains_key(k) ==> after.v4.peers[k] == t.v4.peers[k]
            &&& after.v6.peers.contains_key(k) ==> after.v6.peers[k] == t.v6.peers[k]
            &&& after.v4.downloaded == t.v4.downloaded
            &&& after.v6.downloaded == t.v6.downloaded
            &&& after.base == t.base
        }),
{
    swarm::expiry_goes_by_age(torrents[hash].v4, now, 45, k);
    swarm::expiry_goes_by_age(torrents[hash].v6, now, 45, k);
}

/// A sweep collects a torrent exactly if nobody announced it for 24 hours, no peer of it was seen
/// in the last 45 minutes, and no download of it was ever recorded.
pub proof fn sweep_collects_forgotten_torrents(
    torrents: Map<Seq<u8>, TorrentView>,
    hash: Seq<u8>,
    now: u32,
)
    ensures
        !torrents.contains_key(hash) ==> !store::swept(torrents, now).contains_key(hash),
        torrents.contains_key(hash) ==> (!store::swept(torrents, now).contains_key(hash) <==> {
            let t = torrents[hash];
            &&& now >= t.base + 1440
            &&& t.v4.downloaded == 0
            &&& t.v6.downloaded == 0
            &&& forall|k: Seq<u8>| #[trigger]
                t.v4.peers.contains_key(k) ==> now >= t.v4.peers[k].seen + 45
            &&& forall|k: Seq<u8>| #[trigger]
                t.v6.peers.contains_key(k) ==> now >= t.v6.peers[k].seen + 45
        }),
{
    if torrents.contains_key(hash) {
        let t = torrents[hash];
        let after = t.swept(now);
        assert forall|k: Seq<u8>| #[trigger]
            t.v4.peers.contains_key(k) implies after.v4.peers.contains_key(k) == (now
            < t.v4.peers[k].seen + 45) by {
            swarm::expiry_goes_by_age(t.v4, now, 45, k);
        }
        assert forall|k: Seq<u8>| #[trigger]
            t.v6.peers.contains_key(k) implies after.v6.peers.contains_key(k) == (now
            < t.v6.peers[k].seen + 45) by {
            swarm::expiry_goes_by_age(t.v6, now, 45, k);
        }
        assert forall|k: Seq<u8>| #[trigger]
            after.v4.peers.contains_key(k) implies t.v4.peers.contains_key(k) by {}
        assert forall|k: Seq<u8>| #[trigger]
            after.v6.peers.contains_key(k) implies t.v6.peers.contains_key(k) by {}
        if forall|k: Seq<u8>| #[trigger]
            t.v4.peers.contains_key(k) ==> now >= t.v4.peers[k].seen + 45 {
            assert(after.v4.peers =~= Map::<Seq<u8>, PeerVal>::empty());
        }
        if forall|k: Seq<u8>| #[trigger]
            t.v6.peers.contains_key(k) ==> now >= t.v6.peers[k].seen + 45 {
            assert(after.v6.peers =~= Map::<Seq<u8>, PeerVal>::empty());
        }
        if after.is_empty() {
            assert forall|k: Seq<u8>| #[trigger] t.v4.peers.contains_key(k) implies now
                >= t.v4.peers[k].seen + 45 by {
                assert(!after.v4.peers.contains_key(k));
            }
            assert forall|k: Seq<u8>| #[trigger] t.v6.peers.contains_key(k) implies now
                >= t.v6.peers[k].seen + 45 by {
                assert(!after.v6.peers.contains_key(k));
            }
        }
    }
}

/// The sum over some torrents is that over the others and what the one left out has.
proof fn tally_without(ks: Seq<Seq<u8>>, i: int, f: spec_fn(Seq<u8>) -> nat)
    requires
        0 <= i < ks.len(),
    ensures
        store::tally(ks, f) == store::tally(ks.remove(i), f) + f(ks[i]),
    decreases ks.len(),
{
    let rest = ks.remove(i);
    if i == ks.len() - 1 {
        assert(rest =~= ks.drop_last());
    } else {
        tally_without(ks.drop_last(), i, f);
        assert(rest.drop_last() =~= ks.drop_last().remove(i));
        assert(rest.last() == ks.last());
    }
}

/// A sum depends only on what is summed.
proof fn tally_agrees(ks: Seq<Seq<u8>>, f: spec_fn(Seq<u8>) -> nat, g: spec_fn(Seq<u8>) -> nat)
    requires
        forall|i: int| 0 <= i < ks.len() ==> f(#[trigger] ks[i]) == g(ks[i]),
    ensures
        store::tally(ks, f) == store::tally(ks, g),
    decreases ks.len(),
{
    if ks.len() > 0 {
        assert(f(ks[ks.len() - 1]) == g(ks[ks.len() - 1]));
        assert forall|i: int| 0 <= i < ks.drop_last().len() implies f(#[trigger] ks.drop_last()[i])
            == g(ks.drop_last()[i]) by {
            assert(f(ks[i]) == g(ks[i]));
        }
        tally_agrees(ks.drop_last(), f, g);
    }
}

/// The totals are sums over all torrents: taking a torrent out takes its seeders and leechers of
/// both families, and itself, off the totals; of nothing they are zero.
pub proof fn totals_add_up(torrents: Map<Seq<u8>, TorrentView>, hash: Seq<u8>)
    requires
        torrents.dom().finite(),
        forall|h: Seq<u8>| #[trigger] torrents.contains_key(h) ==> h.len() == 20,
        torrents.contains_key(hash),
        torrents[hash].valid(),
    ensures
        ({
            let with = store::totals_of(torrents);
            let without = store::totals_of(torrents.remove(hash));
            let t = torrents[hash];
            let seeders = swarm::top_bit_set(t.v4.peers).len() + swarm::top_bit_set(
                t.v6.peers,
            ).len();
            let peers = t.v4.peers.len() + t.v6.peers.len();
            &&& with.torrents == (without.torrents + 1) % 0x1_0000_0000_0000_0000
            &&& with.seeders == (without.seeders + seeders) % 0x1_0000_0000_0000_0000
            &&& with.leechers == (without.leechers + (peers - seeders)) % 0x1_0000_0000_0000_0000
        }),
{
    let t = torrents[hash];
    let rest = torrents.remove(hash);
    swarm::seeders_are_by_flag(t.v4.peers);
    swarm::seeders_are_by_flag(t.v6.peers);
    assert forall|h: Seq<u8>| #[trigger] torrents.dom().contains(h) implies h.len() == 20 by {
        assert(torrents.contains_key(h));
    }
    bytemap::listing_exists(torrents.dom(), 20);
    bytemap::listing_len(torrents.dom());
    let ks = bytemap::listing(torrents.dom());
    assert(ks.contains(hash));
    let i = choose|i: int| 0 <= i < ks.len() && ks[i] == hash;
    let others = ks.remove(i);
    listing_without(ks, torrents.dom(), i);
    assert(rest.dom() =~= torrents.dom().remove(hash));
    bytemap::listing_unique(others, rest.dom());
    let fs = |h: Seq<u8>| torrents[h].seeders();
    let fl = |h: Seq<u8>| torrents[h].leechers();
    let gs = |h: Seq<u8>| rest[h].seeders();
    let gl = |h: Seq<u8>| rest[h].leechers();
    tally_without(ks, i, fs);
    tally_without(ks, i, fl);
    assert forall|j: int| 0 <= j < others.len() implies rest.contains_key(
        #[trigger] others[j],
    ) by {
        assert(rest.dom().contains(others[j]));
    }
    tally_agrees(others, fs, gs);
    tally_agrees(others, fl, gl);
    vstd::arithmetic::div_mod::lemma_add_mod_noop(
        store::tally(others, gs) as int,
        t.seeders() as int,
        0x1_0000_0000_0000_0000,
    );
    vstd::arithmetic::div_mod::lemma_add_mod_noop(
        store::tally(others, gl) as int,
        t.leechers() as int,
        0x1_0000_0000_0000_0000,
    );
    vstd::arithmetic::div_mod::lemma_add_mod_noop(
        rest.len() as int,
        1,
        0x1_0000_0000_0000_0000,
    );
    vstd::arithmetic::div_mod::lemma_add_mod_noop_right(
        store::tally(others, gs) as int % 0x1_0000_0000_0000_0000,
        t.seeders() as int,
        0x1_0000_0000_0000_0000,
    );
    vstd::arithmetic::div_mod::lemma_add_mod_noop_right(
        store::tally(others, gl) as int % 0x1_0000_0000_0000_0000,
        t.leechers() as int,
        0x1_0000_0000_0000_0000,
    );
}

/// A listing without one member lists the others.
proof fn listing_without(ks: Seq<Seq<u8>>, dom: Set<Seq<u8>>, i: int)
    requires
        bytemap::is_listing(ks, dom),
        0 <= i < ks.len(),
        ks[i].len() == 20,
    ensures
        bytemap::is_listing(ks.remove(i), dom.remove(ks[i])),
{
    let r = ks.remove(i);
    assert forall|j: int| 0 <= j < r.len() implies dom.remove(ks[i]).contains(#[trigger] r[j]) by {
        let m = if j < i {
            j
        } else {
            j + 1
        };
        assert(r[j] == ks[m]);
        assert(dom.contains(ks[m]));
        if m < i {
            assert(bytemap::before(ks[m], ks[i]));
        } else {
            assert(bytemap::before(ks[i], ks[m]));
        }
    }
    assert forall|k: Seq<u8>| #[trigger] dom.remove(ks[i]).contains(k) implies r.contains(k) by {
        assert(dom.contains(k));
        let m = choose|m: int| 0 <= m < ks.len() && ks[m] == k;
        if m < i {
            assert(r[m] == k);
        } else {
            assert(r[m - 1] == k);
        }
    }
    assert forall|a: int, b: int| 0 <= a < b < r.len() implies bytemap::before(
        #[trigger] r[a],
        #[trigger] r[b],
    ) by {
        let fa = if a < i {
            a
        } else {
            a + 1
        };
        let fb = if b < i {
            b
        } else {
            b + 1
        };
        assert(bytemap::before(ks[fa], ks[fb]));
    }
}

/// The totals of nothing are zero.
pub proof fn empty_store_has_no_totals()
    ensures
        ({
            let none = store::totals_of(Map::<Seq<u8>, TorrentView>::empty());
            none.torrents == 0 && none.seeders == 0 && none.leechers == 0
        }),
{
    let torrents = Map::<Seq<u8>, TorrentView>::empty();
    bytemap::listing_exists(torrents.dom(), 20);
    bytemap::listing_len(torrents.dom());
}

/// A torrent's shard is the top ten bits of its hash.
pub proof fn shard_is_the_top_ten_bits(hash: Seq<u8>)
    requires
        hash.len() == 20,
    ensures
        store::shard_of(hash) == hash[0] * 4 + hash[1] / 64,
{
    let top = hash.take(4);
    assert(top =~= seq![hash[0], hash[1], hash[2], hash[3]]);
    crate::laws::wire::bytes_weigh_by_place(hash[0], hash[1], hash[2], hash[3]);
}

} // verus!
