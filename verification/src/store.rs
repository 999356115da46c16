//! In-memory, sharded torrent/peer store.
//!
//! Torrents are spread over [`SHARD_COUNT`] shards keyed by the top 10 bits of the info-hash.
//! Peers are held per family (v4 / v6) in their compact wire form (`ip + port`), so building an
//! announce/scrape response is a copy, not a serialization. State is ephemeral: peers age out and
//! empty torrents are collected; nothing is persisted.
//!
//! The model is a `Map` from info-hashes to torrents.

use vstd::prelude::*;

use crate::bytemap;
use crate::bytemap::ByteMap;
use crate::peers;
use crate::peers::{PeerList, PeerVal, SwarmView};
use crate::wire;
use crate::InfoHash;

verus! {

/// Number of top-level shards.
pub const SHARD_COUNT: usize = 1024;

/// Minutes of inactivity after which a peer is dropped.
pub const PEER_TIMEOUT_MINUTES: u32 = 45;

/// Minutes of inactivity after which an empty torrent is collected (24 h).
pub const TORRENT_TIMEOUT_MINUTES: u32 = 24 * 60;

/// Combined (v4 + v6) swarm counters for a torrent.
#[derive(Debug, Clone, Copy, PartialEq, Eq, Structural)]
pub struct Counts {
    /// Number of seeders (peers with the complete torrent).
    pub complete: u32,
    /// Number of leechers (peers still downloading).
    pub incomplete: u32,
    /// Number of completed downloads recorded.
    pub downloaded: u32,
}

impl Default for Counts {
    fn default() -> (r: Self)
        ensures
            r == no_counts(),
    {
        Counts { complete: 0, incomplete: 0, downloaded: 0 }
    }
}

/// The counts of a torrent that is not known.
pub open spec fn no_counts() -> Counts {
    Counts { complete: 0, incomplete: 0, downloaded: 0 }
}

/// Store-wide totals, for the gauges.
#[derive(Debug, Clone, Copy, PartialEq, Eq, Structural)]
pub struct Totals {
    /// Torrents currently tracked.
    pub torrents: u64,
    /// Seeders across all torrents.
    pub seeders: u64,
    /// Leechers across all torrents.
    pub leechers: u64,
}

/// A torrent: its swarm of each family and the minute of its last announce.
#[verifier::ext_equal]
pub struct TorrentView {
    pub v4: SwarmView,
    pub v6: SwarmView,
    pub base: u32,
}

impl TorrentView {
    /// A torrent that nobody has announced yet.
    pub open spec fn empty() -> TorrentView {
        TorrentView { v4: SwarmView::empty(), v6: SwarmView::empty(), base: 0 }
    }

    /// There are finitely many peers, and their addresses have the length of their family.
    pub open spec fn valid(self) -> bool {
        &&& self.v4.peers.dom().finite()
        &&& self.v6.peers.dom().finite()
        &&& forall|k: Seq<u8>| #[trigger] self.v4.peers.contains_key(k) ==> k.len() == 6
        &&& forall|k: Seq<u8>| #[trigger] self.v6.peers.contains_key(k) ==> k.len() == 18
    }

    /// Seeders of both families.
    pub open spec fn seeders(self) -> nat {
        peers::seed_count(self.v4.peers) + peers::seed_count(self.v6.peers)
    }

    /// Leechers of both families.
    pub open spec fn leechers(self) -> nat {
        (self.v4.peers.len() + self.v6.peers.len() - self.seeders()) as nat
    }

    /// The counters on the wire: 32 bits each.
    pub open spec fn counts(self) -> Counts {
        Counts {
            complete: (self.seeders() % 0x1_0000_0000) as u32,
            incomplete: (self.leechers() % 0x1_0000_0000) as u32,
            downloaded: ((self.v4.downloaded + self.v6.downloaded) % 0x1_0000_0000) as u32,
        }
    }

    /// Neither peers nor download history.
    pub open spec fn is_empty(self) -> bool {
        &&& self.v4.peers == Map::<Seq<u8>, PeerVal>::empty()
        &&& self.v6.peers == Map::<Seq<u8>, PeerVal>::empty()
        &&& self.v4.downloaded == 0
        &&& self.v6.downloaded == 0
    }

    /// The torrent without its stale peers.
    pub open spec fn swept(self, now: u32) -> TorrentView {
        TorrentView {
            v4: self.v4.expired(now, PEER_TIMEOUT_MINUTES),
            v6: self.v6.expired(now, PEER_TIMEOUT_MINUTES),
            base: self.base,
        }
    }

    /// Whether a sweep collects the torrent: empty once swept, and idle for long enough.
    pub open spec fn collected(self, now: u32) -> bool {
        self.swept(now).is_empty() && now >= self.base + TORRENT_TIMEOUT_MINUTES
    }

    /// The torrent after a v4 peer announced.
    pub open spec fn announced_v4(self, key: Seq<u8>, flags: u8, now: u32) -> TorrentView {
        TorrentView { v4: self.v4.announced(key, flags, now), v6: self.v6, base: now }
    }

    /// The torrent after a v6 peer announced.
    pub open spec fn announced_v6(self, key: Seq<u8>, flags: u8, now: u32) -> TorrentView {
        TorrentView { v4: self.v4, v6: self.v6.announced(key, flags, now), base: now }
    }

    /// The torrent after a v4 peer left.
    pub open spec fn removed_v4(self, key: Seq<u8>, now: u32) -> TorrentView {
        TorrentView { v4: self.v4.removed(key), v6: self.v6, base: now }
    }

    /// The torrent after a v6 peer left.
    pub open spec fn removed_v6(self, key: Seq<u8>, now: u32) -> TorrentView {
        TorrentView { v4: self.v4, v6: self.v6.removed(key), base: now }
    }
}

/// What the store knows of a torrent; an unknown one is empty.
pub open spec fn known(torrents: Map<Seq<u8>, TorrentView>, hash: Seq<u8>) -> TorrentView {
    if torrents.contains_key(hash) {
        torrents[hash]
    } else {
        TorrentView::empty()
    }
}

/// The store after a sweep.
pub open spec fn swept(torrents: Map<Seq<u8>, TorrentView>, now: u32) -> Map<
    Seq<u8>,
    TorrentView,
> {
    Map::new(
        |h: Seq<u8>| torrents.contains_key(h) && !torrents[h].collected(now),
        |h: Seq<u8>| torrents[h].swept(now),
    )
}

/// Sweeping twice at one time is sweeping once, and a later sweep does not depend on the earlier.
pub proof fn sweeps_compose(torrents: Map<Seq<u8>, TorrentView>, earlier: u32, later: u32)
    requires
        earlier <= later,
    ensures
        swept(swept(torrents, earlier), later) == swept(torrents, later),
{
    assert forall|h: Seq<u8>| #[trigger] torrents.contains_key(h) implies {
        &&& torrents[h].swept(earlier).swept(later) == torrents[h].swept(later)
        &&& torrents[h].collected(earlier) ==> torrents[h].collected(later)
    } by {
        let t = torrents[h];
        assert(t.swept(earlier).swept(later).v4.peers =~= t.swept(later).v4.peers);
        assert(t.swept(earlier).swept(later).v6.peers =~= t.swept(later).v6.peers);
        if t.collected(earlier) {
            assert forall|k: Seq<u8>| !t.swept(later).v4.peers.contains_key(k) by {
                assert(!t.swept(earlier).v4.peers.contains_key(k));
            }
            assert forall|k: Seq<u8>| !t.swept(later).v6.peers.contains_key(k) by {
                assert(!t.swept(earlier).v6.peers.contains_key(k));
            }
            assert(t.swept(later).v4.peers =~= Map::<Seq<u8>, PeerVal>::empty());
            assert(t.swept(later).v6.peers =~= Map::<Seq<u8>, PeerVal>::empty());
        }
    }
    assert(swept(swept(torrents, earlier), later) =~= swept(torrents, later));
}

/// A sweep keeps every peer seen within the timeout, and every torrent that still has one.
pub proof fn sweep_keeps_active_peers(
    torrents: Map<Seq<u8>, TorrentView>,
    hash: Seq<u8>,
    key: Seq<u8>,
    now: u32,
)
    requires
        torrents.contains_key(hash),
    ensures
        torrents[hash].v4.peers.contains_key(key) && now < torrents[hash].v4.peers[key].seen
            + PEER_TIMEOUT_MINUTES ==> swept(torrents, now).contains_key(hash) && swept(
            torrents,
            now,
        )[hash].v4.peers.contains_key(key),
        torrents[hash].v6.peers.contains_key(key) && now < torrents[hash].v6.peers[key].seen
            + PEER_TIMEOUT_MINUTES ==> swept(torrents, now).contains_key(hash) && swept(
            torrents,
            now,
        )[hash].v6.peers.contains_key(key),
{
    let t = torrents[hash];
    if t.v4.peers.contains_key(key) && now < t.v4.peers[key].seen + PEER_TIMEOUT_MINUTES {
        assert(t.swept(now).v4.peers.contains_key(key));
    }
    if t.v6.peers.contains_key(key) && now < t.v6.peers[key].seen + PEER_TIMEOUT_MINUTES {
        assert(t.swept(now).v6.peers.contains_key(key));
    }
}

/// A torrent with recorded downloads is never collected.
pub proof fn download_history_survives(t: TorrentView, now: u32)
    requires
        t.v4.downloaded != 0 || t.v6.downloaded != 0,
    ensures
        !t.collected(now),
{
}

/// Every peer of a torrent is counted, once: as a seeder or as a leecher.
pub proof fn counts_cover_all_peers(t: TorrentView)
    requires
        t.valid(),
    ensures
        t.seeders() + t.leechers() == t.v4.peers.len() + t.v6.peers.len(),
{
    peers::seed_count_remove(t.v4.peers, Seq::empty());
    peers::seed_count_remove(t.v6.peers, Seq::empty());
}

/// The shard that a torrent belongs to: the top 10 bits of its info-hash.
pub open spec fn shard_of(hash: Seq<u8>) -> int {
    wire::be_nat(hash.take(4)) as int / 0x40_0000
}

/// The sum of a quantity over torrents.
pub open spec fn tally(ks: Seq<Seq<u8>>, f: spec_fn(Seq<u8>) -> nat) -> nat
    decreases ks.len(),
{
    if ks.len() == 0 {
        0
    } else {
        tally(ks.drop_last(), f) + f(ks.last())
    }
}

/// The totals over a store, 64 bits each.
pub open spec fn totals_of(torrents: Map<Seq<u8>, TorrentView>) -> Totals {
    let hashes = bytemap::listing(torrents.dom());
    Totals {
        torrents: (torrents.len() % 0x1_0000_0000_0000_0000) as u64,
        seeders: (tally(hashes, |h: Seq<u8>| torrents[h].seeders())
            % 0x1_0000_0000_0000_0000) as u64,
        leechers: (tally(hashes, |h: Seq<u8>| torrents[h].leechers())
            % 0x1_0000_0000_0000_0000) as u64,
    }
}

/// Adding to a sum kept modulo `m`.
proof fn wrapped_sum(sum: int, x: int, m: int)
    requires
        0 <= sum,
        0 <= x < m,
    ensures
        (sum + x) % m == (if sum % m + x >= m {
            sum % m + x - m
        } else {
            sum % m + x
        }),
{
    let r = sum % m;
    let q = sum / m;
    vstd::arithmetic::div_mod::lemma_fundamental_div_mod(sum, m);
    assert(0 <= r < m) by {
        vstd::arithmetic::div_mod::lemma_mod_bound(sum, m);
    }
    if r + x >= m {
        assert(sum + x == (q + 1) * m + (r + x - m)) by (nonlinear_arith)
            requires
                sum == m * q + r,
        ;
        vstd::arithmetic::div_mod::lemma_fundamental_div_mod_converse(
            sum + x,
            m,
            q + 1,
            r + x - m,
        );
    } else {
        assert(sum + x == q * m + (r + x)) by (nonlinear_arith)
            requires
                sum == m * q + r,
        ;
        vstd::arithmetic::div_mod::lemma_fundamental_div_mod_converse(sum + x, m, q, r + x);
    }
}

/// A sum may be taken of the parts kept in 64 bits.
proof fn sum_mod(a: int, x: int)
    ensures
        (a % 0x1_0000_0000_0000_0000 + x % 0x1_0000_0000_0000_0000) % 0x1_0000_0000_0000_0000 == (a
            + x) % 0x1_0000_0000_0000_0000,
{
    vstd::arithmetic::div_mod::lemma_add_mod_noop(a, x, 0x1_0000_0000_0000_0000);
}

/// A sum kept in 64 bits.
fn sum_u64(a: u64, b: u64) -> (r: u64)
    ensures
        r == (a + b) % 0x1_0000_0000_0000_0000,
{
    a.wrapping_add(b)
}

proof fn tally_push(ks: Seq<Seq<u8>>, k: Seq<u8>, f: spec_fn(Seq<u8>) -> nat)
    ensures
        tally(ks.push(k), f) == tally(ks, f) + f(k),
{
    assert(ks.push(k).drop_last() =~= ks);
}

proof fn tally_add(a: Seq<Seq<u8>>, b: Seq<Seq<u8>>, f: spec_fn(Seq<u8>) -> nat)
    ensures
        tally(a + b, f) == tally(a, f) + tally(b, f),
    decreases b.len(),
{
    if b.len() == 0 {
        assert(a + b =~= a);
    } else {
        assert((a + b).drop_last() =~= a + b.drop_last());
        tally_add(a, b.drop_last(), f);
    }
}

proof fn tally_same(
    ks: Seq<Seq<u8>>,
    f: spec_fn(Seq<u8>) -> nat,
    g: spec_fn(Seq<u8>) -> nat,
)
    requires
        forall|i: int| 0 <= i < ks.len() ==> f(#[trigger] ks[i]) == g(ks[i]),
    ensures
        tally(ks, f) == tally(ks, g),
    decreases ks.len(),
{
    if ks.len() > 0 {
        tally_same(ks.drop_last(), f, g);
        assert(f(ks[ks.len() - 1]) == g(ks[ks.len() - 1]));
    }
}

/// A torrent's peers of both families.
pub struct Torrent {
    v4: PeerList<6>,
    v6: PeerList<18>,
    base: u32,
}

impl View for Torrent {
    type V = TorrentView;

    closed spec fn view(&self) -> TorrentView {
        TorrentView { v4: self.v4@, v6: self.v6@, base: self.base }
    }
}

impl Torrent {
    /// Both peer lists are valid.
    pub closed spec fn wf(&self) -> bool {
        self.v4.wf() && self.v6.wf()
    }

    fn new() -> (r: Self)
        ensures
            r.wf(),
            r@ == TorrentView::empty(),
    {
        Torrent { v4: PeerList::new(), v6: PeerList::new(), base: 0 }
    }

    fn counts(&self) -> (r: Counts)
        requires
            self.wf(),
        ensures
            r == self@.counts(),
    {
        proof {
            self.v4.bounds();
            self.v6.bounds();
        }
        let complete: u128 = self.v4.seeders() as u128 + self.v6.seeders() as u128;
        let incomplete: u128 = self.v4.leechers() as u128 + self.v6.leechers() as u128;
        let downloaded: u128 = self.v4.downloaded() as u128 + self.v6.downloaded() as u128;
        Counts {
            complete: (complete % 0x1_0000_0000) as u32,
            incomplete: (incomplete % 0x1_0000_0000) as u32,
            downloaded: (downloaded % 0x1_0000_0000) as u32,
        }
    }

    fn is_empty(&self) -> (r: bool)
        requires
            self.wf(),
        ensures
            r == self@.is_empty(),
    {
        self.v4.is_empty() && self.v6.is_empty() && self.v4.downloaded() == 0
            && self.v6.downloaded() == 0
    }

    /// Seeders and leechers of both families, 64 bits each.
    fn totals(&self) -> (r: (u64, u64))
        requires
            self.wf(),
        ensures
            r.0 == self@.seeders() % 0x1_0000_0000_0000_0000,
            r.1 == self@.leechers() % 0x1_0000_0000_0000_0000,
    {
        proof {
            self.v4.bounds();
            self.v6.bounds();
        }
        let seeders: u128 = self.v4.seeders() as u128 + self.v6.seeders() as u128;
        let leechers: u128 = self.v4.leechers() as u128 + self.v6.leechers() as u128;
        (
            (seeders % 0x1_0000_0000_0000_0000) as u64,
            (leechers % 0x1_0000_0000_0000_0000) as u64,
        )
    }

    /// Drop stale peers; says whether the torrent is to be kept.
    fn sweep(&mut self, now: u32) -> (keep: bool)
        requires
            old(self).wf(),
        ensures
            final(self).wf(),
            final(self)@ == old(self)@.swept(now),
            keep == !old(self)@.collected(now),
    {
        self.v4.expire(now, PEER_TIMEOUT_MINUTES);
        self.v6.expire(now, PEER_TIMEOUT_MINUTES);
        !(self.is_empty() && now.saturating_sub(self.base) >= TORRENT_TIMEOUT_MINUTES)
    }
}

type Shard = ByteMap<20, Torrent>;

/// A shard is valid: its map and every torrent in it.
spec fn shard_wf(shard: Shard) -> bool {
    &&& shard.wf()
    &&& forall|h: Seq<u8>| #[trigger] shard@.contains_key(h) ==> shard@[h].wf()
}

/// The torrents of a shard.
spec fn shard_view(shard: Shard) -> Map<Seq<u8>, TorrentView> {
    Map::new(|h: Seq<u8>| shard@.contains_key(h), |h: Seq<u8>| shard@[h]@)
}

/// Seeders and leechers of one shard, 64 bits each.
fn shard_totals(shard: &Shard) -> (r: (u64, u64))
    requires
        shard_wf(*shard),
    ensures
        bytemap::is_listing(bytemap::listing(shard@.dom()), shard@.dom()),
        r.0 == tally(bytemap::listing(shard@.dom()), |h: Seq<u8>| shard@[h]@.seeders())
            % 0x1_0000_0000_0000_0000,
        r.1 == tally(bytemap::listing(shard@.dom()), |h: Seq<u8>| shard@[h]@.leechers())
            % 0x1_0000_0000_0000_0000,
{
    let ghost ks = bytemap::listing(shard@.dom());
    let ghost fs = |h: Seq<u8>| shard@[h]@.seeders();
    let ghost fl = |h: Seq<u8>| shard@[h]@.leechers();
    let mut seeders: u64 = 0;
    let mut leechers: u64 = 0;
    let iter = shard.entries();
    assert(ks.take(0) =~= Seq::empty());
    for entry in it: iter
        invariant
            shard_wf(*shard),
            ks == bytemap::listing(shard@.dom()),
            bytemap::is_listing(ks, shard@.dom()),
            fs == (|h: Seq<u8>| shard@[h]@.seeders()),
            fl == (|h: Seq<u8>| shard@[h]@.leechers()),
            it.seq().len() == ks.len(),
            forall|j: int|
                0 <= j < it.seq().len() ==> {
                    &&& (#[trigger] it.seq()[j]).1.0@ == ks[j]
                    &&& it.seq()[j].1.1 == shard@[ks[j]]
                },
            seeders == tally(ks.take(it.index() as int), fs) % 0x1_0000_0000_0000_0000,
            leechers == tally(ks.take(it.index() as int), fl) % 0x1_0000_0000_0000_0000,
    {
        let ghost j = it.index() as int;
        let t: &Torrent = &entry.1.1;
        proof {
            assert(shard@.dom().contains(ks[j]));
            assert(shard@.contains_key(ks[j]));
            assert(ks.take(j + 1) =~= ks.take(j).push(ks[j]));
            tally_push(ks.take(j), ks[j], fs);
            tally_push(ks.take(j), ks[j], fl);
            sum_mod(tally(ks.take(j), fs) as int, t@.seeders() as int);
            sum_mod(tally(ks.take(j), fl) as int, t@.leechers() as int);
        }
        let (s, l) = t.totals();
        seeders = sum_u64(seeders, s);
        leechers = sum_u64(leechers, l);
    }
    assert(ks.take(ks.len() as int) =~= ks);
    (seeders, leechers)
}

/// The info-hashes of the first `n` shards, in ascending order.
spec fn shard_listing(shards: Seq<Shard>, n: nat) -> Seq<Seq<u8>>
    decreases n,
{
    if n == 0 {
        Seq::empty()
    } else {
        shard_listing(shards, (n - 1) as nat) + bytemap::listing(shards[n - 1]@.dom())
    }
}

/// Torrents of a lower shard come first in ascending order.
proof fn shard_order(a: Seq<u8>, b: Seq<u8>)
    requires
        a.len() == 20,
        b.len() == 20,
        shard_of(a) < shard_of(b),
    ensures
        bytemap::before(a, b),
{
    assert(a.take(16).take(4) =~= a.take(4));
    assert(b.take(16).take(4) =~= b.take(4));
    wire::be_nat_prefix_order(a.take(16), b.take(16), 4);
    wire::be_nat_bound(a.take(16));
    wire::be_nat_bound(b.take(16));
    reveal_with_fuel(wire::pow256, 17);
}

/// Expire stale peers and collect empty, long-idle torrents of one shard.
fn gc_shard(shard: &mut Shard, now: u32)
    requires
        shard_wf(*old(shard)),
    ensures
        shard_wf(*final(shard)),
        shard_view(*final(shard)) == swept(shard_view(*old(shard)), now),
{
    let ghost before = shard@;
    let keys = shard.first_keys(shard.len());
    let ghost ks = bytemap::listing(before.dom());
    proof {
        bytemap::listing_len(before.dom());
    }
    let mut i: usize = 0;
    while i < keys.len()
        invariant
            shard_wf(*shard),
            bytemap::is_listing(ks, before.dom()),
            keys@.len() == ks.len(),
            i <= keys@.len(),
            forall|j: int| 0 <= j < keys@.len() ==> (#[trigger] keys@[j])@ == ks[j],
            forall|h: Seq<u8>| #[trigger] shard@.contains_key(h) ==> before.contains_key(h),
            forall|j: int|
                0 <= j < i ==> {
                    &&& shard@.contains_key(#[trigger] ks[j]) == !before[ks[j]]@.collected(now)
                    &&& shard@.contains_key(ks[j]) ==> shard@[ks[j]]@ == before[ks[j]]@.swept(now)
                },
            forall|j: int|
                i <= j < ks.len() ==> {
                    &&& shard@.contains_key(#[trigger] ks[j])
                    &&& shard@[ks[j]] == before[ks[j]]
                },
        decreases keys@.len() - i,
    {
        proof {
            assert(ks[i as int] == keys@[i as int]@);
            assert forall|j: int| 0 <= j < ks.len() && j != i implies #[trigger] ks[j]
                != ks[i as int] by {
                if j < i {
                    assert(bytemap::before(ks[j], ks[i as int]));
                } else {
                    assert(bytemap::before(ks[i as int], ks[j]));
                }
            }
        }
        if let Some(mut t) = shard.remove(&keys[i]) {
            if t.sweep(now) {
                shard.insert(keys[i], t);
            }
        }
        i = i + 1;
    }
    proof {
        assert forall|h: Seq<u8>| #[trigger] before.contains_key(h) implies {
            &&& shard@.contains_key(h) == !before[h]@.collected(now)
            &&& shard@.contains_key(h) ==> shard@[h]@ == before[h]@.swept(now)
        } by {
            assert(before.dom().contains(h));
            let j = choose|j: int| 0 <= j < ks.len() && ks[j] == h;
            assert(ks[j] == h);
        }
        assert(shard_view(*shard) =~= swept(shard_view(*old(shard)), now));
    }
}

/// The sharded torrent store.
pub struct Store {
    shards: Vec<Shard>,
}

impl View for Store {
    type V = Map<Seq<u8>, TorrentView>;

    closed spec fn view(&self) -> Map<Seq<u8>, TorrentView> {
        Map::new(
            |h: Seq<u8>| h.len() == 20 && self.shards@[shard_of(h)]@.contains_key(h),
            |h: Seq<u8>| self.shards@[shard_of(h)]@[h]@,
        )
    }
}

impl Default for Store {
    fn default() -> (r: Self)
        ensures
            r.wf(),
            r@ == Map::<Seq<u8>, TorrentView>::empty(),
    {
        Self::new()
    }
}

proof fn shard_of_range(hash: Seq<u8>)
    requires
        hash.len() == 20,
    ensures
        0 <= shard_of(hash) < SHARD_COUNT,
{
    wire::be_nat_bound(hash.take(4));
    reveal_with_fuel(wire::pow256, 5);
}

proof fn shards_in_range()
    ensures
        forall|h: Seq<u8>| h.len() == 20 ==> 0 <= #[trigger] shard_of(h) < SHARD_COUNT,
{
    assert forall|h: Seq<u8>| h.len() == 20 implies 0 <= #[trigger] shard_of(h) < SHARD_COUNT by {
        shard_of_range(h);
    }
}

impl Store {
    /// Every shard is valid and holds only torrents that belong to it.
    pub closed spec fn wf(&self) -> bool {
        &&& self.shards@.len() == SHARD_COUNT
        &&& forall|i: int| 0 <= i < SHARD_COUNT ==> shard_wf(#[trigger] self.shards@[i])
        &&& forall|i: int, h: Seq<u8>|
            0 <= i < SHARD_COUNT && #[trigger] self.shards@[i]@.contains_key(h) ==> shard_of(h) == i
    }

    /// The store has finitely many torrents.
    proof fn torrents_are_finite(&self)
        requires
            self.wf(),
        ensures
            self@.dom().finite(),
    {
        assert forall|i: int| 0 <= i < SHARD_COUNT implies bytemap::is_listing(
            bytemap::listing((#[trigger] self.shards@[i])@.dom()),
            self.shards@[i]@.dom(),
        ) by {
            assert(shard_wf(self.shards@[i]));
            self.shards@[i].keys_finite();
            bytemap::listing_exists(self.shards@[i]@.dom(), 20);
        }
        self.shard_listing_is_listing(SHARD_COUNT as nat);
        shards_in_range();
        assert(self@.dom().filter(|h: Seq<u8>| shard_of(h) < SHARD_COUNT as nat) =~= self@.dom());
        let ks = shard_listing(self.shards@, SHARD_COUNT as nat);
        bytemap::listing_unique(ks, self@.dom());
        bytemap::listing_len(self@.dom());
    }

    /// The store has finitely many torrents, and what it knows of each is valid.
    pub proof fn torrents_are_valid(&self, hash: Seq<u8>)
        requires
            self.wf(),
        ensures
            self@.dom().finite(),
            known(self@, hash).valid(),
            self@.contains_key(hash) ==> hash.len() == 20,
    {
        self.torrents_are_finite();
        if self@.contains_key(hash) {
            shard_of_range(hash);
            assert(shard_wf(self.shards@[shard_of(hash)]));
            let t = self.shards@[shard_of(hash)]@[hash];
            assert(t.wf());
            t.v4.bounds();
            t.v6.bounds();
        }
    }

    /// An announce, whatever it says, raises the number of torrents by one exactly where the
    /// torrent was unknown, and leaves what is known of every other torrent as it was.
    pub proof fn announce_counts_a_new_torrent(&self, hash: Seq<u8>, t: TorrentView)
        requires
            self.wf(),
        ensures
            self@.insert(hash, t).len() == self@.len() + (if self@.contains_key(hash) {
                0nat
            } else {
                1nat
            }),
            forall|other: Seq<u8>|
                other != hash ==> #[trigger] known(self@.insert(hash, t), other) == known(
                    self@,
                    other,
                ),
    {
        self.torrents_are_finite();
        if self@.contains_key(hash) {
            assert(self@.insert(hash, t).dom() =~= self@.dom());
        } else {
            assert(self@.insert(hash, t).dom() =~= self@.dom().insert(hash));
        }
    }

    /// Walking the shards in turn walks all torrents in ascending order.
    proof fn shard_listing_is_listing(&self, n: nat)
        requires
            self.wf(),
            n <= SHARD_COUNT,
            forall|i: int|
                0 <= i < n ==> bytemap::is_listing(
                    bytemap::listing((#[trigger] self.shards@[i])@.dom()),
                    self.shards@[i]@.dom(),
                ),
        ensures
            bytemap::is_listing(
                shard_listing(self.shards@, n),
                self@.dom().filter(|h: Seq<u8>| shard_of(h) < n),
            ),
        decreases n,
    {
        let ks = shard_listing(self.shards@, n);
        let dom = self@.dom().filter(|h: Seq<u8>| shard_of(h) < n);
        shards_in_range();
        if n > 0 {
            let m = (n - 1) as nat;
            self.shard_listing_is_listing(m);
            let head = shard_listing(self.shards@, m);
            let head_dom = self@.dom().filter(|h: Seq<u8>| shard_of(h) < m);
            let shard = self.shards@[m as int];
            let last = bytemap::listing(shard@.dom());
            assert(shard_wf(shard));
            assert(bytemap::is_listing(last, shard@.dom()));
            shard.keys_finite();
            assert forall|i: int| 0 <= i < ks.len() implies dom.contains(#[trigger] ks[i]) by {
                if i < head.len() {
                    assert(head_dom.contains(head[i]));
                } else {
                    assert(shard@.dom().contains(last[i - head.len()]));
                    assert(shard@.contains_key(ks[i]));
                }
            }
            assert forall|h: Seq<u8>| #[trigger] dom.contains(h) implies ks.contains(h) by {
                if shard_of(h) < m {
                    assert(head_dom.contains(h));
                    let j = choose|j: int| 0 <= j < head.len() && head[j] == h;
                    assert(ks[j] == h);
                } else {
                    assert(shard@.dom().contains(h));
                    let j = choose|j: int| 0 <= j < last.len() && last[j] == h;
                    assert(ks[head.len() + j] == h);
                }
            }
            assert forall|i: int, j: int| 0 <= i < j < ks.len() implies bytemap::before(
                #[trigger] ks[i],
                #[trigger] ks[j],
            ) by {
                if j < head.len() {
                    assert(bytemap::before(head[i], head[j]));
                } else if i >= head.len() {
                    assert(bytemap::before(last[i - head.len()], last[j - head.len()]));
                } else {
                    assert(head_dom.contains(head[i]));
                    assert(shard@.dom().contains(last[j - head.len()]));
                    assert(shard@.contains_key(ks[j]));
                    shard_order(ks[i], ks[j]);
                }
            }
        }
    }

    /// Count torrents, seeders and leechers over the whole store.
    #[must_use]
    pub fn totals(&self) -> (r: Totals)
        requires
            self.wf(),
        ensures
            r == totals_of(self@),
    {
        let ghost view = self@;
        let ghost fs = |h: Seq<u8>| view[h].seeders();
        let ghost fl = |h: Seq<u8>| view[h].leechers();
        let mut torrents: u64 = 0;
        let mut seeders: u64 = 0;
        let mut leechers: u64 = 0;
        let mut i: usize = 0;
        while i < self.shards.len()
            invariant
                self.wf(),
                i <= SHARD_COUNT,
                view == self@,
                fs == (|h: Seq<u8>| view[h].seeders()),
                fl == (|h: Seq<u8>| view[h].leechers()),
                forall|j: int|
                    0 <= j < i ==> bytemap::is_listing(
                        bytemap::listing((#[trigger] self.shards@[j])@.dom()),
                        self.shards@[j]@.dom(),
                    ),
                torrents == shard_listing(self.shards@, i as nat).len()
                    % 0x1_0000_0000_0000_0000,
                seeders == tally(shard_listing(self.shards@, i as nat), fs)
                    % 0x1_0000_0000_0000_0000,
                leechers == tally(shard_listing(self.shards@, i as nat), fl)
                    % 0x1_0000_0000_0000_0000,
            decreases SHARD_COUNT - i,
        {
            let ghost shard = self.shards@[i as int];
            let ghost head = shard_listing(self.shards@, i as nat);
            let ghost ks = bytemap::listing(shard@.dom());
            assert(shard_wf(shard));
            let (s, l) = shard_totals(&self.shards[i]);
            proof {
                shard.keys_finite();
                bytemap::listing_len(shard@.dom());
                assert forall|j: int| 0 <= j < ks.len() implies view.contains_key(
                    #[trigger] ks[j],
                ) && view[ks[j]] == shard@[ks[j]]@ by {
                    assert(shard@.dom().contains(ks[j]));
                    assert(self.shards@[i as int]@.contains_key(ks[j]));
                }
                tally_same(ks, fs, |h: Seq<u8>| shard@[h]@.seeders());
                tally_same(ks, fl, |h: Seq<u8>| shard@[h]@.leechers());
                tally_add(head, ks, fs);
                tally_add(head, ks, fl);
                sum_mod(tally(head, fs) as int, tally(ks, fs) as int);
                sum_mod(tally(head, fl) as int, tally(ks, fl) as int);
                sum_mod(head.len() as int, ks.len() as int);
            }
            torrents = sum_u64(torrents, self.shards[i].len() as u64);
            seeders = sum_u64(seeders, s);
            leechers = sum_u64(leechers, l);
            i = i + 1;
        }
        proof {
            self.shard_listing_is_listing(SHARD_COUNT as nat);
            shards_in_range();
            assert(self@.dom().filter(|h: Seq<u8>| shard_of(h) < SHARD_COUNT as nat)
                =~= self@.dom());
            bytemap::listing_unique(shard_listing(self.shards@, SHARD_COUNT as nat), self@.dom());
            bytemap::listing_len(self@.dom());
        }
        Totals { torrents, seeders, leechers }
    }

    /// Total number of torrents currently tracked.
    #[must_use]
    pub fn torrent_count(&self) -> (r: usize)
        requires
            self.wf(),
        ensures
            r == self@.len() % (usize::MAX as nat + 1),
    {
        let mut total: usize = 0;
        proof {
            vstd::arithmetic::div_mod::lemma_small_mod(0, usize::MAX as nat + 1);
        }
        let mut i: usize = 0;
        while i < self.shards.len()
            invariant
                self.wf(),
                i <= SHARD_COUNT,
                forall|j: int|
                    0 <= j < i ==> bytemap::is_listing(
                        bytemap::listing((#[trigger] self.shards@[j])@.dom()),
                        self.shards@[j]@.dom(),
                    ),
                total == shard_listing(self.shards@, i as nat).len() % (usize::MAX as nat + 1),
            decreases SHARD_COUNT - i,
        {
            assert(shard_wf(self.shards@[i as int]));
            let count: usize = self.shards[i].len();
            proof {
                self.shards@[i as int].keys_finite();
                bytemap::listing_exists(self.shards@[i as int]@.dom(), 20);
                bytemap::listing_len(self.shards@[i as int]@.dom());
                wrapped_sum(
                    shard_listing(self.shards@, i as nat).len() as int,
                    count as int,
                    usize::MAX + 1,
                );
            }
            total = total.wrapping_add(count);
            i = i + 1;
        }
        proof {
            self.shard_listing_is_listing(SHARD_COUNT as nat);
            shards_in_range();
            assert(self@.dom().filter(|h: Seq<u8>| shard_of(h) < SHARD_COUNT as nat)
                =~= self@.dom());
            bytemap::listing_unique(shard_listing(self.shards@, SHARD_COUNT as nat), self@.dom());
            bytemap::listing_len(self@.dom());
        }
        total
    }

    /// Create an empty store with [`SHARD_COUNT`] shards.
    #[must_use]
    pub fn new() -> (r: Self)
        ensures
            r.wf(),
            r@ == Map::<Seq<u8>, TorrentView>::empty(),
    {
        let mut shards: Vec<Shard> = Vec::new();
        let mut i: usize = 0;
        while i < SHARD_COUNT
            invariant
                i <= SHARD_COUNT,
                shards@.len() == i,
                forall|j: int| 0 <= j < i ==> (#[trigger] shards@[j]).wf(),
                forall|j: int|
                    0 <= j < i ==> (#[trigger] shards@[j])@ == Map::<Seq<u8>, Torrent>::empty(),
            decreases SHARD_COUNT - i,
        {
            shards.push(ByteMap::new());
            i = i + 1;
        }
        let r = Store { shards };
        proof {
            shards_in_range();
            assert(r@ =~= Map::<Seq<u8>, TorrentView>::empty());
        }
        r
    }

    /// Index of the shard that a torrent belongs to.
    pub fn shard_index(hash: &InfoHash) -> (r: usize)
        ensures
            r == shard_of(hash@),
            r < SHARD_COUNT,
    {
        proof {
            shard_of_range(hash@);
        }
        let top: u32 = wire::be_u32(&hash[0..4]);
        assert(hash@.subrange(0, 4) =~= hash@.take(4));
        (top / 0x40_0000) as usize
    }

    /// Take a torrent out, to change it.
    fn take(&mut self, hash: &InfoHash) -> (r: Option<Torrent>)
        requires
            old(self).wf(),
        ensures
            final(self).wf(),
            final(self)@ == old(self)@.remove(hash@),
            match r {
                Some(t) => t.wf() && old(self)@.contains_key(hash@) && t@ == old(self)@[hash@],
                None => !old(self)@.contains_key(hash@),
            },
    {
        let i: usize = Self::shard_index(hash);
        assert(shard_wf(self.shards@[i as int]));
        let r = self.shards[i].remove(hash);
        proof {
            assert forall|j: int, h: Seq<u8>|
                0 <= j < SHARD_COUNT && #[trigger] self.shards@[j]@.contains_key(
                    h,
                ) implies shard_of(h) == j by {
                assert(old(self).shards@[j]@.contains_key(h));
            }
            shards_in_range();
            assert(self@ =~= old(self)@.remove(hash@));
        }
        r
    }

    /// Put a torrent (back) in.
    fn put(&mut self, hash: &InfoHash, t: Torrent)
        requires
            old(self).wf(),
            t.wf(),
        ensures
            final(self).wf(),
            final(self)@ == old(self)@.insert(hash@, t@),
    {
        let i: usize = Self::shard_index(hash);
        assert(shard_wf(self.shards@[i as int]));
        self.shards[i].insert(*hash, t);
        proof {
            assert forall|j: int, h: Seq<u8>|
                0 <= j < SHARD_COUNT && #[trigger] self.shards@[j]@.contains_key(
                    h,
                ) implies shard_of(h) == j by {
                assert(old(self).shards@[j]@.contains_key(h) || (j == i && h == hash@));
            }
            shards_in_range();
            assert(self@ =~= old(self)@.insert(hash@, t@));
        }
    }

    /// Register/refresh an IPv4 peer and return the swarm counts plus, in `peers_out`, up to
    /// `numwant` compact v4 peers.
    pub fn announce_v4(
        &mut self,
        hash: &InfoHash,
        key: [u8; 6],
        flags: u8,
        numwant: usize,
        now: u32,
        peers_out: &mut Vec<u8>,
    ) -> (r: Counts)
        requires
            old(self).wf(),
        ensures
            final(self).wf(),
            final(self)@ == old(self)@.insert(
                hash@,
                known(old(self)@, hash@).announced_v4(key@, flags, now),
            ),
            final(self)@.len() == old(self)@.len() + (if old(self)@.contains_key(hash@) {
                0nat
            } else {
                1nat
            }),
            final(peers_out)@ == old(peers_out)@ + peers::compact(
                final(self)@[hash@].v4.peers,
                numwant as nat,
            ),
            r == final(self)@[hash@].counts(),
    {
        let mut t = match self.take(hash) {
            Some(t) => t,
            None => Torrent::new(),
        };
        t.base = now;
        t.v4.announce(key, flags, now);
        t.v4.write_compact(numwant, peers_out);
        let counts = t.counts();
        self.put(hash, t);
        proof {
            let after = known(old(self)@, hash@).announced_v4(key@, flags, now);
            assert(self@ =~= old(self)@.insert(hash@, after));
            old(self).announce_counts_a_new_torrent(hash@, after);
        }
        counts
    }

    /// Register/refresh an IPv6 peer; returns counts and up to `numwant` compact v6 peers.
    pub fn announce_v6(
        &mut self,
        hash: &InfoHash,
        key: [u8; 18],
        flags: u8,
        numwant: usize,
        now: u32,
        peers_out: &mut Vec<u8>,
    ) -> (r: Counts)
        requires
            old(self).wf(),
        ensures
            final(self).wf(),
            final(self)@ == old(self)@.insert(
                hash@,
                known(old(self)@, hash@).announced_v6(key@, flags, now),
            ),
            final(self)@.len() == old(self)@.len() + (if old(self)@.contains_key(hash@) {
                0nat
            } else {
                1nat
            }),
            final(peers_out)@ == old(peers_out)@ + peers::compact(
                final(self)@[hash@].v6.peers,
                numwant as nat,
            ),
            r == final(self)@[hash@].counts(),
    {
        let mut t = match self.take(hash) {
            Some(t) => t,
            None => Torrent::new(),
        };
        t.base = now;
        t.v6.announce(key, flags, now);
        t.v6.write_compact(numwant, peers_out);
        let counts = t.counts();
        self.put(hash, t);
        proof {
            let after = known(old(self)@, hash@).announced_v6(key@, flags, now);
            assert(self@ =~= old(self)@.insert(hash@, after));
            old(self).announce_counts_a_new_torrent(hash@, after);
        }
        counts
    }

    /// Remove an IPv4 peer (`event=stopped`); returns the updated counts (zeros if unknown).
    pub fn remove_v4(&mut self, hash: &InfoHash, key: &[u8; 6], now: u32) -> (r: Counts)
        requires
            old(self).wf(),
        ensures
            final(self).wf(),
            final(self)@ == (if old(self)@.contains_key(hash@) {
                old(self)@.insert(hash@, old(self)@[hash@].removed_v4(key@, now))
            } else {
                old(self)@
            }),
            r == (if old(self)@.contains_key(hash@) {
                final(self)@[hash@].counts()
            } else {
                no_counts()
            }),
    {
        match self.take(hash) {
            Some(taken) => {
                let mut t = taken;
                t.base = now;
                t.v4.remove(key);
                let counts = t.counts();
                self.put(hash, t);
                assert(self@ =~= old(self)@.insert(hash@, old(self)@[hash@].removed_v4(key@, now)));
                counts
            },
            None => {
                assert(self@ =~= old(self)@);
                Counts::default()
            },
        }
    }

    /// Remove an IPv6 peer (`event=stopped`); returns the updated counts (zeros if unknown).
    pub fn remove_v6(&mut self, hash: &InfoHash, key: &[u8; 18], now: u32) -> (r: Counts)
        requires
            old(self).wf(),
        ensures
            final(self).wf(),
            final(self)@ == (if old(self)@.contains_key(hash@) {
                old(self)@.insert(hash@, old(self)@[hash@].removed_v6(key@, now))
            } else {
                old(self)@
            }),
            r == (if old(self)@.contains_key(hash@) {
                final(self)@[hash@].counts()
            } else {
                no_counts()
            }),
    {
        match self.take(hash) {
            Some(taken) => {
                let mut t = taken;
                t.base = now;
                t.v6.remove(key);
                let counts = t.counts();
                self.put(hash, t);
                assert(self@ =~= old(self)@.insert(hash@, old(self)@[hash@].removed_v6(key@, now)));
                counts
            },
            None => {
                assert(self@ =~= old(self)@);
                Counts::default()
            },
        }
    }

    /// Scrape counts for a torrent (zeros if unknown).
    #[must_use]
    pub fn scrape(&self, hash: &InfoHash) -> (r: Counts)
        requires
            self.wf(),
        ensures
            r == (if self@.contains_key(hash@) {
                self@[hash@].counts()
            } else {
                no_counts()
            }),
    {
        let i: usize = Self::shard_index(hash);
        assert(shard_wf(self.shards@[i as int]));
        match self.shards[i].get(hash) {
            Some(t) => t.counts(),
            None => Counts::default(),
        }
    }

    /// Expire stale peers and collect empty, long-idle torrents.
    pub fn gc(&mut self, now: u32)
        requires
            old(self).wf(),
        ensures
            final(self).wf(),
            final(self)@ == swept(old(self)@, now),
    {
        let ghost before = self.shards@;
        let mut i: usize = 0;
        while i < self.shards.len()
            invariant
                i <= SHARD_COUNT,
                self.shards@.len() == SHARD_COUNT,
                before.len() == SHARD_COUNT,
                forall|j: int| 0 <= j < SHARD_COUNT ==> shard_wf(#[trigger] self.shards@[j]),
                forall|j: int|
                    0 <= j < i ==> shard_view(#[trigger] self.shards@[j]) == swept(
                        shard_view(before[j]),
                        now,
                    ),
                forall|j: int| i <= j < SHARD_COUNT ==> #[trigger] self.shards@[j] == before[j],
            decreases SHARD_COUNT - i,
        {
            gc_shard(&mut self.shards[i], now);
            i = i + 1;
        }
        proof {
            assert forall|j: int, h: Seq<u8>| 0 <= j < SHARD_COUNT implies {
                &&& (#[trigger] self.shards@[j]@.contains_key(h)) == (before[j]@.contains_key(h)
                    && !before[j]@[h]@.collected(now))
                &&& self.shards@[j]@.contains_key(h) ==> self.shards@[j]@[h]@
                    == before[j]@[h]@.swept(now)
            } by {
                assert(shard_view(self.shards@[j]) == swept(shard_view(before[j]), now));
                assert(shard_view(self.shards@[j]).contains_key(h)
                    == self.shards@[j]@.contains_key(h));
                assert(shard_view(before[j]).contains_key(h) == before[j]@.contains_key(h));
                if self.shards@[j]@.contains_key(h) {
                    assert(shard_view(self.shards@[j])[h] == self.shards@[j]@[h]@);
                }
            }
            shards_in_range();
            assert(self@ =~= swept(old(self)@, now));
        }
    }
}

} // verus!
