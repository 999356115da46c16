//! One address family's peers of a torrent, held in compact wire form.

use vstd::prelude::*;

use crate::bytemap;
use crate::bytemap::ByteMap;
use crate::flag;

verus! {

/// What is remembered of a peer.
#[derive(Debug, Clone, Copy)]
pub struct PeerVal {
    /// Peer flag byte.
    pub flags: u8,
    /// Minute of the last announce.
    pub seen: u32,
}

/// A swarm: its peers by compact address, and the downloads it has completed.
#[verifier::ext_equal]
pub struct SwarmView {
    pub peers: Map<Seq<u8>, PeerVal>,
    pub downloaded: u64,
}

/// The addresses of a swarm's seeders.
pub open spec fn seed_set(peers: Map<Seq<u8>, PeerVal>) -> Set<Seq<u8>> {
    peers.dom().filter(|k: Seq<u8>| flag::seeding(peers[k].flags))
}

/// How many peers of a swarm are seeders.
pub open spec fn seed_count(peers: Map<Seq<u8>, PeerVal>) -> nat {
    seed_set(peers).len()
}

/// The flag byte that an announce stands for: `completed` counts only together with `seeding`.
pub open spec fn sanitized(flags: u8) -> u8 {
    if flag::completed(flags) && !flag::seeding(flags) {
        flags & !flag::COMPLETED
    } else {
        flags
    }
}

/// Whether the swarm remembers that the peer completed a download.
pub open spec fn known_completed(peers: Map<Seq<u8>, PeerVal>, key: Seq<u8>) -> bool {
    peers.contains_key(key) && flag::completed(peers[key].flags)
}

/// The flag byte kept for a peer after it announced: once completed, always completed.
pub open spec fn merged(peers: Map<Seq<u8>, PeerVal>, key: Seq<u8>, flags: u8) -> u8 {
    if peers.contains_key(key) {
        sanitized(flags) | (peers[key].flags & flag::COMPLETED)
    } else {
        sanitized(flags)
    }
}

impl SwarmView {
    /// A swarm without peers or history.
    pub open spec fn empty() -> SwarmView {
        SwarmView { peers: Map::empty(), downloaded: 0 }
    }

    /// The swarm after a peer announced.
    pub open spec fn announced(self, key: Seq<u8>, flags: u8, now: u32) -> SwarmView {
        SwarmView {
            peers: self.peers.insert(
                key,
                PeerVal { flags: merged(self.peers, key, flags), seen: now },
            ),
            downloaded: if flag::completed(sanitized(flags)) && !known_completed(self.peers, key) {
                ((self.downloaded + 1) % 0x1_0000_0000_0000_0000) as u64
            } else {
                self.downloaded
            },
        }
    }

    /// The swarm after a peer left.
    pub open spec fn removed(self, key: Seq<u8>) -> SwarmView {
        SwarmView { peers: self.peers.remove(key), downloaded: self.downloaded }
    }

    /// The swarm after peers unseen for `timeout` minutes were dropped.
    pub open spec fn expired(self, now: u32, timeout: u32) -> SwarmView {
        SwarmView { peers: survivors(self.peers, now, timeout), downloaded: self.downloaded }
    }
}

/// Whether a peer was seen within the last `timeout` minutes.
pub open spec fn fresh(v: PeerVal, now: u32, timeout: u32) -> bool {
    now < v.seen + timeout && 0 < timeout
}

/// The peers that are still fresh.
pub open spec fn survivors(
    peers: Map<Seq<u8>, PeerVal>,
    now: u32,
    timeout: u32,
) -> Map<Seq<u8>, PeerVal> {
    Map::new(
        |k: Seq<u8>| peers.contains_key(k) && fresh(peers[k], now, timeout),
        |k: Seq<u8>| peers[k],
    )
}

/// Whether a peer is of the wanted kind.
pub open spec fn of_kind(peers: Map<Seq<u8>, PeerVal>, want_seed: bool) -> spec_fn(
    Seq<u8>,
) -> bool {
    |k: Seq<u8>| flag::seeding(peers[k].flags) == want_seed
}

/// The peers of one kind, in ascending order.
pub open spec fn kind_listing(peers: Map<Seq<u8>, PeerVal>, want_seed: bool) -> Seq<Seq<u8>> {
    bytemap::listing(peers.dom()).filter(of_kind(peers, want_seed))
}

/// The order in which peers are handed out: leechers before seeders.
pub open spec fn hand_out(peers: Map<Seq<u8>, PeerVal>) -> Seq<Seq<u8>> {
    kind_listing(peers, false) + kind_listing(peers, true)
}

/// The first `n` items, or all of them where there are fewer.
pub open spec fn up_to<A>(s: Seq<A>, n: nat) -> Seq<A> {
    if n <= s.len() {
        s.take(n as int)
    } else {
        s
    }
}

/// Compact addresses, one after another.
pub open spec fn joined(ks: Seq<Seq<u8>>) -> Seq<u8>
    decreases ks.len(),
{
    if ks.len() == 0 {
        Seq::empty()
    } else {
        joined(ks.drop_last()) + ks.last()
    }
}

/// The compact peer list handed to a client that wants `numwant` peers.
pub open spec fn compact(peers: Map<Seq<u8>, PeerVal>, numwant: nat) -> Seq<u8> {
    joined(up_to(hand_out(peers), numwant))
}

proof fn joined_add(a: Seq<Seq<u8>>, b: Seq<Seq<u8>>)
    ensures
        joined(a + b) == joined(a) + joined(b),
    decreases b.len(),
{
    if b.len() == 0 {
        assert(a + b =~= a);
        assert(joined(a) + joined(b) =~= joined(a));
    } else {
        assert((a + b).drop_last() =~= a + b.drop_last());
        joined_add(a, b.drop_last());
        assert(joined(a + b) =~= joined(a) + joined(b));
    }
}

proof fn joined_push(a: Seq<Seq<u8>>, k: Seq<u8>)
    ensures
        joined(a.push(k)) == joined(a) + k,
{
    assert(a.push(k).drop_last() =~= a);
}

proof fn up_to_add(a: Seq<Seq<u8>>, b: Seq<Seq<u8>>, n: nat)
    ensures
        up_to(a + b, n) == up_to(a, n) + up_to(b, (n - up_to(a, n).len()) as nat),
{
    assert(up_to(a + b, n) =~= up_to(a, n) + up_to(b, (n - up_to(a, n).len()) as nat));
}

/// Every item of [`joined`] has the same length: the length of the whole.
pub proof fn joined_len(ks: Seq<Seq<u8>>, n: nat)
    requires
        forall|i: int| 0 <= i < ks.len() ==> (#[trigger] ks[i]).len() == n,
    ensures
        joined(ks).len() == n * ks.len(),
    decreases ks.len(),
{
    if ks.len() > 0 {
        joined_len(ks.drop_last(), n);
        assert(n * ks.len() == n * (ks.len() - 1) + n) by (nonlinear_arith)
            requires
                ks.len() > 0,
        ;
    }
}

/// Seeders change by at most the announcing peer.
pub proof fn seed_count_insert(peers: Map<Seq<u8>, PeerVal>, key: Seq<u8>, v: PeerVal)
    requires
        peers.dom().finite(),
    ensures
        seed_set(peers).finite(),
        seed_count(peers) <= peers.len(),
        seed_count(peers.insert(key, v)) == seed_count(peers) + (if flag::seeding(v.flags) {
            1int
        } else {
            0
        }) - (if peers.contains_key(key) && flag::seeding(peers[key].flags) {
            1int
        } else {
            0
        }),
{
    peers.dom().lemma_len_filter(|k: Seq<u8>| flag::seeding(peers[k].flags));
    let new = peers.insert(key, v);
    if flag::seeding(v.flags) {
        assert(seed_set(new) =~= seed_set(peers).insert(key));
    } else {
        assert(seed_set(new) =~= seed_set(peers).remove(key));
    }
}

/// A removed seeder leaves the count.
pub proof fn seed_count_remove(peers: Map<Seq<u8>, PeerVal>, key: Seq<u8>)
    requires
        peers.dom().finite(),
    ensures
        seed_set(peers).finite(),
        seed_count(peers) <= peers.len(),
        seed_count(peers.remove(key)) == seed_count(peers) - (if peers.contains_key(key)
            && flag::seeding(peers[key].flags) {
            1int
        } else {
            0
        }),
{
    peers.dom().lemma_len_filter(|k: Seq<u8>| flag::seeding(peers[k].flags));
    assert(seed_set(peers.remove(key)) =~= seed_set(peers).remove(key));
}

/// The flag byte kept after an announce says `seeding` exactly if the announce did.
proof fn merged_seeding(peers: Map<Seq<u8>, PeerVal>, key: Seq<u8>, flags: u8)
    ensures
        flag::seeding(merged(peers, key, flags)) == flag::seeding(flags),
        flag::seeding(sanitized(flags)) == flag::seeding(flags),
{
    assert((flags & !0x40u8) & 0x80 == flags & 0x80) by (bit_vector);
    let clean = sanitized(flags);
    if peers.contains_key(key) {
        let before = peers[key].flags;
        assert((clean | (before & 0x40u8)) & 0x80 == clean & 0x80) by (bit_vector);
    }
}

/// Splitting by kind loses no item and doubles none.
proof fn kinds_split(ks: Seq<Seq<u8>>, peers: Map<Seq<u8>, PeerVal>)
    ensures
        ks.filter(of_kind(peers, false)).len() + ks.filter(of_kind(peers, true)).len() == ks.len(),
    decreases ks.len(),
{
    reveal(Seq::filter);
    if ks.len() > 0 {
        kinds_split(ks.drop_last(), peers);
    }
}

/// What is handed out are peers of the swarm, each in its kind.
proof fn kind_members(ks: Seq<Seq<u8>>, peers: Map<Seq<u8>, PeerVal>, want_seed: bool)
    ensures
        forall|i: int|
            0 <= i < ks.filter(of_kind(peers, want_seed)).len() ==> ks.contains(
                #[trigger] ks.filter(of_kind(peers, want_seed))[i],
            ) && flag::seeding(peers[ks.filter(of_kind(peers, want_seed))[i]].flags) == want_seed,
        forall|k: Seq<u8>|
            ks.contains(k) && flag::seeding(peers[k].flags) == want_seed ==> #[trigger] ks.filter(
                of_kind(peers, want_seed),
            ).contains(k),
    decreases ks.len(),
{
    reveal(Seq::filter);
    if ks.len() > 0 {
        let pred = of_kind(peers, want_seed);
        let head = ks.drop_last();
        kind_members(head, peers, want_seed);
        let f = ks.filter(pred);
        let h = head.filter(pred);
        assert forall|i: int| 0 <= i < f.len() implies ks.contains(#[trigger] f[i])
            && flag::seeding(peers[f[i]].flags) == want_seed by {
            if i < h.len() {
                assert(f[i] == h[i]);
                let j = choose|j: int| 0 <= j < head.len() && head[j] == h[i];
                assert(ks[j] == h[i]);
            } else {
                assert(ks[ks.len() - 1] == f[i]);
            }
        }
        assert forall|k: Seq<u8>|
            ks.contains(k) && flag::seeding(peers[k].flags)
                == want_seed implies #[trigger] f.contains(k) by {
            if k == ks.last() {
                assert(f[f.len() - 1] == k);
            } else {
                let j = choose|j: int| 0 <= j < ks.len() && ks[j] == k;
                assert(head[j] == k);
                assert(h.contains(k));
                let m = choose|m: int| 0 <= m < h.len() && h[m] == k;
                assert(f[m] == k);
            }
        }
    }
}

/// Every peer of a swarm is handed out to a client that wants them all: the order of hand-out has
/// as many items as the swarm has peers, every peer is among them, and nothing else is.
pub proof fn hand_out_is_everyone(peers: Map<Seq<u8>, PeerVal>, n: nat)
    requires
        peers.dom().finite(),
        n <= bytemap::MAX_KEY,
        forall|k: Seq<u8>| #[trigger] peers.contains_key(k) ==> k.len() == n,
    ensures
        hand_out(peers).len() == peers.len(),
        forall|k: Seq<u8>| #[trigger] peers.contains_key(k) ==> hand_out(peers).contains(k),
        forall|i: int|
            0 <= i < hand_out(peers).len() ==> peers.contains_key(#[trigger] hand_out(peers)[i]),
{
    let ks = bytemap::listing(peers.dom());
    assert forall|k: Seq<u8>| #[trigger] peers.dom().contains(k) implies k.len() == n by {
        assert(peers.contains_key(k));
    }
    bytemap::listing_exists(peers.dom(), n);
    bytemap::listing_len(peers.dom());
    kinds_split(ks, peers);
    kind_members(ks, peers, false);
    kind_members(ks, peers, true);
    let leech = kind_listing(peers, false);
    let seed = kind_listing(peers, true);
    assert forall|k: Seq<u8>| #[trigger] peers.contains_key(k) implies hand_out(peers).contains(
        k,
    ) by {
        assert(peers.dom().contains(k));
        assert(ks.contains(k));
        if flag::seeding(peers[k].flags) {
            assert(seed.contains(k));
            let m = choose|m: int| 0 <= m < seed.len() && seed[m] == k;
            assert(hand_out(peers)[leech.len() + m] == k);
        } else {
            assert(leech.contains(k));
            let m = choose|m: int| 0 <= m < leech.len() && leech[m] == k;
            assert(hand_out(peers)[m] == k);
        }
    }
    assert forall|i: int| 0 <= i < hand_out(peers).len() implies peers.contains_key(
        #[trigger] hand_out(peers)[i],
    ) by {
        if i < leech.len() {
            assert(ks.contains(leech[i]));
        } else {
            assert(ks.contains(seed[i - leech.len()]));
        }
    }
}

/// Leechers are handed out before seeders.
pub proof fn leechers_come_first(peers: Map<Seq<u8>, PeerVal>, i: int, j: int)
    requires
        0 <= i < j < hand_out(peers).len(),
        flag::seeding(peers[hand_out(peers)[i]].flags),
    ensures
        flag::seeding(peers[hand_out(peers)[j]].flags),
{
    let ks = bytemap::listing(peers.dom());
    kind_members(ks, peers, false);
    kind_members(ks, peers, true);
    let leech = kind_listing(peers, false);
    let seed = kind_listing(peers, true);
    if i < leech.len() {
        assert(hand_out(peers)[i] == leech[i]);
        assert(false);
    } else {
        assert(hand_out(peers)[j] == seed[j - leech.len()]);
    }
}

/// A client gets as many peers as it wants, or as many as there are.
pub proof fn compact_len(peers: Map<Seq<u8>, PeerVal>, n: nat, numwant: nat)
    requires
        peers.dom().finite(),
        n <= bytemap::MAX_KEY,
        forall|k: Seq<u8>| #[trigger] peers.contains_key(k) ==> k.len() == n,
    ensures
        compact(peers, numwant).len() == n * (if numwant <= peers.len() {
            numwant
        } else {
            peers.len()
        }),
{
    hand_out_is_everyone(peers, n);
    let given = up_to(hand_out(peers), numwant);
    assert forall|i: int| 0 <= i < given.len() implies (#[trigger] given[i]).len() == n by {
        assert(given[i] == hand_out(peers)[i]);
        assert(peers.contains_key(hand_out(peers)[i]));
    }
    joined_len(given, n);
}

/// Once a peer has completed, it stays so through any later announce.
pub proof fn completed_is_kept(s: SwarmView, key: Seq<u8>, flags: u8, now: u32)
    requires
        known_completed(s.peers, key),
    ensures
        known_completed(s.announced(key, flags, now).peers, key),
{
    let clean = sanitized(flags);
    let before = s.peers[key].flags;
    assert((before & 0x40) != 0 ==> (clean | (before & 0x40)) & 0x40 != 0) by (bit_vector);
}

/// A download is counted when the peer completes, and not again.
pub proof fn download_counts_once(
    s: SwarmView,
    key: Seq<u8>,
    flags: u8,
    again: u8,
    now: u32,
    later: u32,
)
    requires
        flag::completed(flags),
        flag::seeding(flags),
        !known_completed(s.peers, key),
    ensures
        s.announced(key, flags, now).downloaded == (s.downloaded + 1) % 0x1_0000_0000_0000_0000,
        s.announced(key, flags, now).announced(key, again, later).downloaded == s.announced(
            key,
            flags,
            now,
        ).downloaded,
{
    let before = if s.peers.contains_key(key) {
        s.peers[key].flags
    } else {
        0
    };
    assert((flags & 0x40) != 0 ==> (flags | (before & 0x40)) & 0x40 != 0) by (bit_vector);
}

/// A `completed` without `seeding` is neither a download nor a seeder.
pub proof fn bare_completed_counts_nothing(s: SwarmView, key: Seq<u8>, flags: u8, now: u32)
    requires
        !flag::seeding(flags),
    ensures
        s.announced(key, flags, now).downloaded == s.downloaded,
        !flag::seeding(s.announced(key, flags, now).peers[key].flags),
{
    merged_seeding(s.peers, key, flags);
    assert((flags & !0x40u8) & 0x40 == 0) by (bit_vector);
}

/// A peer that joins and leaves leaves the other peers as they were.
pub proof fn leaving_undoes_joining(s: SwarmView, key: Seq<u8>, flags: u8, now: u32)
    ensures
        s.announced(key, flags, now).removed(key).peers == s.peers.remove(key),
        !s.peers.contains_key(key) ==> s.announced(key, flags, now).removed(key).peers == s.peers,
{
    assert(s.announced(key, flags, now).removed(key).peers =~= s.peers.remove(key));
    if !s.peers.contains_key(key) {
        assert(s.peers.remove(key) =~= s.peers);
    }
}

/// A single-family peer list holding compact `N`-byte peers (`N` = 6 for v4, 18 for v6).
pub struct PeerList<const N: usize> {
    peers: ByteMap<N, PeerVal>,
    seeders: usize,
    downloaded: u64,
}

impl<const N: usize> View for PeerList<N> {
    type V = SwarmView;

    closed spec fn view(&self) -> SwarmView {
        SwarmView { peers: self.peers@, downloaded: self.downloaded }
    }
}

impl<const N: usize> PeerList<N> {
    /// The seeder count is that of the peers.
    pub closed spec fn wf(&self) -> bool {
        &&& self.peers.wf()
        &&& self.seeders == seed_count(self.peers@)
    }

    /// A swarm's addresses have `N` bytes and there are finitely many; seeders are among them.
    pub proof fn bounds(&self)
        requires
            self.wf(),
        ensures
            self@.peers.dom().finite(),
            seed_count(self@.peers) <= self@.peers.len(),
            forall|k: Seq<u8>| #[trigger] self@.peers.contains_key(k) ==> k.len() == N,
    {
        self.peers.keys_finite();
        seed_count_remove(self.peers@, Seq::empty());
    }

    pub fn new() -> (r: Self)
        requires
            N <= bytemap::MAX_KEY,
        ensures
            r.wf(),
            r@ == SwarmView::empty(),
    {
        let r = PeerList { peers: ByteMap::new(), seeders: 0, downloaded: 0 };
        assert(seed_set(r.peers@) =~= Set::empty());
        r
    }

    /// Number of peers with the complete torrent.
    pub fn seeders(&self) -> (r: usize)
        requires
            self.wf(),
        ensures
            r == seed_count(self@.peers),
    {
        self.seeders
    }

    /// Number of peers still downloading.
    pub fn leechers(&self) -> (r: usize)
        requires
            self.wf(),
        ensures
            r == self@.peers.len() - seed_count(self@.peers),
    {
        proof {
            self.bounds();
        }
        self.peers.len() - self.seeders
    }

    /// Number of completed downloads recorded.
    pub fn downloaded(&self) -> (r: u64)
        ensures
            r == self@.downloaded,
    {
        self.downloaded
    }

    /// Whether no peer is in the swarm.
    pub fn is_empty(&self) -> (r: bool)
        requires
            self.wf(),
        ensures
            r == (self@.peers == Map::<Seq<u8>, PeerVal>::empty()),
    {
        proof {
            self.bounds();
            if self.peers@.len() == 0 {
                assert(self.peers@ =~= Map::<Seq<u8>, PeerVal>::empty());
            }
        }
        self.peers.len() == 0
    }

    /// Add or refresh a peer. Applies the peer flag rules: `completed` implies `seeding`
    /// (a bare `completed` is cleared), and once a peer is `completed` it stays that way.
    pub fn announce(&mut self, key: [u8; N], flags: u8, now: u32)
        requires
            old(self).wf(),
        ensures
            final(self).wf(),
            final(self)@ == old(self)@.announced(key@, flags, now),
    {
        let ghost before = self.peers@;
        let mut flags: u8 = flags;
        let ghost raw = flags;
        if flags & flag::COMPLETED != 0 && flags & flag::SEEDING == 0 {
            flags = flags & !flag::COMPLETED;
        }
        let is_seed: bool = flags & flag::SEEDING != 0;
        let mut was_seed: bool = false;
        let mut was_completed: bool = false;
        if let Some(prior) = self.peers.get(&key) {
            was_seed = prior.flags & flag::SEEDING != 0;
            was_completed = prior.flags & flag::COMPLETED != 0;
        }
        if flags & flag::COMPLETED != 0 && !was_completed {
            self.downloaded = self.downloaded.wrapping_add(1);
        }
        if let Some(prior) = self.peers.get(&key) {
            flags = flags | (prior.flags & flag::COMPLETED);
        }
        proof {
            self.peers.keys_finite();
            merged_seeding(before, key@, raw);
            seed_count_insert(before, key@, PeerVal { flags, seen: now });
        }
        self.peers.insert(key, PeerVal { flags, seen: now });
        let total: usize = self.peers.len();
        proof {
            self.peers.keys_finite();
            seed_count_remove(self.peers@, Seq::empty());
            assert(seed_count(self.peers@) <= total);
        }
        if is_seed && !was_seed {
            self.seeders = self.seeders + 1;
        } else if !is_seed && was_seed {
            self.seeders = self.seeders - 1;
        }
    }

    /// Remove a peer (an `event=stopped` announce).
    pub fn remove(&mut self, key: &[u8; N])
        requires
            old(self).wf(),
        ensures
            final(self).wf(),
            final(self)@ == old(self)@.removed(key@),
    {
        proof {
            self.peers.keys_finite();
            seed_count_remove(self.peers@, key@);
        }
        if let Some(prior) = self.peers.remove(key) {
            if prior.flags & flag::SEEDING != 0 {
                self.seeders = self.seeders - 1;
            }
        }
    }

    /// Append up to `remaining` compact peers of one kind to `out`; returns how many may follow.
    fn write_kind(&self, want_seed: bool, remaining: usize, out: &mut Vec<u8>) -> (r: usize)
        requires
            self.wf(),
        ensures
            final(out)@ == old(out)@ + joined(
                up_to(kind_listing(self@.peers, want_seed), remaining as nat),
            ),
            r == remaining - up_to(kind_listing(self@.peers, want_seed), remaining as nat).len(),
    {
        let ghost ks = bytemap::listing(self.peers@.dom());
        let ghost pred = of_kind(self.peers@, want_seed);
        let ghost start = out@;
        let mut left: usize = remaining;
        let iter = self.peers.entries();
        assert(ks.take(0) =~= Seq::empty());
        reveal(Seq::filter);
        assert(start + joined(Seq::<Seq<u8>>::empty()) =~= start);
        for entry in it: iter
            invariant
                start == old(out)@,
                ks == bytemap::listing(self.peers@.dom()),
                pred == of_kind(self.peers@, want_seed),
                it.seq().len() == ks.len(),
                forall|i: int|
                    0 <= i < it.seq().len() ==> {
                        &&& (#[trigger] it.seq()[i]).1.0@ == ks[i]
                        &&& it.seq()[i].1.1 == self.peers@[ks[i]]
                    },
                out@ == start + joined(ks.take(it.index() as int).filter(pred)),
                left == remaining - ks.take(it.index() as int).filter(pred).len(),
        {
            let ghost i = it.index() as int;
            proof {
                assert(ks.take(i + 1) =~= ks.take(i).push(ks[i]));
                ks.take(i).lemma_filter_push(ks[i], pred);
                joined_push(ks.take(i).filter(pred), ks[i]);
            }
            if left == 0 {
                proof {
                    assert(ks =~= ks.take(i) + ks.skip(i));
                    Seq::filter_distributes_over_add(ks.take(i), ks.skip(i), pred);
                    assert(up_to(ks.filter(pred), remaining as nat) =~= ks.take(i).filter(pred));
                }
                return 0;
            }
            if (entry.1.1.flags & flag::SEEDING != 0) == want_seed {
                out.extend_from_slice(&entry.1.0);
                left = left - 1;
            }
        }
        assert(ks.take(ks.len() as int) =~= ks);
        assert(up_to(ks.filter(pred), remaining as nat) =~= ks.filter(pred));
        left
    }

    /// Append up to `numwant` compact peers to `out`, leechers before seeders.
    pub fn write_compact(&self, numwant: usize, out: &mut Vec<u8>)
        requires
            self.wf(),
        ensures
            final(out)@ == old(out)@ + compact(self@.peers, numwant as nat),
    {
        let ghost start = out@;
        let left: usize = self.write_kind(false, numwant, out);
        self.write_kind(true, left, out);
        proof {
            let leech = kind_listing(self@.peers, false);
            let seed = kind_listing(self@.peers, true);
            up_to_add(leech, seed, numwant as nat);
            joined_add(up_to(leech, numwant as nat), up_to(seed, left as nat));
            assert(out@ =~= start + compact(self@.peers, numwant as nat));
        }
    }

    /// Drop peers unseen for `timeout` minutes.
    pub fn expire(&mut self, now: u32, timeout: u32)
        requires
            old(self).wf(),
        ensures
            final(self).wf(),
            final(self)@ == old(self)@.expired(now, timeout),
    {
        let ghost before = self.peers@;
        let ghost done = self.downloaded;
        let keys = self.peers.first_keys(self.peers.len());
        let ghost ks = bytemap::listing(before.dom());
        proof {
            self.peers.keys_finite();
            bytemap::listing_len(before.dom());
        }
        let mut i: usize = 0;
        while i < keys.len()
            invariant
                self.wf(),
                self.downloaded == done,
                bytemap::is_listing(ks, before.dom()),
                keys@.len() == ks.len(),
                i <= keys@.len(),
                forall|j: int| 0 <= j < keys@.len() ==> (#[trigger] keys@[j])@ == ks[j],
                forall|k: Seq<u8>| #[trigger]
                    self.peers@.contains_key(k) ==> before.contains_key(k) && self.peers@[k]
                        == before[k],
                forall|k: Seq<u8>| #[trigger]
                    before.contains_key(k) && fresh(before[k], now, timeout)
                        ==> self.peers@.contains_key(k),
                forall|j: int|
                    0 <= j < i && !fresh(before[#[trigger] ks[j]], now, timeout)
                        ==> !self.peers@.contains_key(ks[j]),
            decreases keys@.len() - i,
        {
            let stale: bool = match self.peers.get(&keys[i]) {
                Some(v) => now.saturating_sub(v.seen) >= timeout,
                None => false,
            };
            if stale {
                self.remove(&keys[i]);
            }
            i = i + 1;
        }
        proof {
            assert forall|k: Seq<u8>| #[trigger] self.peers@.contains_key(k) implies fresh(
                before[k],
                now,
                timeout,
            ) by {
                assert(before.dom().contains(k));
                let j = choose|j: int| 0 <= j < ks.len() && ks[j] == k;
                assert(ks[j] == k);
            }
            assert(self.peers@ =~= survivors(before, now, timeout));
        }
    }
}

} // verus!
