//! What is remembered of one source.

use vstd::prelude::*;

use crate::l7::AnnounceInfo;
use crate::text;
use crate::wire;
use crate::{InfoHash, PeerId};

verus! {

/// How many recent announces are remembered per source for interval/churn detection.
pub const RING: usize = 8;

/// One remembered announce, used for interval and identity-churn detection.
#[derive(Debug, Clone, Copy)]
pub struct Seen {
    /// Torrent announced.
    pub hash: InfoHash,
    /// When.
    pub at: u32,
    /// The announce's `key`.
    pub key: u32,
    /// Fingerprint of the announce's peer id.
    pub peer: u32,
}

/// What a remembered announce says.
#[verifier::ext_equal]
pub struct SeenView {
    pub hash: Seq<u8>,
    pub at: u32,
    pub key: u32,
    pub peer: u32,
}

impl View for Seen {
    type V = SeenView;

    open spec fn view(&self) -> SeenView {
        SeenView { hash: self.hash@, at: self.at, key: self.key, peer: self.peer }
    }
}

/// Per-source state.
#[derive(Debug, Clone, Copy)]
pub struct Client {
    /// Suspicion score.
    pub score: u32,
    /// When the source was last seen.
    pub last_seen: u32,
    /// Anchor for decay, advanced only in whole decay intervals so the remainder is not silently
    /// lost each time the source is seen.
    pub decay_at: u32,
    /// Time until which further bans for this source are suppressed.
    pub banned_until: u32,
    /// When the source last announced, if it has.
    pub last_announce: Option<u32>,
    /// Bitmap fingerprint of the distinct torrents this source has touched.
    pub breadth: u64,
    /// Connection ids issued to this source that it has not yet used.
    pub connects: u32,
    /// Consecutive announces that landed in an empty swarm.
    pub empty_swarms: u32,
    /// Recent announces.
    pub ring: [Option<Seen>; RING],
    /// Where the next announce is remembered.
    pub ring_pos: usize,
}

/// What is remembered of a source.
#[verifier::ext_equal]
pub struct ClientView {
    pub score: u32,
    pub last_seen: u32,
    pub decay_at: u32,
    pub banned_until: u32,
    pub last_announce: Option<u32>,
    pub breadth: u64,
    pub connects: u32,
    pub empty_swarms: u32,
    pub ring: Seq<Option<SeenView>>,
    pub ring_pos: int,
}

/// A ring as what it remembers.
pub open spec fn ring_view(ring: Seq<Option<Seen>>) -> Seq<Option<SeenView>> {
    ring.map_values(
        |s: Option<Seen>|
            match s {
                Some(s) => Some(s@),
                None => None,
            },
    )
}

impl View for Client {
    type V = ClientView;

    open spec fn view(&self) -> ClientView {
        ClientView {
            score: self.score,
            last_seen: self.last_seen,
            decay_at: self.decay_at,
            banned_until: self.banned_until,
            last_announce: self.last_announce,
            breadth: self.breadth,
            connects: self.connects,
            empty_swarms: self.empty_swarms,
            ring: ring_view(self.ring@),
            ring_pos: self.ring_pos as int,
        }
    }
}

/// A number kept within 32 bits.
pub open spec fn clamp(n: int) -> u32 {
    if n > u32::MAX {
        u32::MAX
    } else if n < 0 {
        0
    } else {
        n as u32
    }
}

/// Whole decay intervals that have passed since the anchor.
pub open spec fn decay_steps(c: ClientView, now: u32, interval: u32) -> int {
    clamp(now - c.decay_at) as int / (if interval == 0 {
        1int
    } else {
        interval as int
    })
}

/// Whether a remembered announce is of the torrent.
pub open spec fn of_torrent(s: Option<SeenView>, hash: Seq<u8>) -> bool {
    s is Some && s->0.hash == hash
}

impl ClientView {
    /// A source that was never seen.
    pub open spec fn fresh(now: u32) -> ClientView {
        ClientView {
            score: 0,
            last_seen: now,
            decay_at: now,
            banned_until: 0,
            last_announce: None,
            breadth: 0,
            connects: 0,
            empty_swarms: 0,
            ring: Seq::new(RING as nat, |i: int| None),
            ring_pos: 0,
        }
    }

    /// The source seen again: its score has lost `amount` per whole interval since the anchor,
    /// and the anchor has moved by those intervals.
    pub open spec fn decayed(self, now: u32, amount: u32, interval: u32) -> ClientView {
        let steps = decay_steps(self, now, interval);
        ClientView {
            score: clamp(self.score - steps * amount),
            decay_at: (self.decay_at + steps * (if interval == 0 {
                1int
            } else {
                interval as int
            })) as u32,
            last_seen: now,
            ..self
        }
    }

    /// Seconds since the source last announced, if it has.
    pub open spec fn announce_gap(self, now: u32) -> Option<u32> {
        match self.last_announce {
            Some(t) => Some(clamp(now - t)),
            None => None,
        }
    }

    /// Whether the torrent was announced less than `floor` seconds ago.
    pub open spec fn too_soon(self, hash: Seq<u8>, now: u32, floor: u32) -> bool {
        exists|i: int|
            0 <= i < self.ring.len() && of_torrent(#[trigger] self.ring[i], hash) && clamp(
                now - self.ring[i]->0.at,
            ) < floor
    }

    /// Whether the torrent was announced with another key.
    pub open spec fn key_churned(self, hash: Seq<u8>, key: u32) -> bool {
        exists|i: int|
            0 <= i < self.ring.len() && of_torrent(#[trigger] self.ring[i], hash)
                && self.ring[i]->0.key != key
    }

    /// Whether the torrent was announced with another peer id.
    pub open spec fn peer_churned(self, hash: Seq<u8>, peer: u32) -> bool {
        exists|i: int|
            0 <= i < self.ring.len() && of_torrent(#[trigger] self.ring[i], hash)
                && self.ring[i]->0.peer != peer
    }

    /// The source with one more announce remembered, in place of the oldest.
    pub open spec fn remembering(self, s: SeenView) -> ClientView {
        ClientView {
            ring: self.ring.update(self.ring_pos, Some(s)),
            ring_pos: (self.ring_pos + 1) % RING as int,
            ..self
        }
    }

    /// The source with the torrent added to its breadth fingerprint.
    pub open spec fn widened(self, hash: Seq<u8>) -> ClientView {
        ClientView { breadth: self.breadth | (1u64 << breadth_bucket(hash)), ..self }
    }
}

/// The fingerprint of a byte string: base 31, kept in 32 bits.
pub open spec fn fingerprint(s: Seq<u8>) -> u32
    decreases s.len(),
{
    if s.len() == 0 {
        0
    } else {
        ((fingerprint(s.drop_last()) * 31 + s.last()) % 0x1_0000_0000) as u32
    }
}

/// Fingerprint the random tail of a peer_id (BEP-20 fixes only the prefix).
pub fn peer_fingerprint(peer_id: &PeerId) -> (r: u32)
    ensures
        r == fingerprint(peer_id@.subrange(8, 20)),
{
    let ghost tail = peer_id@.subrange(8, 20);
    let mut acc: u32 = 0;
    let mut i: usize = 8;
    assert(tail.take(0) =~= Seq::empty());
    while i < 20
        invariant
            8 <= i <= 20,
            tail == peer_id@.subrange(8, 20),
            acc == fingerprint(tail.take(i - 8)),
        decreases 20 - i,
    {
        proof {
            let k = i - 8;
            assert(tail.take(k + 1).drop_last() =~= tail.take(k));
            assert(tail.take(k + 1).last() == peer_id@[i as int]);
        }
        acc = acc.wrapping_mul(31).wrapping_add(peer_id[i] as u32);
        i = i + 1;
    }
    assert(tail.take(12) =~= tail);
    acc
}

/// The breadth bucket of a torrent: the top 6 bits of a multiplicative hash of its first 8 bytes.
pub open spec fn breadth_bucket(hash: Seq<u8>) -> u32 {
    (wire::le_nat(hash.take(8)) * 0x9E37_79B9_7F4A_7C15 % 0x1_0000_0000_0000_0000
        / 0x0400_0000_0000_0000) as u32
}

/// Map an info-hash onto one of 64 breadth buckets.
pub fn breadth_bit(hash: &InfoHash) -> (r: u32)
    ensures
        r == breadth_bucket(hash@),
        r < 64,
{
    let low: [u8; 8] = [
        hash[7],
        hash[6],
        hash[5],
        hash[4],
        hash[3],
        hash[2],
        hash[1],
        hash[0],
    ];
    assert(low@ =~= hash@.take(8).reverse());
    let x: u64 = wire::be_u64(&low);
    (x.wrapping_mul(0x9E37_79B9_7F4A_7C15) / 0x0400_0000_0000_0000) as u32
}

/// How many bits of a number are set.
pub open spec fn ones(n: nat) -> nat
    decreases n,
{
    if n == 0 {
        0
    } else {
        n % 2 + ones(n / 2)
    }
}

/// Count the set bits.
fn count_ones(b: u64) -> (r: u32)
    ensures
        r == ones(b as nat),
{
    let mut rest: u64 = b;
    let mut n: u32 = 0;
    let ghost mut left: nat = 64;
    assert(vstd::arithmetic::power2::pow2(64) == 0x1_0000_0000_0000_0000) by {
        vstd::arithmetic::power2::lemma2_to64();
    }
    while rest > 0
        invariant
            ones(b as nat) == n + ones(rest as nat),
            n + left <= 64,
            rest < vstd::arithmetic::power2::pow2(left),
        decreases rest,
    {
        proof {
            if left == 0 {
                vstd::arithmetic::power2::lemma2_to64();
            }
            vstd::arithmetic::power2::lemma_pow2_unfold(left);
            left = (left - 1) as nat;
        }
        n = n + (rest % 2) as u32;
        rest = rest / 2;
    }
    n
}

impl Client {
    /// The ring position is inside the ring.
    pub open spec fn wf(&self) -> bool {
        self.ring_pos < RING
    }

    /// A source that was never seen.
    pub fn new(now: u32) -> (r: Self)
        ensures
            r.wf(),
            r@ == ClientView::fresh(now),
    {
        let r = Client {
            score: 0,
            last_seen: now,
            decay_at: now,
            banned_until: 0,
            last_announce: None,
            breadth: 0,
            connects: 0,
            empty_swarms: 0,
            ring: [None;RING],
            ring_pos: 0,
        };
        assert(r@ =~= ClientView::fresh(now));
        r
    }

    /// Take the source as seen now, and decay its score.
    pub fn decay(&mut self, now: u32, amount: u32, interval: u32)
        requires
            old(self).wf(),
        ensures
            final(self).wf(),
            final(self)@ == old(self)@.decayed(now, amount, interval),
    {
        let ghost before = self@;
        let interval: u32 = if interval == 0 {
            1
        } else {
            interval
        };
        let silent: u32 = now.saturating_sub(self.decay_at);
        let steps: u32 = silent / interval;
        proof {
            assert(0 <= steps * interval <= silent) by (nonlinear_arith)
                requires
                    steps == silent as int / interval as int,
                    interval > 0,
            ;
            assert(0 <= steps * amount <= 0xffff_ffff * 0xffff_ffff) by (nonlinear_arith)
                requires
                    0 <= steps <= 0xffff_ffff,
                    0 <= amount <= 0xffff_ffff,
            ;
        }
        let loss: u64 = steps as u64 * amount as u64;
        self.score = if loss >= self.score as u64 {
            0
        } else {
            self.score - loss as u32
        };
        self.decay_at = self.decay_at + steps * interval;
        self.last_seen = now;
        assert(self@ =~= before.decayed(now, amount, interval));
    }

    /// Whether the source last announced less than `gap` seconds ago. One that has not announced
    /// before has no rate yet, so it has not.
    pub fn announced_within(&self, now: u32, gap: u32) -> (r: bool)
        ensures
            r == (self@.announce_gap(now) matches Some(g) && g < gap),
    {
        match self.last_announce {
            Some(t) => now.saturating_sub(t) < gap,
            None => false,
        }
    }

    /// Record the announce and report `(interval_violation, key_churn, peer_id_churn)` against the
    /// remembered announces for the *same* torrent.
    pub fn observe(&mut self, a: &AnnounceInfo, now: u32, floor: u32, peer: u32) -> (r: (
        bool,
        bool,
        bool,
    ))
        requires
            old(self).wf(),
        ensures
            final(self).wf(),
            final(self)@ == old(self)@.remembering(
                (SeenView { hash: a.info_hash@, at: now, key: a.key, peer }),
            ),
            r.0 == old(self)@.too_soon(a.info_hash@, now, floor),
            r.1 == old(self)@.key_churned(a.info_hash@, a.key),
            r.2 == old(self)@.peer_churned(a.info_hash@, peer),
    {
        let ghost before = self@;
        let ghost hash = a.info_hash@;
        let mut interval: bool = false;
        let mut key_churn: bool = false;
        let mut peer_churn: bool = false;
        let mut i: usize = 0;
        while i < RING
            invariant
                i <= RING,
                self@ == before,
                self.wf(),
                hash == a.info_hash@,
                interval == exists|j: int|
                    0 <= j < i && of_torrent(#[trigger] before.ring[j], hash) && clamp(
                        now - before.ring[j]->0.at,
                    ) < floor,
                key_churn == exists|j: int|
                    0 <= j < i && of_torrent(#[trigger] before.ring[j], hash)
                        && before.ring[j]->0.key != a.key,
                peer_churn == exists|j: int|
                    0 <= j < i && of_torrent(#[trigger] before.ring[j], hash)
                        && before.ring[j]->0.peer != peer,
            decreases RING - i,
        {
            let slot = self.ring[i];
            assert(before.ring[i as int] == match slot {
                Some(s) => Some(s@),
                None => None,
            });
            if let Some(seen) = slot {
                if text::same(&seen.hash, a.info_hash) {
                    assert(of_torrent(before.ring[i as int], hash));
                    if now.saturating_sub(seen.at) < floor {
                        interval = true;
                    }
                    if seen.key != a.key {
                        key_churn = true;
                    }
                    if seen.peer != peer {
                        peer_churn = true;
                    }
                }
            }
            i = i + 1;
        }
        let seen = Seen { hash: *a.info_hash, at: now, key: a.key, peer };
        self.ring[self.ring_pos] = Some(seen);
        self.ring_pos = (self.ring_pos + 1) % RING;
        assert(self@ =~= before.remembering(seen@));
        (interval, key_churn, peer_churn)
    }

    /// Fold a torrent into the breadth fingerprint; returns the approximate distinct count.
    pub fn widen(&mut self, hash: &InfoHash) -> (r: u32)
        requires
            old(self).wf(),
        ensures
            final(self).wf(),
            final(self)@ == old(self)@.widened(hash@),
            r == ones(final(self)@.breadth as nat),
    {
        let bit: u32 = breadth_bit(hash);
        self.breadth = self.breadth | (1u64 << bit);
        count_ones(self.breadth)
    }
}

} // verus!
