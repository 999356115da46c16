//! The detector: bounded per-source state, scoring, and escalating bans.

use vstd::prelude::*;

use crate::bytemap;
use crate::bytemap::ByteMap;
use crate::l7;
use crate::l7::client;
use crate::l7::client::{Client, ClientView, SeenView};
use crate::l7::{AnnounceFacts, AnnounceInfo, Config, Ip, Verdict};
use crate::peers;

verus! {

/// Entries sampled when evicting from a full map. Scanning every entry for the true
/// least-recently-seen is O(n) on the hot path, fatal once a map holds millions, so approximate
/// it from a small sample instead.
pub const EVICT_SAMPLE: usize = 8;

/// Number of shards for the per-source state map.
pub const SHARDS: usize = 16;

/// A source's ban history, used to escalate repeat offenders.
#[derive(Debug, Clone, Copy)]
pub struct Offender {
    /// Bans so far.
    pub offenses: u32,
    /// When the last one was.
    pub last: u32,
}

/// What the detector remembers: the tracked sources and the offenders.
#[verifier::ext_equal]
pub struct DetectorView {
    pub sources: Map<Seq<u8>, ClientView>,
    pub offenders: Map<Seq<u8>, Offender>,
}

/// What a source did.
#[verifier::ext_equal]
pub enum Signal {
    Announce(AnnounceFacts),
    ConnidMismatch,
    Scrape(nat),
    Connect,
}

/// Where the least number stands; the first place where it stands in several.
pub open spec fn first_min(ages: Seq<u32>) -> int
    decreases ages.len(),
{
    if ages.len() <= 1 {
        0
    } else {
        let before = first_min(ages.drop_last());
        if ages.last() < ages[before] {
            ages.len() - 1
        } else {
            before
        }
    }
}

/// The keys considered for eviction.
pub open spec fn sample(dom: Set<Seq<u8>>) -> Seq<Seq<u8>> {
    peers::up_to(bytemap::listing(dom), EVICT_SAMPLE as nat)
}

/// The key to evict: the one with the least age stamp of those considered.
pub open spec fn eldest(dom: Set<Seq<u8>>, stamp: spec_fn(Seq<u8>) -> u32) -> Seq<u8> {
    sample(dom)[first_min(sample(dom).map_values(stamp))]
}

/// How many shards are used: all of them, unless the total cap has fewer places than that.
pub open spec fn shard_count(config: Config) -> int {
    if config.max_entries == 0 {
        1
    } else if config.max_entries < SHARDS {
        config.max_entries as int
    } else {
        SHARDS as int
    }
}

/// The shard that a source belongs to.
pub open spec fn shard_of(config: Config, ip: Seq<u8>) -> int {
    ip[15] as int % shard_count(config)
}

/// How many sources a shard may hold: its part of the total cap.
pub open spec fn shard_cap(config: Config) -> int {
    config.max_entries as int / shard_count(config)
}

/// The shards together hold no more than the total cap, and each has a place where there is any.
pub proof fn shard_caps(config: Config)
    ensures
        1 <= shard_count(config) <= SHARDS,
        0 <= shard_count(config) * shard_cap(config) <= config.max_entries,
        config.max_entries > 0 ==> shard_cap(config) >= 1,
        config.max_entries == 0 ==> shard_cap(config) == 0,
{
    let n = config.max_entries as int;
    let k = shard_count(config);
    vstd::arithmetic::div_mod::lemma_fundamental_div_mod(n, k);
    vstd::arithmetic::div_mod::lemma_div_pos_is_pos(n, k);
    assert(k * shard_cap(config) >= 0) by (nonlinear_arith)
        requires
            k >= 1,
            shard_cap(config) >= 0,
    ;
    if n > 0 {
        vstd::arithmetic::div_mod::lemma_div_non_zero(n, k);
    }
}

/// The sources of a shard.
pub open spec fn shard_sources(
    config: Config,
    sources: Map<Seq<u8>, ClientView>,
    shard: int,
) -> Set<Seq<u8>> {
    sources.dom().filter(|ip: Seq<u8>| shard_of(config, ip) == shard)
}

/// The sources once there is room for `ip` in its shard.
pub open spec fn with_room(
    config: Config,
    sources: Map<Seq<u8>, ClientView>,
    ip: Seq<u8>,
) -> Map<Seq<u8>, ClientView> {
    let dom = shard_sources(config, sources, shard_of(config, ip));
    if !sources.contains_key(ip) && dom.len() >= shard_cap(config) {
        sources.remove(eldest(dom, |k: Seq<u8>| sources[k].last_seen))
    } else {
        sources
    }
}

/// The sources with `ip` tracked as given. Where the cap has no place at all, nothing is.
pub open spec fn with_source(
    config: Config,
    sources: Map<Seq<u8>, ClientView>,
    ip: Seq<u8>,
    c: ClientView,
) -> Map<Seq<u8>, ClientView> {
    if config.max_entries == 0 {
        sources
    } else {
        with_room(config, sources, ip).insert(ip, c)
    }
}

/// The source as it is now: decayed, or fresh where it is not tracked.
pub open spec fn client_for(
    config: Config,
    sources: Map<Seq<u8>, ClientView>,
    ip: Seq<u8>,
    now: u32,
) -> ClientView {
    if sources.contains_key(ip) {
        sources[ip].decayed(now, config.decay_amount, config.decay_interval)
    } else {
        ClientView::fresh(now)
    }
}

/// A weight that counts only under a condition.
pub open spec fn when(cond: bool, weight: u32) -> nat {
    if cond {
        weight as nat
    } else {
        0
    }
}

/// Whether the source announces far faster than the interval it was given: it announced before,
/// and that was less than the gap ago. What else it sent in between does not count.
pub open spec fn is_fast(config: Config, c: ClientView, now: u32) -> bool {
    c.announce_gap(now) matches Some(g) && g < config.fast_announce_gap
}

/// Single-packet checks that need no per-source state.
pub open spec fn stateless(config: Config, a: AnnounceFacts, fast: bool) -> nat {
    when(a.key == 0 || a.key == u32::MAX, config.weight_bad_key) + when(
        a.declared_ip != 0 && a.source_is_public,
        config.weight_declared_ip,
    ) + when(fast && a.port < 1024, config.weight_bad_port) + when(
        fast && a.left == 0 && a.downloaded == 0 && a.uploaded == 0,
        config.weight_fake_seeder,
    ) + when(fast && a.num_want > config.numwant_abuse, config.weight_numwant)
}

/// Consecutive empty swarms after the announce.
pub open spec fn empty_run(config: Config, c: ClientView, a: AnnounceFacts, now: u32) -> u32 {
    if is_fast(config, c, now) && a.swarm_peers <= 1 {
        client::clamp(c.empty_swarms + 1)
    } else {
        0
    }
}

/// The breadth fingerprint after the announce.
pub open spec fn breadth_after(config: Config, c: ClientView, a: AnnounceFacts, now: u32) -> u64 {
    if is_fast(config, c, now) {
        c.widened(a.info_hash).breadth
    } else {
        c.breadth
    }
}

/// What an announce adds to the score of a source.
pub open spec fn announce_score(config: Config, c: ClientView, a: AnnounceFacts, now: u32) -> nat {
    let fast = is_fast(config, c, now);
    let peer = client::fingerprint(a.peer_id.subrange(8, 20));
    stateless(config, a, fast) + when(
        c.too_soon(a.info_hash, now, config.reannounce_min_interval),
        config.weight_interval,
    ) + when(c.key_churned(a.info_hash, a.key), config.weight_key_churn) + when(
        c.peer_churned(a.info_hash, peer),
        config.weight_peerid_churn,
    ) + when(!l7::known_client(a.peer_id), config.weight_peerid) + when(
        empty_run(config, c, a, now) > config.empty_swarm_threshold,
        config.weight_empty_swarm,
    ) + when(
        fast && client::ones(breadth_after(config, c, a, now) as nat) >= config.breadth_threshold,
        config.weight_breadth,
    )
}

/// The source after what it did, scored.
pub open spec fn scored(config: Config, c: ClientView, s: Signal, now: u32) -> ClientView {
    match s {
        Signal::Announce(a) => ClientView {
            score: client::clamp(c.score + announce_score(config, c, a, now)),
            connects: 0,
            last_announce: Some(now),
            empty_swarms: empty_run(config, c, a, now),
            breadth: breadth_after(config, c, a, now),
            ..c.remembering(
                SeenView {
                    hash: a.info_hash,
                    at: now,
                    key: a.key,
                    peer: client::fingerprint(a.peer_id.subrange(8, 20)),
                },
            )
        },
        Signal::ConnidMismatch => ClientView {
            score: client::clamp(c.score + config.weight_connid),
            ..c
        },
        Signal::Scrape(hashes) => ClientView {
            score: client::clamp(
                c.score + when(
                    hashes >= config.scrape_volume_threshold,
                    config.weight_scrape_volume,
                ),
            ),
            connects: 0,
            ..c
        },
        Signal::Connect => ClientView {
            score: client::clamp(
                c.score + when(
                    client::clamp(c.connects + 1) > config.connect_burst,
                    config.weight_connect_spam,
                ),
            ),
            connects: client::clamp(c.connects + 1),
            ..c
        },
    }
}

/// Whether a source is to be banned: over the threshold, and not inside a ban already issued.
pub open spec fn to_ban(config: Config, c: ClientView, now: u32) -> bool {
    c.score >= config.score_ban_threshold && now >= c.banned_until
}

/// The source once the decision is made: a ban suppresses further bans for the cooldown.
pub open spec fn decided(config: Config, c: ClientView, now: u32) -> ClientView {
    if to_ban(config, c, now) {
        ClientView { banned_until: client::clamp(now + config.reban_cooldown), ..c }
    } else {
        c
    }
}

/// Bans of a source so far.
pub open spec fn offenses(offenders: Map<Seq<u8>, Offender>, ip: Seq<u8>) -> u32 {
    if offenders.contains_key(ip) {
        offenders[ip].offenses
    } else {
        0
    }
}

/// The escalation tier of a source's next ban.
pub open spec fn next_tier(config: Config, offenders: Map<Seq<u8>, Offender>, ip: Seq<u8>) -> u32 {
    let before = (client::clamp(offenses(offenders, ip) + 1) - 1) as u32;
    let top = client::clamp(config.ban_tiers - 1);
    if before <= top {
        before
    } else {
        top
    }
}

/// The offenders once there is room for `ip`.
pub open spec fn offender_room(
    config: Config,
    offenders: Map<Seq<u8>, Offender>,
    ip: Seq<u8>,
) -> Map<Seq<u8>, Offender> {
    if !offenders.contains_key(ip) && offenders.len() >= config.max_offenders {
        offenders.remove(eldest(offenders.dom(), |k: Seq<u8>| offenders[k].last))
    } else {
        offenders
    }
}

/// The offenders after one more ban. Where the cap has no place at all, none is remembered.
pub open spec fn with_offense(
    config: Config,
    offenders: Map<Seq<u8>, Offender>,
    ip: Seq<u8>,
    now: u32,
) -> Map<Seq<u8>, Offender> {
    if config.max_offenders == 0 {
        offenders
    } else {
        offender_room(config, offenders, ip).insert(
            ip,
            Offender { offenses: client::clamp(offenses(offenders, ip) + 1), last: now },
        )
    }
}

/// The source after what it did, before a decision is made.
pub open spec fn judged(
    config: Config,
    d: DetectorView,
    ip: Seq<u8>,
    s: Signal,
    now: u32,
) -> ClientView {
    scored(config, client_for(config, d.sources, ip, now), s, now)
}

/// What the detector remembers after a source did something.
pub open spec fn fed(config: Config, d: DetectorView, ip: Seq<u8>, s: Signal, now: u32) -> (
    DetectorView,
    Verdict,
) {
    let c = judged(config, d, ip, s, now);
    let sources = with_source(config, d.sources, ip, decided(config, c, now));
    if to_ban(config, c, now) {
        (
            DetectorView { sources, offenders: with_offense(config, d.offenders, ip, now) },
            Verdict::Ban {
                duration: config.ban_duration,
                tier: next_tier(config, d.offenders, ip),
            },
        )
    } else {
        (DetectorView { sources, offenders: d.offenders }, Verdict::Allow)
    }
}

/// The least number's place is a place.
pub proof fn first_min_range(ages: Seq<u32>)
    requires
        ages.len() > 0,
    ensures
        0 <= first_min(ages) < ages.len(),
    decreases ages.len(),
{
    if ages.len() > 1 {
        first_min_range(ages.drop_last());
    }
}

/// Where the least number stands.
fn first_min_index(ages: &Vec<u32>) -> (r: usize)
    requires
        ages@.len() > 0,
    ensures
        r == first_min(ages@),
        r < ages@.len(),
{
    let mut best: usize = 0;
    let mut i: usize = 1;
    while i < ages.len()
        invariant
            1 <= i <= ages@.len(),
            best < i,
            best == first_min(ages@.take(i as int)),
        decreases ages@.len() - i,
    {
        proof {
            let k = i as int;
            assert(ages@.take(k + 1).drop_last() =~= ages@.take(k));
        }
        if ages[i] < ages[best] {
            best = i;
        }
        i = i + 1;
    }
    assert(ages@.take(ages@.len() as int) =~= ages@);
    best
}

type Shard = ByteMap<16, Client>;

/// A shard is valid: its map and every source in it.
spec fn shard_wf(shard: Shard) -> bool {
    &&& shard.wf()
    &&& forall|ip: Seq<u8>| #[trigger] shard@.contains_key(ip) ==> shard@[ip].wf()
}

/// The source to evict from a shard.
fn oldest_source(shard: &Shard) -> (r: Option<Ip>)
    requires
        shard_wf(*shard),
    ensures
        match r {
            Some(ip) => shard@.contains_key(ip@) && ip@ == eldest(
                shard@.dom(),
                |k: Seq<u8>| shard@[k].last_seen,
            ),
            None => shard@.dom().len() == 0,
        },
{
    let ghost stamp = |k: Seq<u8>| shard@[k].last_seen;
    let ghost ks = sample(shard@.dom());
    let keys = shard.first_keys(EVICT_SAMPLE);
    proof {
        bytemap::listing_len(shard@.dom());
    }
    if keys.len() == 0 {
        return None;
    }
    let mut ages: Vec<u32> = Vec::new();
    let mut i: usize = 0;
    while i < keys.len()
        invariant
            i <= keys@.len(),
            shard_wf(*shard),
            ks == sample(shard@.dom()),
            stamp == (|k: Seq<u8>| shard@[k].last_seen),
            keys@.len() == ks.len(),
            bytemap::is_listing(bytemap::listing(shard@.dom()), shard@.dom()),
            forall|j: int|
                0 <= j < keys@.len() ==> (#[trigger] keys@[j])@ == bytemap::listing(
                    shard@.dom(),
                )[j],
            ages@ == ks.take(i as int).map_values(stamp),
        decreases keys@.len() - i,
    {
        let ghost k = i as int;
        assert(keys@[k]@ == ks[k]);
        assert(shard@.dom().contains(bytemap::listing(shard@.dom())[k]));
        let age: u32 = match shard.get(&keys[i]) {
            Some(c) => c.last_seen,
            None => 0,
        };
        ages.push(age);
        assert(ages@ =~= ks.take(k + 1).map_values(stamp));
        i = i + 1;
    }
    assert(ks.take(ks.len() as int) =~= ks);
    let best: usize = first_min_index(&ages);
    assert(keys@[best as int]@ == ks[best as int]);
    assert(shard@.dom().contains(bytemap::listing(shard@.dom())[best as int]));
    Some(keys[best])
}

/// The offender to evict.
fn oldest_offender(reg: &ByteMap<16, Offender>) -> (r: Option<Ip>)
    requires
        reg.wf(),
    ensures
        match r {
            Some(ip) => reg@.contains_key(ip@) && ip@ == eldest(
                reg@.dom(),
                |k: Seq<u8>| reg@[k].last,
            ),
            None => reg@.dom().len() == 0,
        },
{
    let ghost stamp = |k: Seq<u8>| reg@[k].last;
    let ghost ks = sample(reg@.dom());
    let keys = reg.first_keys(EVICT_SAMPLE);
    proof {
        bytemap::listing_len(reg@.dom());
    }
    if keys.len() == 0 {
        return None;
    }
    let mut ages: Vec<u32> = Vec::new();
    let mut i: usize = 0;
    while i < keys.len()
        invariant
            i <= keys@.len(),
            reg.wf(),
            ks == sample(reg@.dom()),
            stamp == (|k: Seq<u8>| reg@[k].last),
            keys@.len() == ks.len(),
            bytemap::is_listing(bytemap::listing(reg@.dom()), reg@.dom()),
            forall|j: int|
                0 <= j < keys@.len() ==> (#[trigger] keys@[j])@ == bytemap::listing(reg@.dom())[j],
            ages@ == ks.take(i as int).map_values(stamp),
        decreases keys@.len() - i,
    {
        let ghost k = i as int;
        assert(keys@[k]@ == ks[k]);
        assert(reg@.dom().contains(bytemap::listing(reg@.dom())[k]));
        let age: u32 = match reg.get(&keys[i]) {
            Some(o) => o.last,
            None => 0,
        };
        ages.push(age);
        assert(ages@ =~= ks.take(k + 1).map_values(stamp));
        i = i + 1;
    }
    assert(ks.take(ks.len() as int) =~= ks);
    let best: usize = first_min_index(&ages);
    assert(keys@[best as int]@ == ks[best as int]);
    assert(reg@.dom().contains(bytemap::listing(reg@.dom())[best as int]));
    Some(keys[best])
}

/// Bounded, sharded behavioral detector.
pub struct Detector {
    config: Config,
    shards: Vec<Shard>,
    per_shard_cap: usize,
    offenders: ByteMap<16, Offender>,
}

impl View for Detector {
    type V = DetectorView;

    closed spec fn view(&self) -> DetectorView {
        DetectorView {
            sources: Map::new(
                |ip: Seq<u8>|
                    ip.len() == 16 && self.shards@[shard_of(self.config, ip)]@.contains_key(ip),
                |ip: Seq<u8>| self.shards@[shard_of(self.config, ip)]@[ip]@,
            ),
            offenders: self.offenders@,
        }
    }
}

impl Detector {
    /// The tunables.
    pub closed spec fn config(&self) -> Config {
        self.config
    }

    /// Every shard is valid, holds only sources that belong to it, and is within its cap; so is
    /// the offender registry.
    pub closed spec fn wf(&self) -> bool {
        &&& self.shards@.len() == shard_count(self.config)
        &&& self.per_shard_cap == shard_cap(self.config)
        &&& forall|i: int| 0 <= i < self.shards@.len() ==> shard_wf(#[trigger] self.shards@[i])
        &&& forall|i: int|
            0 <= i < self.shards@.len() ==> (#[trigger] self.shards@[i])@.len()
                <= self.per_shard_cap
        &&& forall|i: int, ip: Seq<u8>|
            0 <= i < self.shards@.len() && #[trigger] self.shards@[i]@.contains_key(ip)
                ==> shard_of(self.config, ip) == i
        &&& self.offenders.wf()
        &&& self.offenders@.len() <= self.config.max_offenders
    }

    /// Create a detector with the given tunables.
    #[must_use]
    pub fn new(config: Config) -> (r: Self)
        ensures
            r.wf(),
            r.config() == config,
            r@ == (DetectorView { sources: Map::empty(), offenders: Map::empty() }),
    {
        let count: usize = if config.max_entries == 0 {
            1
        } else if config.max_entries < SHARDS {
            config.max_entries
        } else {
            SHARDS
        };
        let mut shards: Vec<Shard> = Vec::new();
        let mut i: usize = 0;
        while i < count
            invariant
                i <= count,
                shards@.len() == i,
                forall|j: int| 0 <= j < i ==> (#[trigger] shards@[j]).wf(),
                forall|j: int|
                    0 <= j < i ==> (#[trigger] shards@[j])@ == Map::<Seq<u8>, Client>::empty(),
            decreases count - i,
        {
            shards.push(ByteMap::new());
            i = i + 1;
        }
        let per_shard_cap: usize = config.max_entries / count;
        let r = Detector { config, shards, per_shard_cap, offenders: ByteMap::new() };
        proof {
            assert(r@.sources =~= Map::<Seq<u8>, ClientView>::empty());
            assert(r@ =~= (DetectorView { sources: Map::empty(), offenders: Map::empty() }));
        }
        r
    }

    /// A shard's map has the shard's sources.
    proof fn shard_dom(&self, i: int)
        requires
            self.wf(),
            0 <= i < self.shards@.len(),
        ensures
            shard_sources(self.config, self@.sources, i) == self.shards@[i]@.dom(),
    {
        assert(shard_wf(self.shards@[i]));
        self.shards@[i].keys_finite();
        assert forall|ip: Seq<u8>| #[trigger] self.shards@[i]@.dom().contains(
            ip,
        ) implies shard_sources(self.config, self@.sources, i).contains(ip) by {
            assert(self.shards@[i]@.contains_key(ip));
        }
        assert(shard_sources(self.config, self@.sources, i) =~= self.shards@[i]@.dom());
    }

    /// Take the source out, decayed, or a fresh one, evicting the least-recently-seen of a sample
    /// if the shard is at capacity.
    fn touch(&mut self, ip: &Ip, now: u32) -> (c: Client)
        requires
            old(self).wf(),
        ensures
            final(self).wf(),
            final(self).config() == old(self).config(),
            final(self)@.offenders == old(self)@.offenders,
            final(self)@.sources == with_room(
                old(self).config(),
                old(self)@.sources,
                ip@,
            ).remove(ip@),
            old(self).config().max_entries == 0 ==> final(self)@.sources == old(self)@.sources,
            old(self).config().max_entries > 0 ==> shard_sources(
                old(self).config(),
                final(self)@.sources,
                shard_of(old(self).config(), ip@),
            ).len() < shard_cap(old(self).config()),
            c.wf(),
            c@ == client_for(old(self).config(), old(self)@.sources, ip@, now),
    {
        let i: usize = ip[15] as usize % self.shards.len();
        let ghost before = self.shards@[i as int]@;
        proof {
            assert(shard_wf(self.shards@[i as int]));
            self.shards@[i as int].keys_finite();
            self.shard_dom(i as int);
            shard_caps(self.config);
            if self.config.max_entries == 0 {
                assert(before.dom() =~= Set::empty());
                assert(self@.sources =~= Map::empty());
            }
        }
        let config: Config = self.config;
        let taken = self.shards[i].remove(ip);
        let known: bool = taken.is_some();
        if !known && self.shards[i].len() >= self.per_shard_cap {
            assert(self.shards@[i as int]@ =~= before);
            if let Some(oldest) = oldest_source(&self.shards[i]) {
                self.shards[i].remove(&oldest);
            }
        }
        proof {
            let after = self.shards@[i as int]@;
            let sources = old(self)@.sources;
            let stamp = |k: Seq<u8>| sources[k].last_seen;
            assert forall|ip: Seq<u8>| ip.len() == 16 implies 0 <= #[trigger] shard_of(
                self.config,
                ip,
            ) < self.shards@.len() by {}
            let dom = shard_sources(config, sources, i as int);
            assert(dom == before.dom());
            let raw = |k: Seq<u8>| before[k].last_seen;
            assert(sample(dom).map_values(stamp) =~= sample(dom).map_values(raw)) by {
                bytemap::listing_exists(dom, 16);
                assert forall|j: int| 0 <= j < sample(dom).len() implies stamp(
                    #[trigger] sample(dom)[j],
                ) == raw(sample(dom)[j]) by {
                    assert(dom.contains(bytemap::listing(dom)[j]));
                    assert(sources.contains_key(sample(dom)[j]));
                }
            }
            assert forall|j: int, k: Seq<u8>|
                0 <= j < self.shards@.len() && #[trigger] self.shards@[j]@.contains_key(k)
                implies shard_of(self.config, k) == j by {
                assert(old(self).shards@[j]@.contains_key(k));
            }
            assert(self@.sources =~= with_room(config, sources, ip@).remove(ip@));
            self.shard_dom(i as int);
        }
        match taken {
            Some(found) => {
                let mut c = found;
                c.decay(now, config.decay_amount, config.decay_interval);
                c
            },
            None => Client::new(now),
        }
    }

    /// Put a source (back) in.
    fn put(&mut self, ip: &Ip, c: Client)
        requires
            old(self).wf(),
            c.wf(),
            shard_sources(
                old(self).config(),
                old(self)@.sources,
                shard_of(old(self).config(), ip@),
            ).len() < shard_cap(old(self).config()),
        ensures
            final(self).wf(),
            final(self).config() == old(self).config(),
            final(self)@.offenders == old(self)@.offenders,
            final(self)@.sources == old(self)@.sources.insert(ip@, c@),
    {
        let i: usize = ip[15] as usize % self.shards.len();
        proof {
            assert(shard_wf(self.shards@[i as int]));
            self.shards@[i as int].keys_finite();
            self.shard_dom(i as int);
        }
        self.shards[i].insert(*ip, c);
        proof {
            assert forall|ip: Seq<u8>| ip.len() == 16 implies 0 <= #[trigger] shard_of(
                self.config,
                ip,
            ) < self.shards@.len() by {}
            assert forall|j: int, k: Seq<u8>|
                0 <= j < self.shards@.len() && #[trigger] self.shards@[j]@.contains_key(k)
                implies shard_of(self.config, k) == j by {
                assert(old(self).shards@[j]@.contains_key(k) || (j == i && k == ip@));
            }
            assert(self@.sources =~= old(self)@.sources.insert(ip@, c@));
        }
    }

    /// Single-packet checks that need no per-source state: each is a direct contradiction of what
    /// the tracker protocol says a well-behaved client does.
    fn stateless_score(&self, a: &AnnounceInfo, fast: bool) -> (r: u32)
        requires
            stateless(self.config(), a@, fast) <= u32::MAX,
        ensures
            r == stateless(self.config(), a@, fast),
    {
        let c = &self.config;
        let mut score: u32 = 0;
        // A real client randomises `key`; crude flood tools leave it at a trivial constant.
        if a.key == 0 || a.key == u32::MAX {
            score = score + c.weight_bad_key;
        }
        // The `IP` field is only a legitimate NAT hint from private space.
        if a.declared_ip != 0 && a.source_is_public {
            score = score + c.weight_declared_ip;
        }
        // A peer nobody can connect to is not participating in the swarm. Gated: some clients
        // legitimately listen on 443/80 to get past ISP filtering.
        if fast && a.port < 1024 {
            score = score + c.weight_bad_port;
        }
        // Claims a complete copy while never having transferred a byte. Gated: this is exactly
        // what a client reports when you add a torrent for files you already have.
        if fast && a.left == 0 && a.downloaded == 0 && a.uploaded == 0 {
            score = score + c.weight_fake_seeder;
        }
        // "Even 30 peers is plenty": demanding far more is harvesting, not downloading.
        if fast && a.num_want > c.numwant_abuse {
            score = score + c.weight_numwant;
        }
        score
    }

    /// Whether this observation crosses into a ban. Fires **once** per offence: while the source
    /// stays over the threshold further packets are suppressed, otherwise a sustained flood would
    /// re-ban (and re-write nft for) the same IP on every packet.
    fn crosses(&self, client: &mut Client, now: u32) -> (r: bool)
        requires
            old(client).wf(),
        ensures
            final(client).wf(),
            r == to_ban(self.config(), old(client)@, now),
            final(client)@ == decided(self.config(), old(client)@, now),
    {
        if client.score < self.config.score_ban_threshold {
            return false;
        }
        if now < client.banned_until {
            return false;  // still inside the ban we already issued
        }
        client.banned_until = now.saturating_add(self.config.reban_cooldown);
        true
    }

    /// Bump the source's ban history and return its escalation tier. Kept in a small registry
    /// separate from the hot per-source map: an eviction there would erase exactly the history
    /// escalation depends on, and offenders are far fewer than tracked sources.
    fn record_offence(&mut self, ip: &Ip, now: u32) -> (tier: u32)
        requires
            old(self).wf(),
        ensures
            final(self).wf(),
            final(self).config() == old(self).config(),
            final(self)@.sources == old(self)@.sources,
            final(self)@.offenders == with_offense(
                old(self).config(),
                old(self)@.offenders,
                ip@,
                now,
            ),
            tier == next_tier(old(self).config(), old(self)@.offenders, ip@),
    {
        let before: u32 = match self.offenders.get(ip) {
            Some(o) => o.offenses,
            None => 0,
        };
        let known: bool = self.offenders.get(ip).is_some();
        proof {
            self.offenders.keys_finite();
        }
        let now_offenses: u32 = before.saturating_add(1);
        if self.config.max_offenders > 0 {
            if !known && self.offenders.len() >= self.config.max_offenders {
                if let Some(oldest) = oldest_offender(&self.offenders) {
                    self.offenders.remove(&oldest);
                }
            }
            self.offenders.insert(*ip, Offender { offenses: now_offenses, last: now });
        }
        proof {
            self.offenders.keys_finite();
            assert(self@.sources =~= old(self)@.sources);
            assert(self@.offenders =~= with_offense(
                self.config,
                old(self)@.offenders,
                ip@,
                now,
            ));
        }
        let top: u32 = self.config.ban_tiers.saturating_sub(1);
        if now_offenses - 1 <= top {
            now_offenses - 1
        } else {
            top
        }
    }

    /// Put a scored source back and turn the decision into a verdict, escalating on repeat
    /// offences.
    fn decide(&mut self, ip: &Ip, c: Client, now: u32) -> (r: Verdict)
        requires
            old(self).wf(),
            c.wf(),
            old(self).config().max_entries > 0 ==> shard_sources(
                old(self).config(),
                old(self)@.sources,
                shard_of(old(self).config(), ip@),
            ).len() < shard_cap(old(self).config()),
        ensures
            final(self).wf(),
            final(self).config() == old(self).config(),
            final(self)@.sources == (if old(self).config().max_entries == 0 {
                old(self)@.sources
            } else {
                old(self)@.sources.insert(ip@, decided(old(self).config(), c@, now))
            }),
            final(self)@.offenders == (if to_ban(old(self).config(), c@, now) {
                with_offense(old(self).config(), old(self)@.offenders, ip@, now)
            } else {
                old(self)@.offenders
            }),
            r == (if to_ban(old(self).config(), c@, now) {
                Verdict::Ban {
                    duration: old(self).config().ban_duration,
                    tier: next_tier(old(self).config(), old(self)@.offenders, ip@),
                }
            } else {
                Verdict::Allow
            }),
    {
        let mut client = c;
        let ban: bool = self.crosses(&mut client, now);
        if self.config.max_entries > 0 {
            self.put(ip, client);
        }
        if !ban {
            return Verdict::Allow;
        }
        let tier: u32 = self.record_offence(ip, now);
        Verdict::Ban { duration: self.config.ban_duration, tier }
    }

    /// Feed an announce. `now` is in **seconds**.
    pub fn on_announce(&mut self, ip: &Ip, a: &AnnounceInfo, now: u32) -> (r: Verdict)
        requires
            old(self).wf(),
            announce_score(
                old(self).config(),
                client_for(old(self).config(), old(self)@.sources, ip@, now),
                a@,
                now,
            ) <= u32::MAX,
        ensures
            final(self).wf(),
            final(self).config() == old(self).config(),
            (final(self)@, r) == fed(
                old(self).config(),
                old(self)@,
                ip@,
                Signal::Announce(a@),
                now,
            ),
    {
        let config: Config = self.config;
        let peer: u32 = client::peer_fingerprint(a.peer_id);
        let mut client = self.touch(ip, now);
        let ghost c0 = client@;
        let ghost sources = self@.sources;
        // Getting here means the client used a connection id it was issued.
        client.connects = 0;
        let (interval, key_churn, peer_churn) = client.observe(
            a,
            now,
            config.reannounce_min_interval,
            peer,
        );
        // Behavioural signals only count when this source is announcing far faster than the
        // interval we advertise. Without this gate an honest seeder of an unpopular torrent,
        // or of files it already had, trips the same checks, just over hours instead of
        // seconds.
        let fast: bool = client.announced_within(now, config.fast_announce_gap);
        client.last_announce = Some(now);
        let mut add: u32 = self.stateless_score(a, fast);
        if interval {
            add = add + config.weight_interval;
        }
        if key_churn {
            add = add + config.weight_key_churn;
        }
        if peer_churn {
            add = add + config.weight_peerid_churn;
        }
        if !l7::is_known_client(a.peer_id) {
            add = add + config.weight_peerid;
        }
        // Announcing into a swarm nobody else is in, over and over, is enumeration rather
        // than participation. Any real swarm resets the run, so power users are unaffected.
        if fast && a.swarm_peers <= 1 {
            client.empty_swarms = client.empty_swarms.saturating_add(1);
            if client.empty_swarms > config.empty_swarm_threshold {
                add = add + config.weight_empty_swarm;
            }
        } else {
            client.empty_swarms = 0;
        }
        // A genuine peer participates in a bounded set of torrents.
        if fast && client.widen(a.info_hash) >= config.breadth_threshold {
            add = add + config.weight_breadth;
        }
        client.score = client.score.saturating_add(add);
        proof {
            assert(add == announce_score(config, c0, a@, now));
            assert(client@ =~= scored(config, c0, Signal::Announce(a@), now));
        }
        let r = self.decide(ip, client, now);
        proof {
            assert(self@.sources =~= with_source(
                config,
                old(self)@.sources,
                ip@,
                decided(config, client@, now),
            ));
        }
        r
    }

    /// Feed a connection-id mismatch (a UDP announce/scrape whose connid failed validation).
    /// `now` is in **seconds**.
    pub fn on_connid_mismatch(&mut self, ip: &Ip, now: u32) -> (r: Verdict)
        requires
            old(self).wf(),
        ensures
            final(self).wf(),
            final(self).config() == old(self).config(),
            (final(self)@, r) == fed(
                old(self).config(),
                old(self)@,
                ip@,
                Signal::ConnidMismatch,
                now,
            ),
    {
        let mut client = self.touch(ip, now);
        let ghost c0 = client@;
        client.score = client.score.saturating_add(self.config.weight_connid);
        assert(client@ =~= scored(self.config, c0, Signal::ConnidMismatch, now));
        let r = self.decide(ip, client, now);
        proof {
            assert(self@.sources =~= with_source(
                self.config,
                old(self)@.sources,
                ip@,
                decided(self.config, client@, now),
            ));
        }
        r
    }

    /// Feed a scrape carrying `hashes` info-hashes. BEP-15 caps a scrape at ~74 hashes; repeatedly
    /// asking for the maximum is bulk enumeration of swarm stats, not a client checking its own.
    /// `now` is in **seconds**.
    pub fn on_scrape(&mut self, ip: &Ip, hashes: usize, now: u32) -> (r: Verdict)
        requires
            old(self).wf(),
        ensures
            final(self).wf(),
            final(self).config() == old(self).config(),
            (final(self)@, r) == fed(
                old(self).config(),
                old(self)@,
                ip@,
                Signal::Scrape(hashes as nat),
                now,
            ),
    {
        let mut client = self.touch(ip, now);
        let ghost c0 = client@;
        client.connects = 0;  // the handshake was followed through
        if hashes >= self.config.scrape_volume_threshold {
            client.score = client.score.saturating_add(self.config.weight_scrape_volume);
        }
        assert(client@ =~= scored(self.config, c0, Signal::Scrape(hashes as nat), now));
        let r = self.decide(ip, client, now);
        proof {
            assert(self@.sources =~= with_source(
                self.config,
                old(self)@.sources,
                ip@,
                decided(self.config, client@, now),
            ));
        }
        r
    }

    /// Feed a `connect`. BEP-15 issues a connection id that a conforming client then *uses*: one
    /// connect is followed by announces or scrapes for the life of that id. A source that keeps
    /// asking for ids and never uses one is connect spam: the cheapest packet to forge, and
    /// invisible to every other signal here because a connect carries no info-hash, peer_id or
    /// key to inspect. `now` is in **seconds**.
    pub fn on_connect(&mut self, ip: &Ip, now: u32) -> (r: Verdict)
        requires
            old(self).wf(),
        ensures
            final(self).wf(),
            final(self).config() == old(self).config(),
            (final(self)@, r) == fed(old(self).config(), old(self)@, ip@, Signal::Connect, now),
    {
        let mut client = self.touch(ip, now);
        let ghost c0 = client@;
        client.connects = client.connects.saturating_add(1);
        if client.connects > self.config.connect_burst {
            client.score = client.score.saturating_add(self.config.weight_connect_spam);
        }
        assert(client@ =~= scored(self.config, c0, Signal::Connect, now));
        let r = self.decide(ip, client, now);
        proof {
            assert(self@.sources =~= with_source(
                self.config,
                old(self)@.sources,
                ip@,
                decided(self.config, client@, now),
            ));
        }
        r
    }

    /// The sources of the first `n` shards.
    spec fn sources_below(&self, n: int) -> Set<Seq<u8>> {
        self@.sources.dom().filter(|ip: Seq<u8>| shard_of(self.config, ip) < n)
    }

    /// One more shard.
    proof fn sources_below_step(&self, n: int)
        requires
            self.wf(),
            0 <= n < self.shards@.len(),
            self.sources_below(n).finite(),
        ensures
            self.sources_below(n + 1).finite(),
            self.sources_below(n + 1).len() == self.sources_below(n).len()
                + self.shards@[n]@.len(),
    {
        let below = self.sources_below(n);
        let here = self.shards@[n]@.dom();
        assert(shard_wf(self.shards@[n]));
        self.shards@[n].keys_finite();
        self.shard_dom(n);
        assert forall|ip: Seq<u8>| #[trigger] here.contains(ip) implies shard_of(self.config, ip)
            == n by {
            assert(self.shards@[n]@.contains_key(ip));
        }
        assert(below.disjoint(here));
        assert(self.sources_below(n + 1) =~= below + here);
        vstd::set_lib::lemma_set_disjoint_lens(below, here);
    }

    /// Number of currently-tracked sources (for a metrics gauge).
    #[must_use]
    pub fn tracked_sources(&self) -> (r: usize)
        requires
            self.wf(),
        ensures
            r == self@.sources.len(),
            r <= self.config().max_entries,
    {
        let mut total: usize = 0;
        let mut i: usize = 0;
        assert(self.sources_below(0) =~= Set::empty());
        while i < self.shards.len()
            invariant
                self.wf(),
                i <= self.shards@.len(),
                self.sources_below(i as int).finite(),
                total == self.sources_below(i as int).len(),
                total <= i * self.per_shard_cap,
            decreases self.shards@.len() - i,
        {
            proof {
                self.sources_below_step(i as int);
                shard_caps(self.config);
                let cap = self.per_shard_cap as int;
                let count = shard_count(self.config);
                assert(self.shards@[i as int]@.len() <= cap);
                assert(i * cap + cap == (i + 1) * cap) by (nonlinear_arith);
                assert((i + 1) * cap <= count * cap) by (nonlinear_arith)
                    requires
                        i < count,
                        cap >= 0,
                ;
            }
            total = total + self.shards[i].len();
            i = i + 1;
        }
        proof {
            shard_caps(self.config);
            assert(self.sources_below(self.shards@.len() as int) =~= self@.sources.dom());
        }
        total
    }

    /// Number of remembered offenders (for a metrics gauge).
    #[must_use]
    pub fn offenders(&self) -> (r: usize)
        requires
            self.wf(),
        ensures
            r == self@.offenders.len(),
            r <= self.config().max_offenders,
    {
        self.offenders.len()
    }
}

} // verus!
