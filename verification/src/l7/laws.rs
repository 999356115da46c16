//! What holds of the detector over several events.

use vstd::prelude::*;

use crate::bytemap;
use crate::l7;
use crate::l7::client;
use crate::l7::client::ClientView;
use crate::l7::detector;
use crate::l7::detector::{DetectorView, Offender, Signal};
use crate::l7::{AnnounceFacts, Config, Verdict};

verus! {

/// Weights that fit together never overflow the score of an announce.
pub proof fn fitting_weights_never_overflow(
    config: Config,
    c: ClientView,
    a: AnnounceFacts,
    now: u32,
)
    ensures
        detector::announce_score(config, c, a, now) <= l7::weight_sum(config),
{
}

/// A source seen for the first time does not count as announcing fast, nor does one that has done
/// anything but announce: only an announce sets when the source last announced.
pub proof fn first_announce_is_not_fast(
    config: Config,
    c: ClientView,
    s: Signal,
    seen: u32,
    now: u32,
)
    requires
        c.last_announce is None,
    ensures
        ClientView::fresh(seen).last_announce is None,
        !detector::is_fast(config, c, now),
        c.decayed(seen, config.decay_amount, config.decay_interval).last_announce is None,
        s !is Announce ==> detector::scored(config, c, s, seen).last_announce is None,
        s is Announce ==> detector::scored(config, c, s, seen).last_announce == Some(seen),
{
}

/// Connects, scrapes and mismatches leave the rate of announcing as it was.
pub proof fn only_announces_set_the_rate(config: Config, c: ClientView, s: Signal, seen: u32)
    requires
        s !is Announce,
    ensures
        detector::scored(
            config,
            c.decayed(seen, config.decay_amount, config.decay_interval),
            s,
            seen,
        ).last_announce == c.last_announce,
{
}

/// What an announce is scored for however slow the source is: what a single packet or a change of
/// identity gives away.
pub open spec fn identity_score(config: Config, c: ClientView, a: AnnounceFacts, now: u32) -> nat {
    detector::when(a.key == 0 || a.key == u32::MAX, config.weight_bad_key) + detector::when(
        a.declared_ip != 0 && a.source_is_public,
        config.weight_declared_ip,
    ) + detector::when(
        c.too_soon(a.info_hash, now, config.reannounce_min_interval),
        config.weight_interval,
    ) + detector::when(c.key_churned(a.info_hash, a.key), config.weight_key_churn)
        + detector::when(
        c.peer_churned(a.info_hash, client::fingerprint(a.peer_id.subrange(8, 20))),
        config.weight_peerid_churn,
    ) + detector::when(!l7::known_client(a.peer_id), config.weight_peerid)
}

/// A source that announces no faster than told is not scored for its behaviour: its port, its
/// progress, its appetite for peers, empty swarms and the breadth of its torrents do not count.
pub proof fn slow_source_is_not_scored_for_behaviour(
    config: Config,
    c: ClientView,
    a: AnnounceFacts,
    now: u32,
)
    requires
        !detector::is_fast(config, c, now),
    ensures
        detector::announce_score(config, c, a, now) == identity_score(config, c, a, now),
{
}

/// An honest slow announce adds nothing: a known client with a real key, listed under its own
/// address, that keeps its identity and its interval.
pub proof fn honest_slow_announce_adds_nothing(
    config: Config,
    c: ClientView,
    a: AnnounceFacts,
    now: u32,
)
    requires
        !detector::is_fast(config, c, now),
        a.key != 0,
        a.key != u32::MAX,
        a.declared_ip == 0 || !a.source_is_public,
        !c.too_soon(a.info_hash, now, config.reannounce_min_interval),
        !c.key_churned(a.info_hash, a.key),
        !c.peer_churned(a.info_hash, client::fingerprint(a.peer_id.subrange(8, 20))),
        l7::known_client(a.peer_id),
    ensures
        detector::announce_score(config, c, a, now) == 0,
        detector::scored(config, c, Signal::Announce(a), now).score == c.score,
{
}

/// A swarm that others are in clears the run of empty swarms.
pub proof fn real_swarm_clears_the_run(config: Config, c: ClientView, a: AnnounceFacts, now: u32)
    requires
        a.swarm_peers > 1,
    ensures
        detector::scored(config, c, Signal::Announce(a), now).empty_swarms == 0,
{
}

/// Using a connection id, for an announce or a scrape, clears the tally of unused ones.
pub proof fn using_an_id_clears_the_tally(
    config: Config,
    c: ClientView,
    a: AnnounceFacts,
    hashes: nat,
    now: u32,
)
    ensures
        detector::scored(config, c, Signal::Announce(a), now).connects == 0,
        detector::scored(config, c, Signal::Scrape(hashes), now).connects == 0,
{
}

/// The first connects of a source are free.
pub proof fn first_connects_are_free(config: Config, c: ClientView, now: u32)
    requires
        c.connects < config.connect_burst,
    ensures
        detector::scored(config, c, Signal::Connect, now).score == c.score,
{
}

/// Less than a whole interval of silence costs nothing.
pub proof fn part_of_an_interval_costs_nothing(c: ClientView, now: u32, amount: u32, interval: u32)
    requires
        now < c.decay_at + interval,
    ensures
        c.decayed(now, amount, interval).score == c.score,
        c.decayed(now, amount, interval).decay_at == c.decay_at,
{
    let silent = client::clamp(now - c.decay_at) as int;
    let i = if interval == 0 {
        1int
    } else {
        interval as int
    };
    vstd::arithmetic::div_mod::lemma_basic_div(silent, i);
    assert(client::decay_steps(c, now, interval) == 0);
    assert(0int * i == 0) by (nonlinear_arith);
    assert(0int * amount == 0) by (nonlinear_arith);
}

/// Being seen in between does not change what decays: the remainder of an interval is kept.
pub proof fn decay_keeps_the_remainder(
    c: ClientView,
    between: u32,
    now: u32,
    amount: u32,
    interval: u32,
)
    requires
        c.decay_at <= between <= now,
    ensures
        c.decayed(between, amount, interval).decayed(now, amount, interval).score == c.decayed(
            now,
            amount,
            interval,
        ).score,
        c.decayed(between, amount, interval).decayed(now, amount, interval).decay_at == c.decayed(
            now,
            amount,
            interval,
        ).decay_at,
{
    let i = if interval == 0 {
        1int
    } else {
        interval as int
    };
    let a = (between - c.decay_at) as int;
    let b = (now - c.decay_at) as int;
    let s = a / i;
    let t = b / i;
    vstd::arithmetic::div_mod::lemma_fundamental_div_mod(a, i);
    vstd::arithmetic::div_mod::lemma_div_is_ordered(a, b, i);
    assert(i * s == s * i) by (nonlinear_arith);
    assert(0 <= s * i <= a) by (nonlinear_arith)
        requires
            a == i * s + a % i,
            a % i >= 0,
            s >= 0,
            i > 0,
    ;
    let mid = c.decayed(between, amount, interval);
    assert(mid.decay_at == c.decay_at + s * i);
    // the silence after the moved anchor has `t - s` whole intervals
    vstd::arithmetic::div_mod::lemma_hoist_over_denominator(b, -s, i as nat);
    assert((b - s * i) / i == t - s) by {
        assert(b - s * i == b + (-s) * i) by (nonlinear_arith);
    }
    let m = amount as int;
    assert((t - s) * m + s * m == t * m) by (nonlinear_arith);
    assert((t - s) * m >= 0) by (nonlinear_arith)
        requires
            t >= s,
            m >= 0,
    ;
    assert(s * m >= 0) by (nonlinear_arith)
        requires
            s >= 0,
            m >= 0,
    ;
    assert((t - s) * i + s * i == t * i) by (nonlinear_arith);
}

/// Scoring and seeing a source leave the end of its ban as it is.
proof fn scoring_keeps_the_ban(config: Config, d: DetectorView, ip: Seq<u8>, s: Signal, now: u32)
    requires
        d.sources.contains_key(ip),
    ensures
        detector::judged(config, d, ip, s, now).banned_until == d.sources[ip].banned_until,
{
}

/// A banned source is not banned again before the cooldown is over, whatever it does.
pub proof fn ban_is_not_repeated(
    config: Config,
    d: DetectorView,
    ip: Seq<u8>,
    s: Signal,
    now: u32,
    after: DetectorView,
    next: Signal,
    later: u32,
)
    requires
        config.max_entries > 0,
        detector::fed(config, d, ip, s, now).1 is Ban,
        after.sources.contains_key(ip),
        after.sources[ip].banned_until == detector::fed(
            config,
            d,
            ip,
            s,
            now,
        ).0.sources[ip].banned_until,
        later < now + config.reban_cooldown,
        later < u32::MAX,
    ensures
        detector::fed(config, after, ip, next, later).1 == Verdict::Allow,
        detector::fed(config, after, ip, next, later).0.sources[ip].banned_until
            == after.sources[ip].banned_until,
        detector::fed(config, after, ip, next, later).0.offenders == after.offenders,
{
    scoring_keeps_the_ban(config, after, ip, next, later);
}

/// Once the cooldown is over a source over the threshold is banned again, however high its score
/// has stayed.
pub proof fn ban_is_repeated_after_the_cooldown(
    config: Config,
    d: DetectorView,
    ip: Seq<u8>,
    s: Signal,
    now: u32,
)
    requires
        d.sources.contains_key(ip),
        now >= d.sources[ip].banned_until,
        detector::judged(config, d, ip, s, now).score >= config.score_ban_threshold,
    ensures
        detector::fed(config, d, ip, s, now).1 is Ban,
{
    scoring_keeps_the_ban(config, d, ip, s, now);
}

/// Below the threshold there is no ban.
pub proof fn no_ban_below_the_threshold(
    config: Config,
    d: DetectorView,
    ip: Seq<u8>,
    s: Signal,
    now: u32,
)
    requires
        detector::judged(config, d, ip, s, now).score < config.score_ban_threshold,
    ensures
        detector::fed(config, d, ip, s, now).1 == Verdict::Allow,
{
}

/// Repeat offences escalate by one tier each and stop at the last: the first ban is of tier zero,
/// and a ban raises the next tier by one until the last.
pub proof fn repeat_offences_escalate(
    config: Config,
    offenders: Map<Seq<u8>, Offender>,
    ip: Seq<u8>,
    now: u32,
)
    requires
        config.ban_tiers > 0,
        config.max_offenders > 0,
    ensures
        !offenders.contains_key(ip) ==> detector::next_tier(config, offenders, ip) == 0,
        detector::next_tier(config, offenders, ip) < config.ban_tiers,
        detector::next_tier(
            config,
            detector::with_offense(config, offenders, ip, now),
            ip,
        ) == (if detector::next_tier(config, offenders, ip) + 1 < config.ban_tiers {
            detector::next_tier(config, offenders, ip) + 1
        } else {
            config.ban_tiers - 1
        }),
{
}

/// An event of one source changes no other, but for one of its shard that may have to make room.
pub proof fn other_sources_are_left_alone(
    config: Config,
    d: DetectorView,
    ip: Seq<u8>,
    s: Signal,
    now: u32,
    other: Seq<u8>,
)
    requires
        other != ip,
        d.sources.contains_key(other),
    ensures
        ({
            let after = detector::fed(config, d, ip, s, now).0.sources;
            &&& after.contains_key(other) ==> after[other] == d.sources[other]
            &&& !after.contains_key(other) ==> !d.sources.contains_key(ip)
                && detector::shard_sources(
                config,
                d.sources,
                detector::shard_of(config, ip),
            ).len() >= detector::shard_cap(config)
        }),
{
}

/// The detector remembers what it just saw, where its caps have a place at all: the source is
/// known afterwards, and a ban is on record.
pub proof fn source_is_remembered(
    config: Config,
    d: DetectorView,
    ip: Seq<u8>,
    s: Signal,
    now: u32,
)
    ensures
        config.max_entries > 0 ==> detector::fed(
            config,
            d,
            ip,
            s,
            now,
        ).0.sources.contains_key(ip),
        config.max_offenders > 0 && detector::fed(config, d, ip, s, now).1 is Ban ==> detector::fed(
            config,
            d,
            ip,
            s,
            now,
        ).0.offenders.contains_key(ip),
{
}

/// Whether the detector's memory is within its caps: no shard holds more sources than its part of
/// the total, and no more offenders are remembered than may be.
pub open spec fn within_caps(config: Config, d: DetectorView) -> bool {
    &&& d.sources.dom().finite()
    &&& forall|ip: Seq<u8>| #[trigger] d.sources.contains_key(ip) ==> ip.len() == 16
    &&& forall|shard: int|
        (#[trigger] detector::shard_sources(config, d.sources, shard)).len()
            <= detector::shard_cap(config)
    &&& d.offenders.dom().finite()
    &&& forall|ip: Seq<u8>| #[trigger] d.offenders.contains_key(ip) ==> ip.len() == 16
    &&& d.offenders.len() <= config.max_offenders
}

/// The sources of the first `n` shards are within their caps together.
proof fn shards_below_bound(config: Config, d: DetectorView, n: int)
    requires
        within_caps(config, d),
        0 <= n <= detector::shard_count(config),
    ensures
        d.sources.dom().filter(|ip: Seq<u8>| detector::shard_of(config, ip) < n).finite(),
        d.sources.dom().filter(|ip: Seq<u8>| detector::shard_of(config, ip) < n).len() <= n
            * detector::shard_cap(config),
    decreases n,
{
    detector::shard_caps(config);
    let cap = detector::shard_cap(config);
    let below = d.sources.dom().filter(|ip: Seq<u8>| detector::shard_of(config, ip) < n);
    d.sources.dom().lemma_len_filter(|ip: Seq<u8>| detector::shard_of(config, ip) < n);
    if n == 0 {
        assert(below =~= Set::empty());
    } else {
        let before = d.sources.dom().filter(
            |ip: Seq<u8>| detector::shard_of(config, ip) < n - 1,
        );
        let here = detector::shard_sources(config, d.sources, n - 1);
        shards_below_bound(config, d, n - 1);
        d.sources.dom().lemma_len_filter(
            |ip: Seq<u8>| detector::shard_of(config, ip) == n - 1,
        );
        assert(here.len() <= cap);
        assert(below =~= before + here);
        vstd::set_lib::lemma_set_disjoint_lens(before, here);
        assert((n - 1) * cap + cap == n * cap) by (nonlinear_arith);
    }
}

/// The shards' caps keep all sources together within the total cap.
pub proof fn shards_bound_the_total(config: Config, d: DetectorView)
    requires
        within_caps(config, d),
    ensures
        d.sources.len() <= config.max_entries,
{
    detector::shard_caps(config);
    let n = detector::shard_count(config);
    shards_below_bound(config, d, n);
    assert(d.sources.dom().filter(|ip: Seq<u8>| detector::shard_of(config, ip) < n)
        =~= d.sources.dom());
}

/// What is evicted is there.
proof fn eldest_is_a_member(dom: Set<Seq<u8>>, stamp: spec_fn(Seq<u8>) -> u32)
    requires
        dom.finite(),
        dom.len() > 0,
        forall|k: Seq<u8>| #[trigger] dom.contains(k) ==> k.len() == 16,
    ensures
        dom.contains(detector::eldest(dom, stamp)),
{
    bytemap::listing_exists(dom, 16);
    bytemap::listing_len(dom);
    let s = detector::sample(dom);
    detector::first_min_range(s.map_values(stamp));
    let i = detector::first_min(s.map_values(stamp));
    assert(dom.contains(bytemap::listing(dom)[i]));
}

/// Whatever the sources do, the detector's memory stays within its caps.
pub proof fn memory_stays_within_caps(
    config: Config,
    d: DetectorView,
    ip: Seq<u8>,
    s: Signal,
    now: u32,
)
    requires
        ip.len() == 16,
        within_caps(config, d),
    ensures
        within_caps(config, detector::fed(config, d, ip, s, now).0),
{
    let after = detector::fed(config, d, ip, s, now).0;
    let home = detector::shard_of(config, ip);
    let cap = detector::shard_cap(config);
    let dom = detector::shard_sources(config, d.sources, home);
    let stamp = |k: Seq<u8>| d.sources[k].last_seen;
    detector::shard_caps(config);
    d.sources.dom().lemma_len_filter(|k: Seq<u8>| detector::shard_of(config, k) == home);
    assert(dom.len() <= cap);
    let full = !d.sources.contains_key(ip) && dom.len() >= cap && config.max_entries > 0;
    if full {
        assert forall|k: Seq<u8>| #[trigger] dom.contains(k) implies k.len() == 16 by {
            assert(d.sources.contains_key(k));
        }
        eldest_is_a_member(dom, stamp);
    }
    assert forall|shard: int|
        (#[trigger] detector::shard_sources(config, after.sources, shard)).len() <= cap by {
        let before = detector::shard_sources(config, d.sources, shard);
        d.sources.dom().lemma_len_filter(|k: Seq<u8>| detector::shard_of(config, k) == shard);
        assert(before.len() <= cap);
        let now_there = detector::shard_sources(config, after.sources, shard);
        if config.max_entries == 0 || shard != home || d.sources.contains_key(ip) {
            assert(now_there =~= before);
        } else if full {
            let victim = detector::eldest(dom, stamp);
            assert(now_there =~= before.remove(victim).insert(ip));
        } else {
            assert(now_there =~= before.insert(ip));
        }
    }
    let by_last = |k: Seq<u8>| d.offenders[k].last;
    if config.max_offenders > 0 && !d.offenders.contains_key(ip) && d.offenders.len()
        >= config.max_offenders {
        assert forall|k: Seq<u8>| #[trigger]
            d.offenders.dom().contains(k) implies k.len() == 16 by {
            assert(d.offenders.contains_key(k));
        }
        eldest_is_a_member(d.offenders.dom(), by_last);
    }
}

} // verus!
