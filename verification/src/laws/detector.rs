//! What holds of the abuse detector: which signals score, and what becomes of the score.

use vstd::prelude::*;

use crate::bytemap;
use crate::l7;
use crate::l7::client;
use crate::l7::client::{ClientView, SeenView};
use crate::l7::detector;
use crate::l7::detector::{DetectorView, Offender, Signal};
use crate::l7::{AnnounceFacts, Config, Verdict};
use crate::text;

verus! {

/// Whether a source announced less than the gap ago.
pub open spec fn announced_recently(config: Config, c: ClientView, now: u32) -> bool {
    match c.last_announce {
        Some(t) => now < t + config.fast_announce_gap && config.fast_announce_gap > 0,
        None => false,
    }
}

/// Whether a remembered announce is of the torrent.
pub open spec fn is_of(s: Option<SeenView>, hash: Seq<u8>) -> bool {
    match s {
        Some(seen) => seen.hash == hash,
        None => false,
    }
}

/// Whether the source remembers an announce of the torrent less than `floor` seconds ago.
pub open spec fn reannounced_within(c: ClientView, hash: Seq<u8>, now: u32, floor: u32) -> bool {
    exists|j: int|
        0 <= j < c.ring.len() && is_of(#[trigger] c.ring[j], hash) && now < c.ring[j]->0.at + floor
            && floor > 0
}

/// Whether a peer id has the prefix of a well-known client.
pub open spec fn has_known_prefix(peer_id: Seq<u8>) -> bool {
    ||| text::begins(peer_id, text::utf8("-qB"@))
    ||| text::begins(peer_id, text::utf8("-TR"@))
    ||| text::begins(peer_id, text::utf8("-LT"@))
    ||| text::begins(peer_id, text::utf8("-lt"@))
    ||| text::begins(peer_id, text::utf8("-DE"@))
    ||| text::begins(peer_id, text::utf8("-UT"@))
    ||| text::begins(peer_id, text::utf8("-UM"@))
    ||| text::begins(peer_id, text::utf8("-AZ"@))
    ||| text::begins(peer_id, text::utf8("-BT"@))
    ||| text::begins(peer_id, text::utf8("-BL"@))
    ||| text::begins(peer_id, text::utf8("-TX"@))
    ||| text::begins(peer_id, text::utf8("-FD"@))
    ||| text::begins(peer_id, text::utf8("-D5"@))
    ||| text::begins(peer_id, text::utf8("-KT"@))
    ||| text::begins(peer_id, text::utf8("-XL"@))
    ||| text::begins(peer_id, text::utf8("-WW"@))
    ||| text::begins(peer_id, text::utf8("M4-"@))
    ||| text::begins(peer_id, text::utf8("M5-"@))
}

/// The well-known clients are told by their prefixes, and no others are.
pub proof fn clients_are_known_by_prefix(peer_id: Seq<u8>)
    ensures
        l7::known_client(peer_id) == has_known_prefix(peer_id),
{
    let ks = l7::KNOWN_CLIENT_PREFIXES@;
    assert(ks.len() == 19);
    assert(ks[0]@ == "-qB"@);
    assert(ks[1]@ == "-TR"@);
    assert(ks[2]@ == "-LT"@);
    assert(ks[3]@ == "-lt"@);
    assert(ks[4]@ == "-DE"@);
    assert(ks[5]@ == "-UT"@);
    assert(ks[6]@ == "-UM"@);
    assert(ks[7]@ == "-AZ"@);
    assert(ks[8]@ == "-BT"@);
    assert(ks[9]@ == "-BL"@);
    assert(ks[10]@ == "-TX"@);
    assert(ks[11]@ == "-FD"@);
    assert(ks[12]@ == "-D5"@);
    assert(ks[13]@ == "-DE"@);
    assert(ks[14]@ == "-KT"@);
    assert(ks[15]@ == "-XL"@);
    assert(ks[16]@ == "-WW"@);
    assert(ks[17]@ == "M4-"@);
    assert(ks[18]@ == "M5-"@);
    if l7::known_client(peer_id) {
        let i = choose|i: int|
            0 <= i < ks.len() && text::begins(peer_id, text::utf8((#[trigger] ks[i])@));
        assert(0 <= i < 19);
    }
}

/// The conditions under which a source announces fast, and repeats or changes itself, as the
/// detector has them.
proof fn conditions_agree(config: Config, c: ClientView, a: AnnounceFacts, now: u32)
    ensures
        detector::is_fast(config, c, now) == announced_recently(config, c, now),
        c.too_soon(a.info_hash, now, config.reannounce_min_interval) == reannounced_within(
            c,
            a.info_hash,
            now,
            config.reannounce_min_interval,
        ),
        c.key_churned(a.info_hash, a.key) == exists|j: int|
            0 <= j < c.ring.len() && is_of(#[trigger] c.ring[j], a.info_hash) && c.ring[j]->0.key
                != a.key,
        c.peer_churned(a.info_hash, client::fingerprint(a.peer_id.subrange(8, 20))) == exists|
            j: int,
        |
            0 <= j < c.ring.len() && is_of(#[trigger] c.ring[j], a.info_hash) && c.ring[j]->0.peer
                != client::fingerprint(a.peer_id.subrange(8, 20)),
{
    let hash = a.info_hash;
    let peer = client::fingerprint(a.peer_id.subrange(8, 20));
    let floor = config.reannounce_min_interval;
    assert forall|j: int| 0 <= j < c.ring.len() implies client::of_torrent(
        #[trigger] c.ring[j],
        hash,
    ) == is_of(c.ring[j], hash) by {}
    if c.too_soon(hash, now, floor) {
        let j = choose|j: int|
            0 <= j < c.ring.len() && client::of_torrent(#[trigger] c.ring[j], hash)
                && client::clamp(now - c.ring[j]->0.at) < floor;
        assert(is_of(c.ring[j], hash));
    }
    if reannounced_within(c, hash, now, floor) {
        let j = choose|j: int|
            0 <= j < c.ring.len() && is_of(#[trigger] c.ring[j], hash) && now < c.ring[j]->0.at
                + floor && floor > 0;
        assert(client::of_torrent(c.ring[j], hash));
    }
    if c.key_churned(hash, a.key) {
        let j = choose|j: int|
            0 <= j < c.ring.len() && client::of_torrent(#[trigger] c.ring[j], hash)
                && c.ring[j]->0.key != a.key;
        assert(is_of(c.ring[j], hash));
    }
    if c.peer_churned(hash, peer) {
        let j = choose|j: int|
            0 <= j < c.ring.len() && client::of_torrent(#[trigger] c.ring[j], hash)
                && c.ring[j]->0.peer != peer;
        assert(is_of(c.ring[j], hash));
    }
}

/// A trivial key, zero or all ones, adds its weight, and no other key does.
pub proof fn trivial_key_adds_its_weight(config: Config, c: ClientView, a: AnnounceFacts, now: u32)
    ensures
        ({
            let fast = announced_recently(config, c, now);
            let without = Config { weight_bad_key: 0, ..config };
            detector::announce_score(config, c, a, now) == detector::announce_score(
                without,
                c,
                a,
                now,
            ) + (if a.key == 0 || a.key == 0xffff_ffff {
                config.weight_bad_key as nat
            } else {
                0
            })
        }),
{
    conditions_agree(config, c, a, now);
    clients_are_known_by_prefix(a.peer_id);
}

/// Another address asked for from public space adds its weight; from private space, or with no
/// address asked for, nothing is added.
pub proof fn declared_address_adds_its_weight(config: Config, c: ClientView, a: AnnounceFacts, now: u32)
    ensures
        ({
            let fast = announced_recently(config, c, now);
            let without = Config { weight_declared_ip: 0, ..config };
            detector::announce_score(config, c, a, now) == detector::announce_score(
                without,
                c,
                a,
                now,
            ) + (if a.declared_ip != 0 && a.source_is_public {
                config.weight_declared_ip as nat
            } else {
                0
            })
        }),
{
    conditions_agree(config, c, a, now);
    clients_are_known_by_prefix(a.peer_id);
}

/// A privileged port adds its weight to a fast announce, and to no other.
pub proof fn privileged_port_adds_its_weight(config: Config, c: ClientView, a: AnnounceFacts, now: u32)
    ensures
        ({
            let fast = announced_recently(config, c, now);
            let without = Config { weight_bad_port: 0, ..config };
            detector::announce_score(config, c, a, now) == detector::announce_score(
                without,
                c,
                a,
                now,
            ) + (if fast && a.port < 1024 {
                config.weight_bad_port as nat
            } else {
                0
            })
        }),
{
    conditions_agree(config, c, a, now);
    clients_are_known_by_prefix(a.peer_id);
}

/// A complete copy with nothing ever transferred adds its weight to a fast announce. Whoever has
/// downloaded or uploaded anything, or has anything left, is no fake seeder.
pub proof fn fake_seeding_adds_its_weight(config: Config, c: ClientView, a: AnnounceFacts, now: u32)
    ensures
        ({
            let fast = announced_recently(config, c, now);
            let without = Config { weight_fake_seeder: 0, ..config };
            detector::announce_score(config, c, a, now) == detector::announce_score(
                without,
                c,
                a,
                now,
            ) + (if fast && a.left == 0 && a.downloaded == 0 && a.uploaded == 0 {
                config.weight_fake_seeder as nat
            } else {
                0
            })
        }),
{
    conditions_agree(config, c, a, now);
    clients_are_known_by_prefix(a.peer_id);
}

/// More peers wanted than the limit add their weight to a fast announce, and to no other.
pub proof fn peer_harvesting_adds_its_weight(config: Config, c: ClientView, a: AnnounceFacts, now: u32)
    ensures
        ({
            let fast = announced_recently(config, c, now);
            let without = Config { weight_numwant: 0, ..config };
            detector::announce_score(config, c, a, now) == detector::announce_score(
                without,
                c,
                a,
                now,
            ) + (if fast && a.num_want > config.numwant_abuse {
                config.weight_numwant as nat
            } else {
                0
            })
        }),
{
    conditions_agree(config, c, a, now);
    clients_are_known_by_prefix(a.peer_id);
}

/// The same torrent announced again within the minimum interval adds its weight; other torrents
/// do not matter.
pub proof fn early_reannounce_adds_its_weight(config: Config, c: ClientView, a: AnnounceFacts, now: u32)
    ensures
        ({
            let fast = announced_recently(config, c, now);
            let without = Config { weight_interval: 0, ..config };
            detector::announce_score(config, c, a, now) == detector::announce_score(
                without,
                c,
                a,
                now,
            ) + (if reannounced_within(c, a.info_hash, now, config.reannounce_min_interval) {
                config.weight_interval as nat
            } else {
                0
            })
        }),
{
    conditions_agree(config, c, a, now);
    clients_are_known_by_prefix(a.peer_id);
}

/// Another key for the same torrent adds its weight; other torrents do not matter.
pub proof fn key_churn_adds_its_weight(config: Config, c: ClientView, a: AnnounceFacts, now: u32)
    ensures
        ({
            let fast = announced_recently(config, c, now);
            let without = Config { weight_key_churn: 0, ..config };
            detector::announce_score(config, c, a, now) == detector::announce_score(
                without,
                c,
                a,
                now,
            ) + (if exists|j: int|
                0 <= j < c.ring.len() && is_of(#[trigger] c.ring[j], a.info_hash) && c.ring[j]->0.key
                    != a.key {
                config.weight_key_churn as nat
            } else {
                0
            })
        }),
{
    conditions_agree(config, c, a, now);
    clients_are_known_by_prefix(a.peer_id);
}

/// Another peer id for the same torrent adds its weight; other torrents do not matter.
pub proof fn peer_id_churn_adds_its_weight(config: Config, c: ClientView, a: AnnounceFacts, now: u32)
    ensures
        ({
            let fast = announced_recently(config, c, now);
            let without = Config { weight_peerid_churn: 0, ..config };
            detector::announce_score(config, c, a, now) == detector::announce_score(
                without,
                c,
                a,
                now,
            ) + (if exists|j: int|
                0 <= j < c.ring.len() && is_of(#[trigger] c.ring[j], a.info_hash) && c.ring[j]->0.peer
                    != client::fingerprint(a.peer_id.subrange(8, 20)) {
                config.weight_peerid_churn as nat
            } else {
                0
            })
        }),
{
    conditions_agree(config, c, a, now);
    clients_are_known_by_prefix(a.peer_id);
}

/// A peer id of no well-known client adds its weight.
pub proof fn unknown_client_adds_its_weight(config: Config, c: ClientView, a: AnnounceFacts, now: u32)
    ensures
        ({
            let fast = announced_recently(config, c, now);
            let without = Config { weight_peerid: 0, ..config };
            detector::announce_score(config, c, a, now) == detector::announce_score(
                without,
                c,
                a,
                now,
            ) + (if !has_known_prefix(a.peer_id) {
                config.weight_peerid as nat
            } else {
                0
            })
        }),
{
    conditions_agree(config, c, a, now);
    clients_are_known_by_prefix(a.peer_id);
}

/// A fast announce into an empty swarm adds its weight once the run of such announces is past the
/// threshold.
pub proof fn empty_swarm_adds_its_weight(config: Config, c: ClientView, a: AnnounceFacts, now: u32)
    ensures
        ({
            let fast = announced_recently(config, c, now);
            let without = Config { weight_empty_swarm: 0, ..config };
            detector::announce_score(config, c, a, now) == detector::announce_score(
                without,
                c,
                a,
                now,
            ) + (if fast && a.swarm_peers <= 1 && c.empty_swarms >= config.empty_swarm_threshold
                && config.empty_swarm_threshold < u32::MAX {
                config.weight_empty_swarm as nat
            } else {
                0
            })
        }),
{
    conditions_agree(config, c, a, now);
    clients_are_known_by_prefix(a.peer_id);
}

/// A fast announce adds its weight once the source has touched as many torrents as the threshold,
/// this one counted.
pub proof fn breadth_adds_its_weight(config: Config, c: ClientView, a: AnnounceFacts, now: u32)
    ensures
        ({
            let fast = announced_recently(config, c, now);
            let without = Config { weight_breadth: 0, ..config };
            detector::announce_score(config, c, a, now) == detector::announce_score(
                without,
                c,
                a,
                now,
            ) + (if fast && client::ones(
                (c.breadth | (1u64 << client::breadth_bucket(a.info_hash))) as nat,
            ) >= config.breadth_threshold {
                config.weight_breadth as nat
            } else {
                0
            })
        }),
{
    conditions_agree(config, c, a, now);
    clients_are_known_by_prefix(a.peer_id);
}

/// Nothing but these signals scores.
pub proof fn nothing_else_scores(config: Config, c: ClientView, a: AnnounceFacts, now: u32)
    requires
        config.weight_bad_key == 0,
        config.weight_declared_ip == 0,
        config.weight_bad_port == 0,
        config.weight_fake_seeder == 0,
        config.weight_numwant == 0,
        config.weight_interval == 0,
        config.weight_key_churn == 0,
        config.weight_peerid_churn == 0,
        config.weight_peerid == 0,
        config.weight_empty_swarm == 0,
        config.weight_breadth == 0,
    ensures
        detector::announce_score(config, c, a, now) == 0,
{
}

/// A fast announce with nothing wrong in it scores nothing: a real key, no address asked for, an
/// ordinary port, a modest wish for peers, something left or something transferred, a known client
/// that keeps its interval and its identity, a swarm with others in it, and few torrents. The
/// same announce with nothing left and nothing transferred scores as a fake seeder, exactly.
pub proof fn clean_announce_scores_nothing(
    config: Config,
    c: ClientView,
    a: AnnounceFacts,
    now: u32,
)
    requires
        a.key != 0,
        a.key != 0xffff_ffff,
        a.declared_ip == 0,
        a.port >= 1024,
        a.num_want <= config.numwant_abuse,
        has_known_prefix(a.peer_id),
        a.swarm_peers > 1,
        !reannounced_within(c, a.info_hash, now, config.reannounce_min_interval),
        forall|j: int|
            0 <= j < c.ring.len() && is_of(#[trigger] c.ring[j], a.info_hash) ==> c.ring[j]->0.key
                == a.key && c.ring[j]->0.peer == client::fingerprint(a.peer_id.subrange(8, 20)),
        client::ones((c.breadth | (1u64 << client::breadth_bucket(a.info_hash))) as nat)
            < config.breadth_threshold,
    ensures
        a.left > 0 || a.downloaded > 0 || a.uploaded > 0 ==> detector::announce_score(
            config,
            c,
            a,
            now,
        ) == 0,
        a.left == 0 && a.downloaded == 0 && a.uploaded == 0 && announced_recently(config, c, now)
            ==> detector::announce_score(config, c, a, now) == config.weight_fake_seeder,
        !announced_recently(config, c, now) ==> detector::announce_score(config, c, a, now) == 0,
{
    conditions_agree(config, c, a, now);
    clients_are_known_by_prefix(a.peer_id);
}

/// What an announce leaves of a source: its score plus what the announce adds, kept in 32 bits; no
/// unused connection ids; when it announced; and the announce itself, in place of the oldest one
/// remembered. A fast announce into an empty swarm lengthens the run of those, any other ends it;
/// only a fast one touches the breadth. Nothing else changes.
pub proof fn announce_is_remembered(
    config: Config,
    c: ClientView,
    a: AnnounceFacts,
    now: u32,
    j: int,
)
    requires
        0 <= c.ring_pos < c.ring.len(),
        c.ring.len() == 8,
    ensures
        ({
            let after = detector::scored(config, c, Signal::Announce(a), now);
            let add = detector::announce_score(config, c, a, now);
            let fast = announced_recently(config, c, now);
            &&& c.score + add <= u32::MAX ==> after.score == c.score + add
            &&& c.score + add > u32::MAX ==> after.score == u32::MAX
            &&& after.connects == 0
            &&& after.last_announce == Some(now)
            &&& fast && a.swarm_peers <= 1 && c.empty_swarms < u32::MAX ==> after.empty_swarms
                == c.empty_swarms + 1
            &&& !(fast && a.swarm_peers <= 1) ==> after.empty_swarms == 0
            &&& fast ==> after.breadth == c.breadth | (1u64 << client::breadth_bucket(a.info_hash))
            &&& !fast ==> after.breadth == c.breadth
            &&& after.ring.len() == 8
            &&& after.ring[c.ring_pos] == Some(
                SeenView {
                    hash: a.info_hash,
                    at: now,
                    key: a.key,
                    peer: client::fingerprint(a.peer_id.subrange(8, 20)),
                },
            )
            &&& 0 <= j < 8 && j != c.ring_pos ==> after.ring[j] == c.ring[j]
            &&& after.ring_pos == (if c.ring_pos == 7 {
                0
            } else {
                c.ring_pos + 1
            })
            &&& after.last_seen == c.last_seen
            &&& after.decay_at == c.decay_at
            &&& after.banned_until == c.banned_until
        }),
{
    conditions_agree(config, c, a, now);
}

/// A connection id that fails adds its weight, and changes nothing else.
pub proof fn failed_id_adds_its_weight(config: Config, c: ClientView, now: u32)
    requires
        c.score + config.weight_connid <= u32::MAX,
    ensures
        detector::scored(config, c, Signal::ConnidMismatch, now) == (ClientView {
            score: (c.score + config.weight_connid) as u32,
            ..c
        }),
{
}

/// A scrape adds its weight if it asks for at least as many torrents as the threshold, uses up the
/// connection ids, and changes nothing else.
pub proof fn bulk_scrape_adds_its_weight(config: Config, c: ClientView, hashes: nat, now: u32)
    requires
        c.score + config.weight_scrape_volume <= u32::MAX,
    ensures
        hashes >= config.scrape_volume_threshold ==> detector::scored(
            config,
            c,
            Signal::Scrape(hashes),
            now,
        ) == (ClientView {
            score: (c.score + config.weight_scrape_volume) as u32,
            connects: 0,
            ..c
        }),
        hashes < config.scrape_volume_threshold ==> detector::scored(
            config,
            c,
            Signal::Scrape(hashes),
            now,
        ) == (ClientView { connects: 0, ..c }),
{
}

/// A connect is one more unused connection id, and adds its weight once there are more of them
/// than are tolerated.
pub proof fn connect_spam_adds_its_weight(config: Config, c: ClientView, now: u32)
    requires
        c.score + config.weight_connect_spam <= u32::MAX,
        c.connects < u32::MAX,
    ensures
        c.connects + 1 > config.connect_burst ==> detector::scored(
            config,
            c,
            Signal::Connect,
            now,
        ) == (ClientView {
            score: (c.score + config.weight_connect_spam) as u32,
            connects: (c.connects + 1) as u32,
            ..c
        }),
        c.connects + 1 <= config.connect_burst ==> detector::scored(
            config,
            c,
            Signal::Connect,
            now,
        ) == (ClientView { connects: (c.connects + 1) as u32, ..c }),
{
}

/// A score never wraps: what does not fit stays at the largest score.
pub proof fn scores_saturate(config: Config, c: ClientView, s: Signal, now: u32)
    ensures
        detector::scored(config, c, s, now).score >= c.score,
{
}

/// A source seen `n` whole decay intervals after its anchor has lost `n` times the amount, but is
/// never below zero; its anchor has moved by those intervals, so that the rest of the last one
/// still counts. Nothing else changes but when it was last seen.
pub proof fn score_decays_by_whole_intervals(
    c: ClientView,
    now: u32,
    amount: u32,
    interval: u32,
    n: nat,
)
    requires
        interval > 0,
        c.decay_at + n * interval <= now,
        now < c.decay_at + n * interval + interval,
    ensures
        ({
            let after = c.decayed(now, amount, interval);
            &&& c.score >= n * amount ==> after.score == c.score - n * amount
            &&& c.score < n * amount ==> after.score == 0
            &&& after.decay_at == c.decay_at + n * interval
            &&& after.last_seen == now
            &&& after.banned_until == c.banned_until
            &&& after.last_announce == c.last_announce
            &&& after.breadth == c.breadth
            &&& after.connects == c.connects
            &&& after.empty_swarms == c.empty_swarms
            &&& after.ring == c.ring
            &&& after.ring_pos == c.ring_pos
        }),
{
    let silent = now - c.decay_at;
    let i = interval as int;
    assert(n * i >= 0) by (nonlinear_arith)
        requires
            n >= 0,
            i > 0,
    ;
    assert(silent == n * i + (silent - n * i));
    vstd::arithmetic::div_mod::lemma_fundamental_div_mod_converse(
        silent,
        i,
        n as int,
        silent - n * i,
    );
    assert(client::decay_steps(c, now, interval) == n);
    assert(n * amount >= 0) by (nonlinear_arith)
        requires
            n >= 0,
            amount >= 0,
    ;
}

/// A source that is not known starts with nothing against it.
pub proof fn stranger_starts_clean(config: Config, d: DetectorView, ip: Seq<u8>, now: u32)
    requires
        !d.sources.contains_key(ip),
    ensures
        ({
            let c = detector::client_for(config, d.sources, ip, now);
            &&& c.score == 0
            &&& c.connects == 0
            &&& c.empty_swarms == 0
            &&& c.breadth == 0
            &&& c.banned_until == 0
            &&& c.last_announce is None
            &&& c.last_seen == now
            &&& c.decay_at == now
            &&& forall|j: int| 0 <= j < c.ring.len() ==> (#[trigger] c.ring[j]) is None
            &&& c.ring.len() == 8
        }),
{
}

/// A source is banned exactly if its score has reached the threshold and no ban of it is running.
/// The ban is for the configured duration and at the tier of its record; it is put on record, and
/// further bans are held off for the cooldown. Where it is not banned, no record changes.
pub proof fn ban_goes_by_score_and_time(
    config: Config,
    d: DetectorView,
    ip: Seq<u8>,
    s: Signal,
    now: u32,
)
    ensures
        ({
            let c = detector::judged(config, d, ip, s, now);
            let (after, verdict) = detector::fed(config, d, ip, s, now);
            let times = if d.offenders.contains_key(ip) {
                d.offenders[ip].offenses as int
            } else {
                0
            };
            &&& verdict is Ban <==> c.score >= config.score_ban_threshold && now >= c.banned_until
            &&& verdict matches Verdict::Ban { duration, tier } ==> {
                &&& duration == config.ban_duration
                &&& times < config.ban_tiers && times < u32::MAX ==> tier == times
                &&& times >= config.ban_tiers && config.ban_tiers > 0 ==> tier == config.ban_tiers
                    - 1
                &&& config.ban_tiers == 0 ==> tier == 0
                &&& config.max_offenders > 0 && times < u32::MAX ==> after.offenders.contains_key(
                    ip,
                ) && after.offenders[ip].offenses == times + 1 && after.offenders[ip].last == now
                &&& config.max_entries > 0 && now + config.reban_cooldown <= u32::MAX
                    ==> after.sources[ip].banned_until == now + config.reban_cooldown
            }
            &&& verdict is Allow ==> after.offenders == d.offenders
            &&& config.max_entries > 0 ==> after.sources.contains_key(ip)
                && after.sources[ip].score == c.score
            &&& config.max_entries > 0 && verdict is Allow ==> after.sources[ip] == c
        }),
{
}

/// Ages of which one is least.
proof fn first_min_is_least(ages: Seq<u32>, i: int)
    requires
        0 <= i < ages.len(),
    ensures
        0 <= detector::first_min(ages) < ages.len(),
        ages[detector::first_min(ages)] <= ages[i],
        i < detector::first_min(ages) ==> ages[detector::first_min(ages)] < ages[i],
    decreases ages.len(),
{
    if ages.len() > 1 {
        let before = ages.drop_last();
        if i < before.len() {
            first_min_is_least(before, i);
            assert(before[i] == ages[i]);
        } else {
            first_min_is_least(before, 0);
        }
        let m = detector::first_min(before);
        assert(before[m] == ages[m]);
    }
}

/// Who makes room is one of those looked at, at most eight, and none of these is older; of equally
/// old ones it is the first.
pub proof fn oldest_makes_room(dom: Set<Seq<u8>>, stamp: spec_fn(Seq<u8>) -> u32, i: int)
    requires
        dom.finite(),
        dom.len() > 0,
        forall|k: Seq<u8>| #[trigger] dom.contains(k) ==> k.len() == 16,
        0 <= i < detector::sample(dom).len(),
    ensures
        dom.contains(detector::eldest(dom, stamp)),
        stamp(detector::eldest(dom, stamp)) <= stamp(detector::sample(dom)[i]),
        exists|m: int|
            0 <= m < detector::sample(dom).len() && #[trigger] detector::sample(dom)[m]
                == detector::eldest(dom, stamp) && (i < m ==> stamp(detector::eldest(dom, stamp))
                < stamp(detector::sample(dom)[i])),
        dom.contains(detector::sample(dom)[i]),
        detector::sample(dom).len() == (if dom.len() <= 8 {
            dom.len()
        } else {
            8
        }),
{
    bytemap::listing_exists(dom, 16);
    bytemap::listing_len(dom);
    let looked = detector::sample(dom);
    let ages = looked.map_values(stamp);
    first_min_is_least(ages, i);
    let m = detector::first_min(ages);
    assert(ages[m] == stamp(looked[m]) && ages[i] == stamp(looked[i]));
    assert(dom.contains(bytemap::listing(dom)[m]));
    assert(dom.contains(bytemap::listing(dom)[i]));
}

/// Sources are spread over sixteen shards by the last byte of their address, and share the room
/// among them evenly. With room for fewer there are as many shards, of one place each.
pub proof fn sources_are_spread_by_last_byte(config: Config, ip: Seq<u8>)
    requires
        ip.len() == 16,
    ensures
        config.max_entries >= 16 ==> detector::shard_of(config, ip) == ip[15] % 16
            && detector::shard_cap(config) == config.max_entries / 16,
        0 < config.max_entries < 16 ==> detector::shard_of(config, ip) == ip[15] as int
            % config.max_entries as int && detector::shard_cap(config) == 1,
{
    if 0 < config.max_entries < 16 {
        vstd::arithmetic::div_mod::lemma_div_by_self(config.max_entries as int);
    }
}

/// A full detector makes room for a new source by dropping the one of its shard that was longest
/// unseen of those looked at; a known source drops nobody.
pub proof fn new_source_takes_the_oldest_place(
    config: Config,
    sources: Map<Seq<u8>, ClientView>,
    ip: Seq<u8>,
    i: int,
)
    requires
        sources.dom().finite(),
        forall|k: Seq<u8>| #[trigger] sources.contains_key(k) ==> k.len() == 16,
        ({
            let dom = detector::shard_sources(config, sources, detector::shard_of(config, ip));
            &&& dom.len() >= detector::shard_cap(config)
            &&& dom.len() > 0
            &&& 0 <= i < detector::sample(dom).len()
        }),
    ensures
        sources.contains_key(ip) ==> detector::with_room(config, sources, ip) == sources,
        !sources.contains_key(ip) ==> ({
            let dom = detector::shard_sources(config, sources, detector::shard_of(config, ip));
            let room = detector::with_room(config, sources, ip);
            exists|gone: Seq<u8>| #[trigger]
                dom.contains(gone) && room == sources.remove(gone) && sources[gone].last_seen
                    <= sources[detector::sample(dom)[i]].last_seen
        }),
{
    let dom = detector::shard_sources(config, sources, detector::shard_of(config, ip));
    let stamp = |k: Seq<u8>| sources[k].last_seen;
    sources.dom().lemma_len_filter(
        |k: Seq<u8>| detector::shard_of(config, k) == detector::shard_of(config, ip),
    );
    assert forall|k: Seq<u8>| #[trigger] dom.contains(k) implies k.len() == 16 by {
        assert(sources.contains_key(k));
    }
    oldest_makes_room(dom, stamp, i);
    assert(dom.contains(detector::eldest(dom, stamp)));
}

/// A full registry makes room for a new offender by dropping the one whose last offence is longest
/// past of those looked at; a known offender drops nobody.
pub proof fn new_offender_takes_the_oldest_place(
    config: Config,
    offenders: Map<Seq<u8>, Offender>,
    ip: Seq<u8>,
    i: int,
)
    requires
        offenders.dom().finite(),
        forall|k: Seq<u8>| #[trigger] offenders.contains_key(k) ==> k.len() == 16,
        offenders.len() > 0,
        0 <= i < detector::sample(offenders.dom()).len(),
    ensures
        offenders.contains_key(ip) || offenders.len() < config.max_offenders
            ==> detector::offender_room(config, offenders, ip) == offenders,
        !offenders.contains_key(ip) && offenders.len() >= config.max_offenders ==> exists|
            gone: Seq<u8>,
        | #[trigger]
            offenders.contains_key(gone) && detector::offender_room(config, offenders, ip)
                == offenders.remove(gone) && offenders[gone].last <= offenders[detector::sample(
                offenders.dom(),
            )[i]].last,
{
    let stamp = |k: Seq<u8>| offenders[k].last;
    assert forall|k: Seq<u8>| #[trigger] offenders.dom().contains(k) implies k.len() == 16 by {
        assert(offenders.contains_key(k));
    }
    oldest_makes_room(offenders.dom(), stamp, i);
    assert(offenders.contains_key(detector::eldest(offenders.dom(), stamp)));
}

/// The number of set bits: none of zero; twice a number has as many as the number, and one more
/// makes one more.
pub proof fn bits_are_counted(n: nat)
    ensures
        client::ones(0) == 0,
        client::ones(2 * n) == client::ones(n),
        client::ones(2 * n + 1) == client::ones(n) + 1,
{
    reveal_with_fuel(client::ones, 2);
    assert((2 * n) / 2 == n && (2 * n) % 2 == 0);
    assert((2 * n + 1) / 2 == n && (2 * n + 1) % 2 == 1);
}

/// The fingerprint of a peer id takes in every byte: one byte more is base 31 in 32 bits.
pub proof fn fingerprint_takes_every_byte(s: Seq<u8>, b: u8)
    ensures
        client::fingerprint(Seq::empty()) == 0,
        client::fingerprint(s.push(b)) == (client::fingerprint(s) * 31 + b) % 0x1_0000_0000,
{
    assert(s.push(b).drop_last() =~= s);
}

/// Two peer ids that differ in one of their last twelve bytes only are told apart.
pub proof fn last_byte_tells_apart(s: Seq<u8>, a: u8, b: u8)
    requires
        a != b,
    ensures
        client::fingerprint(s.push(a)) != client::fingerprint(s.push(b)),
{
    fingerprint_takes_every_byte(s, a);
    fingerprint_takes_every_byte(s, b);
    let x = client::fingerprint(s) * 31;
    if (x + a) % 0x1_0000_0000 == (x + b) % 0x1_0000_0000 {
        vstd::arithmetic::div_mod::lemma_fundamental_div_mod(x + a, 0x1_0000_0000);
        vstd::arithmetic::div_mod::lemma_fundamental_div_mod(x + b, 0x1_0000_0000);
    }
}

/// The breadth bucket of a torrent is one of 64, and goes by the first eight bytes of its hash: the
/// top six bits of their product, least byte first, with the golden ratio.
pub proof fn bucket_is_the_top_of_a_product(hash: Seq<u8>, other: Seq<u8>)
    requires
        hash.len() == 20,
        other.len() == 20,
        hash.take(8) == other.take(8),
    ensures
        client::breadth_bucket(hash) == client::breadth_bucket(other),
        client::breadth_bucket(hash) < 64,
        ({
            let product = crate::wire::be_nat(hash.take(8).reverse()) * 0x9E37_79B9_7F4A_7C15
                % 0x1_0000_0000_0000_0000;
            client::breadth_bucket(hash) * 0x400_0000_0000_0000 <= product
                && product < (client::breadth_bucket(hash) + 1) * 0x400_0000_0000_0000
        }),
{
}

/// The tunables' defaults.
pub proof fn default_tunables()
    ensures
        ({
            let c = l7::default_config();
            &&& c.reannounce_min_interval == 60 && c.score_ban_threshold == 100 && c.ban_duration
                == 3600 && c.max_entries == 1_000_000
            &&& c.weight_interval == 20 && c.weight_connid == 15 && c.weight_peerid == 5
            &&& c.decay_amount == 1 && c.decay_interval == 60
            &&& c.weight_bad_key == 40 && c.weight_declared_ip == 60 && c.weight_bad_port == 30
                && c.weight_fake_seeder == 50
            &&& c.weight_key_churn == 35 && c.weight_peerid_churn == 35 && c.weight_numwant == 10
                && c.numwant_abuse == 100
            &&& c.weight_breadth == 60 && c.breadth_threshold == 32 && c.weight_empty_swarm == 40
                && c.empty_swarm_threshold == 8
            &&& c.weight_scrape_volume == 15 && c.scrape_volume_threshold == 32
            &&& c.weight_connect_spam == 25 && c.connect_burst == 8
            &&& c.max_offenders == 5_000_000 && c.ban_tiers == 4 && c.reban_cooldown == 3600
                && c.fast_announce_gap == 300
        }),
{
}

} // verus!
