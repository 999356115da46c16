//! What holds of the detector over whole histories of events.

use vstd::prelude::*;

use crate::l7;
use crate::l7::client;
use crate::l7::client::{ClientView, SeenView};
use crate::l7::detector;
use crate::l7::detector::{DetectorView, Offender, Signal};
use crate::l7::laws;
use crate::l7::{AnnounceFacts, Config, Verdict};

verus! {

/// Something that a source did, and when.
#[verifier::ext_equal]
pub struct Happening {
    pub ip: Seq<u8>,
    pub signal: Signal,
    pub at: u32,
}

/// What a new detector remembers after a history.
pub open spec fn after(config: Config, hs: Seq<Happening>) -> DetectorView
    decreases hs.len(),
{
    if hs.len() == 0 {
        DetectorView { sources: Map::empty(), offenders: Map::empty() }
    } else {
        let h = hs.last();
        detector::fed(config, after(config, hs.drop_last()), h.ip, h.signal, h.at).0
    }
}

/// The verdict on one event of a history.
pub open spec fn verdict(config: Config, hs: Seq<Happening>, i: int) -> Verdict {
    detector::fed(config, after(config, hs.take(i)), hs[i].ip, hs[i].signal, hs[i].at).1
}

/// The source of an event as the detector takes it when the event comes.
pub open spec fn source_at(config: Config, hs: Seq<Happening>, i: int) -> ClientView {
    detector::client_for(config, after(config, hs.take(i)).sources, hs[i].ip, hs[i].at)
}

/// One event more.
proof fn after_step(config: Config, hs: Seq<Happening>, n: int)
    requires
        0 <= n < hs.len(),
    ensures
        after(config, hs.take(n + 1)) == detector::fed(
            config,
            after(config, hs.take(n)),
            hs[n].ip,
            hs[n].signal,
            hs[n].at,
        ).0,
{
    assert(hs.take(n + 1).drop_last() =~= hs.take(n));
    assert(hs.take(n + 1).last() == hs[n]);
}

/// Whatever the sources do, and however many there are, the detector stays within its caps.
pub proof fn memory_is_capped(config: Config, hs: Seq<Happening>)
    requires
        forall|i: int| 0 <= i < hs.len() ==> (#[trigger] hs[i]).ip.len() == 16,
    ensures
        laws::within_caps(config, after(config, hs)),
        after(config, hs).sources.len() <= config.max_entries,
        after(config, hs).offenders.len() <= config.max_offenders,
    decreases hs.len(),
{
    detector::shard_caps(config);
    let d = after(config, hs);
    if hs.len() > 0 {
        let before = hs.drop_last();
        assert forall|i: int| 0 <= i < before.len() implies (#[trigger] before[i]).ip.len()
            == 16 by {
            assert(before[i] == hs[i]);
        }
        memory_is_capped(config, before);
        let h = hs.last();
        laws::memory_stays_within_caps(config, after(config, before), h.ip, h.signal, h.at);
    } else {
        assert forall|shard: int|
            (#[trigger] detector::shard_sources(config, d.sources, shard)).len()
                <= detector::shard_cap(config) by {
            assert(detector::shard_sources(config, d.sources, shard) =~= Set::empty());
        }
    }
    laws::shards_bound_the_total(config, d);
}

/// The sources that were ever banned.
pub open spec fn banned(config: Config, hs: Seq<Happening>) -> Set<Seq<u8>>
    decreases hs.len(),
{
    if hs.len() == 0 {
        Set::empty()
    } else if verdict(config, hs, hs.len() - 1) is Ban {
        banned(config, hs.drop_last()).insert(hs.last().ip)
    } else {
        banned(config, hs.drop_last())
    }
}

/// Only sources that were banned are remembered as offenders, each once.
pub proof fn offenders_were_banned(config: Config, hs: Seq<Happening>)
    ensures
        banned(config, hs).finite(),
        after(config, hs).offenders.dom().subset_of(banned(config, hs)),
        after(config, hs).offenders.len() <= banned(config, hs).len(),
    decreases hs.len(),
{
    if hs.len() > 0 {
        offenders_were_banned(config, hs.drop_last());
        assert(hs.take(hs.len() - 1) =~= hs.drop_last());
    }
    vstd::set_lib::lemma_len_subset(after(config, hs).offenders.dom(), banned(config, hs));
}

/// Whether an event is an announce of a source.
pub open spec fn announces(h: Happening, ip: Seq<u8>) -> bool {
    h.ip == ip && h.signal is Announce
}

/// Whether a source announces no faster than the gap: each of its announces comes at least that
/// long after those before, whatever else it sends in between.
pub open spec fn is_slow(config: Config, hs: Seq<Happening>, ip: Seq<u8>) -> bool {
    forall|i: int, j: int|
        0 <= i < j < hs.len() && #[trigger] announces(hs[i], ip) && #[trigger] announces(hs[j], ip)
            ==> hs[j].at >= hs[i].at + config.fast_announce_gap
}

/// When a source is held to have announced last, it did.
proof fn last_announce_is_on_record(config: Config, hs: Seq<Happening>, n: int, ip: Seq<u8>)
    requires
        0 <= n <= hs.len(),
    ensures
        ({
            let sources = after(config, hs.take(n)).sources;
            sources.contains_key(ip) && sources[ip].last_announce is Some ==> exists|i: int|
                0 <= i < n && #[trigger] announces(hs[i], ip) && hs[i].at
                    == sources[ip].last_announce->0
        }),
    decreases n,
{
    if n > 0 {
        last_announce_is_on_record(config, hs, n - 1, ip);
        after_step(config, hs, n - 1);
        let before = after(config, hs.take(n - 1)).sources;
        let sources = after(config, hs.take(n)).sources;
        if sources.contains_key(ip) && sources[ip].last_announce is Some {
            if announces(hs[n - 1], ip) && sources[ip].last_announce == Some(hs[n - 1].at) {
            } else {
                assert(before.contains_key(ip));
                assert(before[ip].last_announce == sources[ip].last_announce);
                let i = choose|i: int|
                    0 <= i < n - 1 && #[trigger] announces(hs[i], ip) && hs[i].at
                        == before[ip].last_announce->0;
                assert(announces(hs[i], ip));
            }
        }
    }
}

/// A source that announces no faster than the gap is never scored for its behaviour: its connects,
/// scrapes and mismatches do not make its announces fast.
pub proof fn slow_source_is_never_scored_for_behaviour(
    config: Config,
    hs: Seq<Happening>,
    i: int,
    ip: Seq<u8>,
)
    requires
        0 <= i < hs.len(),
        announces(hs[i], ip),
        is_slow(config, hs, ip),
    ensures
        !detector::is_fast(config, source_at(config, hs, i), hs[i].at),
        detector::announce_score(
            config,
            source_at(config, hs, i),
            hs[i].signal->Announce_0,
            hs[i].at,
        ) == laws::identity_score(
            config,
            source_at(config, hs, i),
            hs[i].signal->Announce_0,
            hs[i].at,
        ),
{
    last_announce_is_on_record(config, hs, i, ip);
    laws::slow_source_is_not_scored_for_behaviour(
        config,
        source_at(config, hs, i),
        hs[i].signal->Announce_0,
        hs[i].at,
    );
}

/// Whether two announces differ at most in what only behaviour is scored by: port, progress,
/// appetite for peers and the swarm.
pub open spec fn same_identity(a: AnnounceFacts, b: AnnounceFacts) -> bool {
    b == AnnounceFacts {
        port: b.port,
        left: b.left,
        downloaded: b.downloaded,
        uploaded: b.uploaded,
        num_want: b.num_want,
        swarm_peers: b.swarm_peers,
        ..a
    }
}

/// Whether two events are of one source at one time and differ at most in behaviour.
pub open spec fn alike(g: Happening, h: Happening) -> bool {
    &&& g.ip == h.ip
    &&& g.at == h.at
    &&& match (g.signal, h.signal) {
        (Signal::Announce(a), Signal::Announce(b)) => same_identity(a, b),
        _ => g.signal == h.signal,
    }
}

/// Of a slow source, two events that differ at most in behaviour are the same to the detector.
proof fn slow_step_is_blind(config: Config, d: DetectorView, g: Happening, h: Happening)
    requires
        alike(g, h),
        g.signal is Announce ==> !detector::is_fast(
            config,
            detector::client_for(config, d.sources, g.ip, g.at),
            g.at,
        ),
    ensures
        detector::fed(config, d, g.ip, g.signal, g.at) == detector::fed(
            config,
            d,
            h.ip,
            h.signal,
            h.at,
        ),
{
    let c = detector::client_for(config, d.sources, g.ip, g.at);
    if let (Signal::Announce(a), Signal::Announce(b)) = (g.signal, h.signal) {
        laws::slow_source_is_not_scored_for_behaviour(config, c, a, g.at);
        laws::slow_source_is_not_scored_for_behaviour(config, c, b, g.at);
        assert(laws::identity_score(config, c, a, g.at) == laws::identity_score(
            config,
            c,
            b,
            g.at,
        ));
        assert(detector::scored(config, c, g.signal, g.at) =~= detector::scored(
            config,
            c,
            h.signal,
            g.at,
        ));
    }
}

/// Two histories of slow sources that differ only in behaviour get the same verdicts, and leave
/// the detector with the same memory.
pub proof fn slow_histories_are_judged_alike(
    config: Config,
    gs: Seq<Happening>,
    hs: Seq<Happening>,
)
    requires
        gs.len() == hs.len(),
        forall|i: int| 0 <= i < gs.len() ==> alike(#[trigger] gs[i], hs[i]),
        forall|ip: Seq<u8>| #[trigger] is_slow(config, gs, ip),
    ensures
        after(config, gs) == after(config, hs),
        forall|i: int|
            0 <= i < gs.len() ==> #[trigger] verdict(config, gs, i) == verdict(config, hs, i),
{
    slow_prefixes_agree(config, gs, hs, gs.len() as int);
    assert(gs.take(gs.len() as int) =~= gs);
    assert(hs.take(hs.len() as int) =~= hs);
    assert forall|i: int| 0 <= i < gs.len() implies #[trigger] verdict(config, gs, i) == verdict(
        config,
        hs,
        i,
    ) by {
        slow_prefixes_agree(config, gs, hs, i);
        slow_event_agrees(config, gs, hs, i);
    }
}

/// The next event of two such histories is the same to the detector.
proof fn slow_event_agrees(config: Config, gs: Seq<Happening>, hs: Seq<Happening>, i: int)
    requires
        gs.len() == hs.len(),
        0 <= i < gs.len(),
        alike(gs[i], hs[i]),
        is_slow(config, gs, gs[i].ip),
        after(config, gs.take(i)) == after(config, hs.take(i)),
    ensures
        detector::fed(config, after(config, gs.take(i)), gs[i].ip, gs[i].signal, gs[i].at)
            == detector::fed(config, after(config, hs.take(i)), hs[i].ip, hs[i].signal, hs[i].at),
{
    if gs[i].signal is Announce {
        slow_source_is_never_scored_for_behaviour(config, gs, i, gs[i].ip);
    }
    slow_step_is_blind(config, after(config, gs.take(i)), gs[i], hs[i]);
}

/// Up to any event, two such histories leave the detector with the same memory.
proof fn slow_prefixes_agree(config: Config, gs: Seq<Happening>, hs: Seq<Happening>, n: int)
    requires
        gs.len() == hs.len(),
        0 <= n <= gs.len(),
        forall|i: int| 0 <= i < gs.len() ==> alike(#[trigger] gs[i], hs[i]),
        forall|ip: Seq<u8>| #[trigger] is_slow(config, gs, ip),
    ensures
        after(config, gs.take(n)) == after(config, hs.take(n)),
    decreases n,
{
    if n > 0 {
        slow_prefixes_agree(config, gs, hs, n - 1);
        assert(alike(gs[n - 1], hs[n - 1]));
        assert(is_slow(config, gs, gs[n - 1].ip));
        slow_event_agrees(config, gs, hs, n - 1);
        after_step(config, gs, n - 1);
        after_step(config, hs, n - 1);
    }
}

/// Connection ids that a source was issued and has not used yet.
pub open spec fn unused_ids(hs: Seq<Happening>, ip: Seq<u8>) -> nat
    decreases hs.len(),
{
    if hs.len() == 0 {
        0
    } else if hs.last().ip != ip {
        unused_ids(hs.drop_last(), ip)
    } else {
        match hs.last().signal {
            Signal::Announce(_) => 0,
            Signal::Scrape(_) => 0,
            Signal::ConnidMismatch => unused_ids(hs.drop_last(), ip),
            Signal::Connect => unused_ids(hs.drop_last(), ip) + 1,
        }
    }
}

/// Whether nothing in an event gives its source away: a known client with a real key, listed
/// under its own address, that scrapes a few torrents at most and keeps to its connection id.
pub open spec fn is_harmless(config: Config, s: Signal) -> bool {
    match s {
        Signal::Announce(a) => {
            &&& a.key != 0
            &&& a.key != u32::MAX
            &&& a.declared_ip == 0 || !a.source_is_public
            &&& l7::known_client(a.peer_id)
        },
        Signal::Scrape(hashes) => hashes < config.scrape_volume_threshold,
        Signal::Connect => true,
        Signal::ConnidMismatch => false,
    }
}

/// Whether two announces of a torrent agree: one identity, and no sooner than allowed.
pub open spec fn keeps_identity(config: Config, g: Happening, h: Happening) -> bool {
    let a = g.signal->Announce_0;
    let b = h.signal->Announce_0;
    a.info_hash == b.info_hash ==> a.key == b.key && a.peer_id == b.peer_id && h.at >= g.at
        + config.reannounce_min_interval
}

/// Whether a source behaves over a history: it announces slowly under one identity per torrent,
/// uses the connection ids it asks for, and sends nothing that gives it away. How it seeds, on
/// which port, into which swarms and how many torrents does not matter.
pub open spec fn is_honest(config: Config, hs: Seq<Happening>, ip: Seq<u8>) -> bool {
    &&& is_slow(config, hs, ip)
    &&& forall|i: int|
        0 <= i < hs.len() && (#[trigger] hs[i]).ip == ip ==> is_harmless(config, hs[i].signal)
    &&& forall|i: int, j: int|
        0 <= i < j < hs.len() && #[trigger] announces(hs[i], ip) && #[trigger] announces(hs[j], ip)
            ==> keeps_identity(config, hs[i], hs[j])
    &&& forall|n: int|
        0 <= n <= hs.len() ==> unused_ids(#[trigger] hs.take(n), ip) <= config.connect_burst
}

/// Whether a remembered announce is one of the first `n` events.
spec fn on_record(hs: Seq<Happening>, n: int, ip: Seq<u8>, s: SeenView) -> bool {
    exists|i: int|
        0 <= i < n && #[trigger] announces(hs[i], ip) && hs[i].at == s.at && ({
            let a = hs[i].signal->Announce_0;
            a.info_hash == s.hash && a.key == s.key && client::fingerprint(
                a.peer_id.subrange(8, 20),
            ) == s.peer
        })
}

/// Whether what is remembered of a source is clean and true to the first `n` events.
spec fn is_clean(hs: Seq<Happening>, n: int, ip: Seq<u8>, c: ClientView) -> bool {
    &&& c.score == 0
    &&& c.connects <= unused_ids(hs.take(n), ip)
    &&& c.ring.len() == client::RING
    &&& 0 <= c.ring_pos < client::RING
    &&& forall|j: int|
        0 <= j < c.ring.len() && (#[trigger] c.ring[j]) is Some ==> on_record(
            hs,
            n,
            ip,
            c.ring[j]->0,
        )
}

/// A score of zero stays zero by decay.
proof fn zero_stays(c: ClientView, now: u32, amount: u32, interval: u32)
    requires
        c.score == 0,
    ensures
        c.decayed(now, amount, interval).score == 0,
{
    let silent = client::clamp(now - c.decay_at) as int;
    let i = if interval == 0 {
        1int
    } else {
        interval as int
    };
    let steps = client::decay_steps(c, now, interval);
    vstd::arithmetic::div_mod::lemma_div_pos_is_pos(silent, i);
    assert(steps * amount >= 0) by (nonlinear_arith)
        requires
            steps >= 0,
            amount >= 0,
    ;
}

/// What is on record stays on record.
proof fn record_grows(hs: Seq<Happening>, n: int, ip: Seq<u8>, s: SeenView)
    requires
        0 <= n < hs.len(),
        on_record(hs, n, ip, s),
    ensures
        on_record(hs, n + 1, ip, s),
{
    let i = choose|i: int|
        0 <= i < n && #[trigger] announces(hs[i], ip) && hs[i].at == s.at && ({
            let a = hs[i].signal->Announce_0;
            a.info_hash == s.hash && a.key == s.key && client::fingerprint(
                a.peer_id.subrange(8, 20),
            ) == s.peer
        });
    assert(announces(hs[i], ip));
}

/// An event of an honest source scores nothing and leaves it clean.
proof fn honest_event_scores_nothing(
    config: Config,
    hs: Seq<Happening>,
    n: int,
    ip: Seq<u8>,
    c: ClientView,
)
    requires
        0 <= n < hs.len(),
        hs[n].ip == ip,
        is_honest(config, hs, ip),
        is_clean(hs, n, ip, c),
        hs[n].signal is Announce ==> !detector::is_fast(config, c, hs[n].at),
    ensures
        is_clean(hs, n + 1, ip, detector::scored(config, c, hs[n].signal, hs[n].at)),
{
    let h = hs[n];
    let scored = detector::scored(config, c, h.signal, h.at);
    assert(is_harmless(config, h.signal));
    assert(hs.take(n + 1).drop_last() =~= hs.take(n));
    assert(hs.take(n + 1).last() == h);
    assert(unused_ids(hs.take(n + 1), ip) <= config.connect_burst);
    if let Signal::Announce(a) = h.signal {
        let peer = client::fingerprint(a.peer_id.subrange(8, 20));
        assert(announces(h, ip));
        assert forall|j: int|
            0 <= j < c.ring.len() && client::of_torrent(
                #[trigger] c.ring[j],
                a.info_hash,
            ) implies c.ring[j]->0.key == a.key && c.ring[j]->0.peer == peer && client::clamp(
            h.at - c.ring[j]->0.at,
        ) >= config.reannounce_min_interval by {
            let s = c.ring[j]->0;
            assert(on_record(hs, n, ip, s));
            let i = choose|i: int|
                0 <= i < n && #[trigger] announces(hs[i], ip) && hs[i].at == s.at && ({
                    let a = hs[i].signal->Announce_0;
                    a.info_hash == s.hash && a.key == s.key && client::fingerprint(
                        a.peer_id.subrange(8, 20),
                    ) == s.peer
                });
            assert(keeps_identity(config, hs[i], h));
        }
        laws::honest_slow_announce_adds_nothing(config, c, a, h.at);
        let seen = SeenView { hash: a.info_hash, at: h.at, key: a.key, peer };
        assert(on_record(hs, n + 1, ip, seen));
        assert forall|j: int| 0 <= j < scored.ring.len() && (#[trigger] scored.ring[j]) is Some
            implies on_record(hs, n + 1, ip, scored.ring[j]->0) by {
            if j == c.ring_pos {
                assert(scored.ring[j] == Some(seen));
            } else {
                assert(scored.ring[j] == c.ring[j]);
                record_grows(hs, n, ip, c.ring[j]->0);
            }
        }
    } else {
        assert forall|j: int| 0 <= j < scored.ring.len() && (#[trigger] scored.ring[j]) is Some
            implies on_record(hs, n + 1, ip, scored.ring[j]->0) by {
            assert(scored.ring[j] == c.ring[j]);
            record_grows(hs, n, ip, c.ring[j]->0);
        }
    }
}

/// What is remembered of a source after an event: of its own, what it was scored to where that
/// drew no ban; of another's, what was remembered before.
proof fn remembered_after(config: Config, hs: Seq<Happening>, n: int, ip: Seq<u8>)
    requires
        0 <= n < hs.len(),
        after(config, hs.take(n + 1)).sources.contains_key(ip),
    ensures
        ({
            let now = after(config, hs.take(n + 1)).sources[ip];
            let before = after(config, hs.take(n)).sources;
            if hs[n].ip == ip {
                let scored = detector::scored(
                    config,
                    source_at(config, hs, n),
                    hs[n].signal,
                    hs[n].at,
                );
                config.max_entries > 0 && scored.score < config.score_ban_threshold ==> now
                    == scored
            } else {
                before.contains_key(ip) && before[ip] == now
            }
        }),
{
    after_step(config, hs, n);
}

/// Where nothing can be tracked, nothing is.
proof fn no_place_no_source(config: Config, hs: Seq<Happening>)
    requires
        config.max_entries == 0,
    ensures
        after(config, hs).sources == Map::<Seq<u8>, ClientView>::empty(),
    decreases hs.len(),
{
    if hs.len() > 0 {
        no_place_no_source(config, hs.drop_last());
    }
}

/// What is remembered of a source stays clean over an event of another.
proof fn other_event_keeps_clean(hs: Seq<Happening>, n: int, ip: Seq<u8>, c: ClientView)
    requires
        0 <= n < hs.len(),
        hs[n].ip != ip,
        is_clean(hs, n, ip, c),
    ensures
        is_clean(hs, n + 1, ip, c),
{
    assert(hs.take(n + 1).drop_last() =~= hs.take(n));
    assert(hs.take(n + 1).last() == hs[n]);
    assert forall|j: int| 0 <= j < c.ring.len() && (#[trigger] c.ring[j]) is Some implies on_record(
        hs,
        n + 1,
        ip,
        c.ring[j]->0,
    ) by {
        record_grows(hs, n, ip, c.ring[j]->0);
    }
}

/// What is remembered of an honest source is clean.
proof fn honest_source_is_clean(config: Config, hs: Seq<Happening>, n: int, ip: Seq<u8>)
    requires
        0 <= n <= hs.len(),
        is_honest(config, hs, ip),
        config.score_ban_threshold > 0,
        after(config, hs.take(n)).sources.contains_key(ip),
    ensures
        is_clean(hs, n, ip, after(config, hs.take(n)).sources[ip]),
    decreases n,
{
    if config.max_entries == 0 {
        no_place_no_source(config, hs.take(n));
    } else if n > 0 {
        let m = n - 1;
        remembered_after(config, hs, m, ip);
        if after(config, hs.take(m)).sources.contains_key(ip) {
            honest_source_is_clean(config, hs, m, ip);
        }
        if hs[m].ip == ip {
            clean_source_comes_clean(config, hs, m, ip);
            if hs[m].signal is Announce {
                slow_source_is_never_scored_for_behaviour(config, hs, m, ip);
            }
            honest_event_scores_nothing(config, hs, m, ip, source_at(config, hs, m));
        } else {
            other_event_keeps_clean(hs, m, ip, after(config, hs.take(n)).sources[ip]);
        }
    }
}

/// A source that is remembered clean, or not at all, is clean when its next event comes.
proof fn clean_source_comes_clean(config: Config, hs: Seq<Happening>, n: int, ip: Seq<u8>)
    requires
        0 <= n < hs.len(),
        hs[n].ip == ip,
        ({
            let sources = after(config, hs.take(n)).sources;
            sources.contains_key(ip) ==> is_clean(hs, n, ip, sources[ip])
        }),
    ensures
        is_clean(hs, n, ip, source_at(config, hs, n)),
{
    let sources = after(config, hs.take(n)).sources;
    if sources.contains_key(ip) {
        zero_stays(sources[ip], hs[n].at, config.decay_amount, config.decay_interval);
    }
}

/// An honest source is never flagged, whatever the others do: however it seeds, on which port,
/// into which swarms and how many torrents, as long as it does so slowly.
pub proof fn honest_slow_source_is_never_flagged(
    config: Config,
    hs: Seq<Happening>,
    ip: Seq<u8>,
    i: int,
)
    requires
        0 <= i < hs.len(),
        hs[i].ip == ip,
        is_honest(config, hs, ip),
        config.score_ban_threshold > 0,
    ensures
        verdict(config, hs, i) == Verdict::Allow,
{
    if after(config, hs.take(i)).sources.contains_key(ip) {
        honest_source_is_clean(config, hs, i, ip);
    }
    clean_source_comes_clean(config, hs, i, ip);
    if hs[i].signal is Announce {
        slow_source_is_never_scored_for_behaviour(config, hs, i, ip);
    }
    honest_event_scores_nothing(config, hs, i, ip, source_at(config, hs, i));
}

/// Offences as they came: whose, and when.
pub open spec fn registry(config: Config, os: Seq<(Seq<u8>, u32)>) -> Map<Seq<u8>, Offender>
    decreases os.len(),
{
    if os.len() == 0 {
        Map::empty()
    } else {
        detector::with_offense(config, registry(config, os.drop_last()), os.last().0, os.last().1)
    }
}

/// How many of the offences are a source's.
pub open spec fn times(os: Seq<(Seq<u8>, u32)>, ip: Seq<u8>) -> nat
    decreases os.len(),
{
    if os.len() == 0 {
        0
    } else if os.last().0 == ip {
        times(os.drop_last(), ip) + 1
    } else {
        times(os.drop_last(), ip)
    }
}

/// The sources of the offences.
pub open spec fn culprits(os: Seq<(Seq<u8>, u32)>) -> Set<Seq<u8>>
    decreases os.len(),
{
    if os.len() == 0 {
        Set::empty()
    } else {
        culprits(os.drop_last()).insert(os.last().0)
    }
}

/// The sources of offences are as many as they are, and those who offended.
proof fn culprits_offended(os: Seq<(Seq<u8>, u32)>, ip: Seq<u8>)
    ensures
        culprits(os).finite(),
        culprits(os).contains(ip) == (times(os, ip) > 0),
    decreases os.len(),
{
    if os.len() > 0 {
        culprits_offended(os.drop_last(), ip);
    }
}

/// Where the culprits are within the cap, each is remembered with all its offences.
proof fn registry_counts(config: Config, os: Seq<(Seq<u8>, u32)>)
    requires
        culprits(os).len() <= config.max_offenders,
    ensures
        registry(config, os).dom() == culprits(os),
        forall|ip: Seq<u8>| #[trigger]
            registry(config, os).contains_key(ip) ==> registry(config, os)[ip].offenses
                == client::clamp(times(os, ip) as int),
    decreases os.len(),
{
    if os.len() > 0 {
        let before = os.drop_last();
        let ip = os.last().0;
        culprits_offended(before, ip);
        registry_counts(config, before);
        assert forall|k: Seq<u8>| #[trigger] registry(config, os).contains_key(k) implies registry(
            config,
            os,
        )[k].offenses == client::clamp(times(os, k) as int) by {
            if k != ip {
                assert(registry(config, before).contains_key(k));
            }
        }
        assert(registry(config, os).dom() =~= culprits(os));
    } else {
        assert(registry(config, os).dom() =~= culprits(os));
    }
}

/// The tier of a source's next offence is the number of its offences so far, up to the last tier.
/// Offences of others in between do not count.
pub proof fn tier_counts_own_offences(config: Config, os: Seq<(Seq<u8>, u32)>, ip: Seq<u8>)
    requires
        culprits(os).insert(ip).len() <= config.max_offenders,
        times(os, ip) < u32::MAX,
    ensures
        detector::next_tier(config, registry(config, os), ip) == (if times(os, ip)
            < config.ban_tiers {
            times(os, ip) as int
        } else {
            client::clamp(config.ban_tiers - 1) as int
        }),
{
    culprits_offended(os, ip);
    registry_counts(config, os);
}

/// The bans of a history.
pub open spec fn bans(config: Config, hs: Seq<Happening>) -> Seq<(Seq<u8>, u32)>
    decreases hs.len(),
{
    if hs.len() == 0 {
        Seq::empty()
    } else if verdict(config, hs, hs.len() - 1) is Ban {
        bans(config, hs.drop_last()).push((hs.last().ip, hs.last().at))
    } else {
        bans(config, hs.drop_last())
    }
}

/// The offenders that the detector remembers are those of its bans.
proof fn offenders_are_of_bans(config: Config, hs: Seq<Happening>)
    ensures
        after(config, hs).offenders == registry(config, bans(config, hs)),
    decreases hs.len(),
{
    if hs.len() > 0 {
        offenders_are_of_bans(config, hs.drop_last());
        assert(hs.take(hs.len() - 1) =~= hs.drop_last());
        let before = bans(config, hs.drop_last());
        let last = (hs.last().ip, hs.last().at);
        assert(before.push(last).drop_last() =~= before);
    }
}

/// A source's first ban is of tier zero, and each further one of one tier more up to the last,
/// however many bans of others come in between, as long as all the banned can be remembered.
pub proof fn ban_tier_counts_own_bans(config: Config, hs: Seq<Happening>, i: int)
    requires
        0 <= i < hs.len(),
        verdict(config, hs, i) is Ban,
        culprits(bans(config, hs.take(i))).insert(hs[i].ip).len() <= config.max_offenders,
        times(bans(config, hs.take(i)), hs[i].ip) < u32::MAX,
    ensures
        ({
            let n = times(bans(config, hs.take(i)), hs[i].ip);
            verdict(config, hs, i)->tier == (if n < config.ban_tiers {
                n as int
            } else {
                client::clamp(config.ban_tiers - 1) as int
            })
        }),
{
    offenders_are_of_bans(config, hs.take(i));
    tier_counts_own_offences(config, bans(config, hs.take(i)), hs[i].ip);
}

} // verus!
