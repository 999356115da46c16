use bluefrog::l7::{is_known_client, AnnounceInfo, Config, Detector, Ip, Verdict, SHARDS};
use bluefrog::{InfoHash, PeerId};

const IP: Ip = [0, 0, 0, 0, 0, 0, 0, 0, 0, 0, 0xff, 0xff, 1, 2, 3, 4];
const H1: InfoHash = [1u8; 20];
const H2: InfoHash = [2u8; 20];
const GOOD_PEER: PeerId = *b"-qB5000-abcdefghijkl";
const BAD_PEER: PeerId = [0u8; 20];

/// A clean announce: nothing in it should score.
fn clean<'a>(hash: &'a InfoHash, peer: &'a PeerId) -> AnnounceInfo<'a> {
    AnnounceInfo {
        info_hash: hash,
        peer_id: peer,
        key: 0x1234_5678,
        declared_ip: 0,
        port: 6881,
        left: 100,
        downloaded: 10,
        uploaded: 5,
        num_want: 50,
        source_is_public: true,
        swarm_peers: 5,
    }
}

fn detector() -> Detector {
    Detector::new(Config::default())
}

/// Every signal silenced, so a test can enable exactly one weight and isolate it.
fn quiet() -> Config {
    Config {
        weight_interval: 0,
        weight_connid: 0,
        weight_peerid: 0,
        weight_bad_key: 0,
        weight_declared_ip: 0,
        weight_bad_port: 0,
        weight_fake_seeder: 0,
        weight_key_churn: 0,
        weight_peerid_churn: 0,
        weight_numwant: 0,
        weight_breadth: 0,
        weight_empty_swarm: 0,
        weight_scrape_volume: 0,
        decay_amount: 0,
        ..Config::default()
    }
}

#[test]
fn known_client_detection() {
    assert!(is_known_client(&GOOD_PEER));
    assert!(is_known_client(b"M5-1-2--abcdefghijkl"));
    assert!(!is_known_client(&BAD_PEER));
}

#[test]
fn clean_announce_is_allowed() {
    let mut d = detector();
    assert_eq!(
        d.on_announce(&IP, &clean(&H1, &GOOD_PEER), 1000),
        Verdict::Allow
    );
    assert_eq!(d.tracked_sources(), 1);
    assert_eq!(d.offenders(), 0);
}

// --- tier 1: stateless protocol violations -------------------------------------------------

#[test]
fn trivial_key_scores() {
    let mut d = Detector::new(Config {
        weight_bad_key: 100,
        ..quiet()
    });
    let mut a = clean(&H1, &GOOD_PEER);
    a.key = 0;
    assert!(matches!(d.on_announce(&IP, &a, 1000), Verdict::Ban { .. }));
    // all-ones is the same tell
    let mut d2 = Detector::new(Config {
        weight_bad_key: 100,
        ..quiet()
    });
    let mut b = clean(&H1, &GOOD_PEER);
    b.key = u32::MAX;
    assert!(matches!(d2.on_announce(&IP, &b, 1000), Verdict::Ban { .. }));
}

#[test]
fn declared_ip_scores_only_from_public_sources() {
    let cfg = Config {
        weight_declared_ip: 100,
        ..quiet()
    };
    // a public source asking to be listed under another address
    let mut d = Detector::new(cfg);
    let mut a = clean(&H1, &GOOD_PEER);
    a.declared_ip = 0x0a00_0001;
    assert!(matches!(d.on_announce(&IP, &a, 1000), Verdict::Ban { .. }));
    // the same request from private space is a legitimate NAT hint
    let mut d2 = Detector::new(cfg);
    let mut b = clean(&H1, &GOOD_PEER);
    b.declared_ip = 0x0a00_0001;
    b.source_is_public = false;
    assert_eq!(d2.on_announce(&IP, &b, 1000), Verdict::Allow);
}

#[test]
fn unconnectable_port_scores() {
    let mut d = Detector::new(Config {
        weight_bad_port: 100,
        ..quiet()
    });
    let mut a = clean(&H1, &GOOD_PEER);
    a.port = 0;
    assert_eq!(d.on_announce(&IP, &a, 1000), Verdict::Allow);
    assert!(matches!(d.on_announce(&IP, &a, 1000), Verdict::Ban { .. }));
}

#[test]
fn fake_seeder_scores() {
    let mut d = Detector::new(Config {
        weight_fake_seeder: 100,
        ..quiet()
    });
    let mut a = clean(&H1, &GOOD_PEER);
    a.left = 0;
    a.downloaded = 0;
    a.uploaded = 0;
    // the first sighting has no rate history, so the gated signal only counts from the second
    assert_eq!(d.on_announce(&IP, &a, 1000), Verdict::Allow);
    assert!(matches!(d.on_announce(&IP, &a, 1000), Verdict::Ban { .. }));
}

#[test]
fn excessive_numwant_scores() {
    let mut d = Detector::new(Config {
        weight_numwant: 100,
        ..quiet()
    });
    let mut a = clean(&H1, &GOOD_PEER);
    a.num_want = 5000;
    assert_eq!(d.on_announce(&IP, &a, 1000), Verdict::Allow);
    assert!(matches!(d.on_announce(&IP, &a, 1000), Verdict::Ban { .. }));
}

#[test]
fn unknown_peer_id_scores() {
    let mut d = Detector::new(Config {
        weight_peerid: 100,
        ..quiet()
    });
    assert!(matches!(
        d.on_announce(&IP, &clean(&H1, &BAD_PEER), 1000),
        Verdict::Ban { .. }
    ));
}

// --- tier 2: identity churn and interval abuse ---------------------------------------------

#[test]
fn key_churn_for_one_torrent_scores() {
    let mut d = Detector::new(Config {
        weight_key_churn: 60,
        ..quiet()
    });
    let a = clean(&H1, &GOOD_PEER);
    assert_eq!(d.on_announce(&IP, &a, 1000), Verdict::Allow);
    // same source, same torrent, different `key` -> fabricated identity
    let mut b = clean(&H1, &GOOD_PEER);
    b.key = 0xdead_beef;
    assert_eq!(d.on_announce(&IP, &b, 1000), Verdict::Allow); // 60
    let mut c = clean(&H1, &GOOD_PEER);
    c.key = 0x0bad_0bad;
    assert!(matches!(d.on_announce(&IP, &c, 1000), Verdict::Ban { .. })); // 120
}

#[test]
fn peer_id_churn_for_one_torrent_scores() {
    let mut d = Detector::new(Config {
        weight_peerid_churn: 100,
        ..quiet()
    });
    assert_eq!(
        d.on_announce(&IP, &clean(&H1, &GOOD_PEER), 1000),
        Verdict::Allow
    );
    let other: PeerId = *b"-qB5000-zzzzzzzzzzzz";
    assert!(matches!(
        d.on_announce(&IP, &clean(&H1, &other), 1000),
        Verdict::Ban { .. }
    ));
}

#[test]
fn interval_abuse_is_per_torrent() {
    let mut d = Detector::new(Config {
        weight_interval: 60,
        ..quiet()
    });
    assert_eq!(
        d.on_announce(&IP, &clean(&H1, &GOOD_PEER), 1000),
        Verdict::Allow
    );
    // a different torrent right away is fine
    assert_eq!(
        d.on_announce(&IP, &clean(&H2, &GOOD_PEER), 1000),
        Verdict::Allow
    );
    assert_eq!(
        d.on_announce(&IP, &clean(&H1, &GOOD_PEER), 1005),
        Verdict::Allow
    ); // 60
    assert!(matches!(
        d.on_announce(&IP, &clean(&H1, &GOOD_PEER), 1006),
        Verdict::Ban { .. }
    ));
}

#[test]
fn slow_reannounce_is_not_a_violation() {
    let mut d = detector();
    d.on_announce(&IP, &clean(&H1, &GOOD_PEER), 1000);
    assert_eq!(
        d.on_announce(&IP, &clean(&H1, &GOOD_PEER), 2000),
        Verdict::Allow
    );
}

// --- tier 3: enumeration -------------------------------------------------------------------

#[test]
fn breadth_across_many_torrents_scores() {
    let mut d = Detector::new(Config {
        weight_breadth: 100,
        breadth_threshold: 4,
        ..quiet()
    });
    // announce distinct torrents until the fingerprint reports enough buckets
    let mut banned = false;
    for i in 0..64u8 {
        let hash: InfoHash = [i; 20];
        if matches!(
            d.on_announce(&IP, &clean(&hash, &GOOD_PEER), 1000),
            Verdict::Ban { .. }
        ) {
            banned = true;
            break;
        }
    }
    assert!(banned, "a source enumerating many torrents must be flagged");
}

#[test]
fn bulk_scrape_scores_but_small_scrape_does_not() {
    let mut d = Detector::new(Config {
        weight_scrape_volume: 100,
        scrape_volume_threshold: 32,
        ..quiet()
    });
    assert_eq!(d.on_scrape(&IP, 4, 1000), Verdict::Allow);
    assert!(matches!(d.on_scrape(&IP, 74, 1000), Verdict::Ban { .. }));
}

// --- connid, ban-once, decay ---------------------------------------------------------------

#[test]
fn connid_mismatches_accumulate_to_a_ban() {
    let mut d = Detector::new(Config {
        weight_connid: 60,
        decay_amount: 0,
        ..Config::default()
    });
    assert_eq!(d.on_connid_mismatch(&IP, 1000), Verdict::Allow);
    assert!(matches!(
        d.on_connid_mismatch(&IP, 1000),
        Verdict::Ban { tier: 0, .. }
    ));
}

#[test]
fn ban_fires_once_then_suppressed_while_over_threshold() {
    let mut d = Detector::new(Config {
        weight_connid: 50,
        decay_amount: 0,
        ..Config::default()
    });
    assert_eq!(d.on_connid_mismatch(&IP, 1000), Verdict::Allow);
    assert!(matches!(
        d.on_connid_mismatch(&IP, 1000),
        Verdict::Ban { .. }
    ));
    for _ in 0..1000 {
        assert_eq!(d.on_connid_mismatch(&IP, 1000), Verdict::Allow);
    }
    // exactly one offence was recorded despite the flood
    assert_eq!(d.offenders(), 1);
}

#[test]
fn score_decays_over_time() {
    let mut d = Detector::new(Config {
        weight_connid: 90,
        decay_amount: 10,
        decay_interval: 1,
        ..Config::default()
    });
    d.on_connid_mismatch(&IP, 1000); // 90
    assert!(matches!(
        d.on_connid_mismatch(&IP, 1005),
        Verdict::Ban { .. }
    ));
    let ip2 = [0, 0, 0, 0, 0, 0, 0, 0, 0, 0, 0xff, 0xff, 9, 9, 9, 9];
    d.on_connid_mismatch(&ip2, 1000);
    assert_eq!(d.on_connid_mismatch(&ip2, 2000), Verdict::Allow);
}

#[test]
fn rebans_after_the_cooldown_even_with_a_high_score() {
    // Re-arming is purely time-driven: a source whose score stays high is banned again once the
    // cooldown has passed, and so can escalate.
    let mut d = Detector::new(Config {
        weight_connid: 500, // score rockets past the threshold...
        decay_amount: 0,    // ...and never comes back down
        reban_cooldown: 100,
        ..quiet()
    });
    assert!(matches!(
        d.on_connid_mismatch(&IP, 1000),
        Verdict::Ban { tier: 0, .. }
    ));
    // inside the cooldown the ban is suppressed
    assert_eq!(d.on_connid_mismatch(&IP, 1050), Verdict::Allow);
    // past it the source is re-banned and escalated, despite the score never dropping
    assert!(matches!(
        d.on_connid_mismatch(&IP, 1101),
        Verdict::Ban { tier: 1, .. }
    ));
}

#[test]
fn repeat_offences_escalate_then_cap() {
    let mut d = Detector::new(Config {
        weight_connid: 500,
        decay_amount: 0,
        reban_cooldown: 100,
        ban_tiers: 4,
        ..quiet()
    });
    let mut tiers = Vec::new();
    for round in 0..6u32 {
        let now = 1000 + round * 101; // each round clears the cooldown
        if let Verdict::Ban { tier, .. } = d.on_connid_mismatch(&IP, now) {
            tiers.push(tier);
        }
    }
    // first offence is tier 0, one tier per ban, capped at ban_tiers - 1
    assert_eq!(tiers, vec![0, 1, 2, 3, 3, 3]);
    assert_eq!(d.offenders(), 1);
}

#[test]
fn an_honest_slow_seeder_is_never_flagged() {
    // Empty swarm, left=0 with nothing transferred, unconnectable-looking port: exactly the
    // shape of the flood, but produced by someone seeding an unpopular torrent of files they
    // already had - at the interval we advertise.
    let cfg = Config {
        weight_empty_swarm: 100,
        weight_fake_seeder: 100,
        weight_bad_port: 100,
        empty_swarm_threshold: 2,
        fast_announce_gap: 300,
        ..quiet()
    };
    let mut d = Detector::new(cfg);
    let mut honest = clean(&H1, &GOOD_PEER);
    honest.swarm_peers = 0;
    honest.left = 0;
    honest.downloaded = 0;
    honest.uploaded = 0;
    honest.port = 443;
    for round in 0..12u32 {
        let now = 1000 + round * 1800; // every 30 minutes, as instructed
        assert_eq!(d.on_announce(&IP, &honest, now), Verdict::Allow);
    }
    // the identical shape at flood speed is caught
    let mut d2 = Detector::new(cfg);
    let caught = (0..12u32).any(|r| {
        matches!(
            d2.on_announce(&IP, &honest, 1000 + r * 5),
            Verdict::Ban { .. }
        )
    });
    assert!(caught, "the same shape at flood rate must be caught");
}

#[test]
fn offender_registry_is_bounded() {
    let mut d = Detector::new(Config {
        weight_connid: 100,
        max_offenders: 2,
        ..Config::default()
    });
    for i in 0..5u8 {
        let ip = [0, 0, 0, 0, 0, 0, 0, 0, 0, 0, 0xff, 0xff, 1, 1, 1, i];
        d.on_connid_mismatch(&ip, 1000 + u32::from(i));
    }
    assert!(d.offenders() <= 2, "registry must stay bounded");
}

#[test]
fn state_is_bounded_by_eviction() {
    let mut d = Detector::new(Config {
        max_entries: SHARDS,
        ..Config::default()
    });
    let a = [0, 0, 0, 0, 0, 0, 0, 0, 0, 0, 0xff, 0xff, 1, 1, 1, 7];
    let b = [0, 0, 0, 0, 0, 0, 0, 0, 0, 0, 0xff, 0xff, 2, 2, 2, 7];
    d.on_announce(&a, &clean(&H1, &GOOD_PEER), 1000);
    d.on_announce(&b, &clean(&H1, &GOOD_PEER), 1001);
    assert_eq!(d.tracked_sources(), 1);
}

#[test]
fn connect_spam_scores_without_follow_through() {
    let mut d = Detector::new(Config {
        weight_connect_spam: 100,
        connect_burst: 3,
        ..quiet()
    });
    // a few unanswered connects are free: a lost announce legitimately causes a re-connect
    for _ in 0..3 {
        assert_eq!(d.on_connect(&IP, 1000), Verdict::Allow);
    }
    // but asking for ids and never using one is spam
    assert!(matches!(d.on_connect(&IP, 1000), Verdict::Ban { .. }));
}

#[test]
fn using_the_connection_id_clears_connect_suspicion() {
    let mut d = Detector::new(Config {
        weight_connect_spam: 100,
        connect_burst: 3,
        ..quiet()
    });
    for _ in 0..3 {
        d.on_connect(&IP, 1000);
    }
    // an announce proves the handshake was used, so the tally resets
    d.on_announce(&IP, &clean(&H1, &GOOD_PEER), 1000);
    for _ in 0..3 {
        assert_eq!(d.on_connect(&IP, 1000), Verdict::Allow);
    }
    // a scrape counts as follow-through too
    d.on_scrape(&IP, 1, 1000);
    assert_eq!(d.on_connect(&IP, 1000), Verdict::Allow);
}

#[test]
fn repeated_empty_swarms_score_but_a_real_swarm_resets() {
    let mut d = Detector::new(Config {
        weight_empty_swarm: 100,
        empty_swarm_threshold: 3,
        ..quiet()
    });
    let mut empty = clean(&H1, &GOOD_PEER);
    empty.swarm_peers = 0;
    for _ in 0..3 {
        assert_eq!(d.on_announce(&IP, &empty, 1000), Verdict::Allow);
    }
    // joining a swarm that actually has peers clears the run, so power users are unaffected
    let mut real = clean(&H1, &GOOD_PEER);
    real.swarm_peers = 12;
    assert_eq!(d.on_announce(&IP, &real, 1000), Verdict::Allow);
    for _ in 0..3 {
        assert_eq!(d.on_announce(&IP, &empty, 1000), Verdict::Allow);
    }
    // a sustained run of empty swarms is enumeration
    assert!(matches!(
        d.on_announce(&IP, &empty, 1000),
        Verdict::Ban { .. }
    ));
}

#[test]
fn decay_applies_only_in_whole_intervals() {
    let mut d = Detector::new(Config {
        weight_connid: 60,
        decay_amount: 50,
        decay_interval: 60,
        ..quiet()
    });
    assert_eq!(d.on_connid_mismatch(&IP, 1000), Verdict::Allow); // 60
    // 30s is under one interval, so nothing decays and this crosses the threshold: a source seen
    // this often accumulates.
    assert!(matches!(
        d.on_connid_mismatch(&IP, 1030),
        Verdict::Ban { .. }
    ));
}

#[test]
fn whole_intervals_of_silence_decay_the_score() {
    let mut d = Detector::new(Config {
        weight_connid: 60,
        decay_amount: 50,
        decay_interval: 60,
        ..quiet()
    });
    d.on_connid_mismatch(&IP, 1000); // 60
    // two whole intervals later the score has decayed away, so 60 is under the threshold again
    assert_eq!(d.on_connid_mismatch(&IP, 1130), Verdict::Allow);
}

#[test]
fn verdict_and_config_derives() {
    assert_ne!(
        Verdict::Allow,
        Verdict::Ban {
            duration: 1,
            tier: 0
        }
    );
    assert!(format!("{:?}", Verdict::Allow).contains("Allow"));
    let c = Config::default();
    assert_eq!(c, c);
    assert!(format!("{c:?}").contains("Config"));
    let a = clean(&H1, &GOOD_PEER);
    assert!(format!("{a:?}").contains("AnnounceInfo"));
    let _copy = a;
}
