use bluefrog::bencode::Encoder;
use bluefrog::config::parse as parse_config;
use bluefrog::connid::ConnId;
use bluefrog::http::{percent_decode, HttpHandler, Response, NUMWANT_MAX};
use bluefrog::l7::{AnnounceInfo, Config, Detector, Verdict};
use bluefrog::store::{Counts, Store, Totals, PEER_TIMEOUT_MINUTES, TORRENT_TIMEOUT_MINUTES};
use bluefrog::udp::{ANNOUNCE_MIN, PROTOCOL_ID};
use bluefrog::udp_handler::{Action, Handler};
use bluefrog::{flag, InfoHash, HASH_LEN};

const H: InfoHash = [7u8; HASH_LEN];
const IP: [u8; 16] = [0, 0, 0, 0, 0, 0, 0, 0, 0, 0, 0xff, 0xff, 10, 0, 0, 1];

fn key(n: u8) -> [u8; 6] {
    [10, 0, 0, n, 0x1a, 0xe1]
}

fn scrape_of(s: &Store) -> (u32, u32, u32) {
    let c = s.scrape(&H);
    (c.complete, c.incomplete, c.downloaded)
}

// --- connection ids ---------------------------------------------------------------------------

#[test]
fn connection_id_is_the_low_half_of_the_mac() {
    let c = ConnId::new([3u8; 32], 120);
    let mut hasher = blake3::Hasher::new_keyed(&[3u8; 32]);
    hasher.update(&IP);
    hasher.update(&(1000u64 / 120).to_le_bytes());
    let mac = hasher.finalize();
    let expected = u64::from_le_bytes(mac.as_bytes()[0..8].try_into().unwrap());
    assert_eq!(c.generate(&IP, 1000), expected);
}

#[test]
fn connection_id_lasts_a_window() {
    let c = ConnId::new([3u8; 32], 120);
    for issued in [0u64, 119, 120, 10_000] {
        let id = c.generate(&IP, issued);
        for age in [0u64, 1, 60, 119, 120] {
            assert!(c.validate(id, &IP, issued + age));
        }
        assert!(!c.validate(id, &IP, issued + 240));
    }
}

// --- swarms -----------------------------------------------------------------------------------

#[test]
fn download_is_counted_once() {
    let mut s = Store::new();
    let mut out = Vec::new();
    let done = flag::SEEDING | flag::COMPLETED;
    s.announce_v4(&H, key(1), done, 0, 1, &mut out);
    s.announce_v4(&H, key(1), done, 0, 2, &mut out);
    s.announce_v4(&H, key(1), flag::LEECHING, 0, 3, &mut out);
    s.announce_v4(&H, key(1), done, 0, 4, &mut out);
    assert_eq!(scrape_of(&s), (1, 0, 1));
    // the peer leaves; what it did is not forgotten by the swarm, but the peer is
    s.remove_v4(&H, &key(1), 5);
    assert_eq!(scrape_of(&s), (0, 0, 1));
    s.announce_v4(&H, key(1), done, 0, 6, &mut out);
    assert_eq!(scrape_of(&s), (1, 0, 2));
    assert!(out.is_empty());
}

#[test]
fn leaving_undoes_joining() {
    let mut s = Store::new();
    let mut before = Vec::new();
    s.announce_v4(&H, key(1), flag::SEEDING, 50, 1, &mut before);
    let mut out = Vec::new();
    s.announce_v4(&H, key(2), flag::LEECHING, 50, 2, &mut out);
    s.remove_v4(&H, &key(2), 3);
    let mut after = Vec::new();
    s.announce_v4(&H, key(1), flag::SEEDING, 50, 4, &mut after);
    assert_eq!(before, after);
    assert_eq!(scrape_of(&s), (1, 0, 0));
}

#[test]
fn peers_come_leechers_first_and_ascending() {
    let mut s = Store::new();
    let mut out = Vec::new();
    for (n, flags) in [
        (4, flag::SEEDING),
        (3, flag::LEECHING),
        (2, flag::SEEDING),
        (1, flag::LEECHING),
    ] {
        out.clear();
        s.announce_v4(&H, key(n), flags, 50, 1, &mut out);
    }
    let expected: Vec<u8> = [key(1), key(3), key(2), key(4)].concat();
    assert_eq!(out, expected);
    // the cap cuts the tail, and what is in the buffer stays
    let mut capped = vec![0xaa];
    s.announce_v4(&H, key(1), flag::LEECHING, 3, 1, &mut capped);
    assert_eq!(capped[0], 0xaa);
    assert_eq!(capped[1..], expected[..18]);
}

#[test]
fn families_do_not_mix() {
    let mut s = Store::new();
    let mut v4 = Vec::new();
    let mut v6 = Vec::new();
    s.announce_v4(&H, key(1), flag::LEECHING, 50, 1, &mut v4);
    let c = s.announce_v6(&H, [9u8; 18], flag::SEEDING, 50, 1, &mut v6);
    assert_eq!(v4, key(1).to_vec());
    assert_eq!(v6, [9u8; 18].to_vec());
    assert_eq!(
        c,
        Counts {
            complete: 1,
            incomplete: 1,
            downloaded: 0
        }
    );
}

#[test]
fn sweeps_compose() {
    let fill = || {
        let mut s = Store::new();
        let mut out = Vec::new();
        s.announce_v4(&H, key(1), flag::SEEDING, 0, 10, &mut out);
        s.announce_v4(&H, key(2), flag::LEECHING, 0, 40, &mut out);
        s.announce_v4(&[8u8; HASH_LEN], key(3), flag::LEECHING, 0, 10, &mut out);
        s
    };
    let (mut once, mut twice) = (fill(), fill());
    let at = 10 + PEER_TIMEOUT_MINUTES;
    once.gc(at);
    twice.gc(at - 1);
    twice.gc(at);
    twice.gc(at);
    assert_eq!(once.totals(), twice.totals());
    assert_eq!(scrape_of(&once), (0, 1, 0));
    assert_eq!(once.torrent_count(), 2);
    once.gc(10 + TORRENT_TIMEOUT_MINUTES);
    // the torrent announced last at minute 40 lingers
    assert_eq!(once.torrent_count(), 1);
}

#[test]
fn totals_span_all_shards() {
    let mut s = Store::new();
    let mut out = Vec::new();
    for i in 0..=255u8 {
        let flags = if i % 3 == 0 {
            flag::SEEDING
        } else {
            flag::LEECHING
        };
        s.announce_v4(&[i; HASH_LEN], key(1), flags, 0, 1, &mut out);
        s.announce_v6(&[i; HASH_LEN], [1u8; 18], flag::SEEDING, 0, 1, &mut out);
    }
    assert_eq!(
        s.totals(),
        Totals {
            torrents: 256,
            seeders: 86 + 256,
            leechers: 170
        }
    );
    assert_eq!(s.torrent_count(), 256);
}

// --- UDP --------------------------------------------------------------------------------------

fn announce(cid: u64, left: u64, event: u32, port: u16) -> Vec<u8> {
    let mut p = vec![0u8; ANNOUNCE_MIN];
    p[0..8].copy_from_slice(&cid.to_be_bytes());
    p[8..12].copy_from_slice(&1u32.to_be_bytes());
    p[12..16].copy_from_slice(&0xfeedu32.to_be_bytes());
    p[16..36].copy_from_slice(&H);
    p[64..72].copy_from_slice(&left.to_be_bytes());
    p[80..84].copy_from_slice(&event.to_be_bytes());
    p[92..96].copy_from_slice(&(-1i32).to_be_bytes());
    p[96..98].copy_from_slice(&port.to_be_bytes());
    p
}

#[test]
fn connected_client_is_let_in_for_a_window() {
    let h = Handler::new(ConnId::new([1u8; 32], 120));
    let mut store = Store::new();
    let mut out = Vec::new();
    let mut connect = vec![0u8; 16];
    connect[0..8].copy_from_slice(&PROTOCOL_ID.to_be_bytes());
    connect[12..16].copy_from_slice(&5u32.to_be_bytes());
    let now = 1_000_000u64;
    assert_eq!(
        h.handle(&mut store, &connect, &IP, true, now, 1800, &mut out),
        Action::Reply(16)
    );
    assert_eq!(out[0..8], [0, 0, 0, 0, 0, 0, 0, 5]);
    let cid = u64::from_be_bytes(out[8..16].try_into().unwrap());
    let a = announce(cid, 1, 0, 6881);
    for later in [now, now + 60, now + 120] {
        assert_eq!(
            h.handle(&mut store, &a, &IP, true, later, 1800, &mut out),
            Action::Reply(26)
        );
    }
    // from another address, or when the id has expired, nothing happens at all
    let sent = out.clone();
    let mut other = IP;
    other[15] = 99;
    assert_eq!(
        h.handle(&mut store, &a, &other, true, now, 1800, &mut out),
        Action::ConnidMismatch
    );
    assert_eq!(
        h.handle(&mut store, &a, &IP, true, now + 240, 1800, &mut out),
        Action::ConnidMismatch
    );
    assert_eq!(out, sent);
    assert_eq!(scrape_of(&store), (0, 1, 0));
}

#[test]
fn announce_response_is_capped() {
    let h = Handler::new(ConnId::new([1u8; 32], 120));
    let mut store = Store::new();
    let mut out = Vec::new();
    let cid = h.connid.generate(&IP, 60);
    for port in 0..300u16 {
        h.handle(&mut store, &announce(cid, 1, 0, port), &IP, true, 60, 1800, &mut out);
    }
    assert_eq!(out.len(), 20 + 6 * 200);
    let ip6 = [0x20u8; 16];
    let cid = h.connid.generate(&ip6, 60);
    for port in 0..100u16 {
        h.handle(&mut store, &announce(cid, 1, 0, port), &ip6, false, 60, 1800, &mut out);
    }
    assert_eq!(out.len(), 20 + 18 * 66);
    assert_eq!(out[12..16], 400u32.to_be_bytes());
}

// --- HTTP -------------------------------------------------------------------------------------

#[test]
fn every_byte_can_be_escaped() {
    for b in 0..=255u8 {
        let mut out = vec![b'x'];
        assert!(percent_decode(format!("%{b:02X}").as_bytes(), &mut out));
        assert_eq!(out, [b'x', b]);
        out.clear();
        assert!(percent_decode(format!("%{b:02x}").as_bytes(), &mut out));
        assert_eq!(out, [b]);
    }
    let mut out = Vec::new();
    assert!(!percent_decode(b"ab%2", &mut out));
    assert_eq!(out, b"ab");
}

fn escaped(hash: &InfoHash) -> String {
    hash.iter().map(|b| format!("%{b:02X}")).collect()
}

#[test]
fn protocols_share_one_store() {
    let (udp, http) = (Handler::new(ConnId::new([1u8; 32], 120)), HttpHandler::new());
    let (mut a, mut b) = (Store::new(), Store::new());
    let mut out = Vec::new();
    let cid = udp.connid.generate(&IP, 600);
    for (left, code, event) in [(1u64, 0u32, "started"), (0, 1, "completed"), (0, 3, "stopped")] {
        udp.handle(&mut a, &announce(cid, left, code, 80), &IP, true, 600, 1800, &mut out);
        let target = format!(
            "/announce?info_hash={}&port=80&left={left}&event={event}",
            escaped(&H)
        );
        http.handle(&mut b, &target, &IP, true, 10, 1800);
        assert_eq!(scrape_of(&a), scrape_of(&b));
        assert_eq!(a.totals(), b.totals());
    }
    assert_eq!(scrape_of(&a), (0, 0, 1));
}

#[test]
fn refused_requests_change_nothing() {
    let h = HttpHandler::new();
    let mut store = Store::new();
    let hash = escaped(&H);
    for target in [
        format!("/announce?info_hash={hash}&port=1&compact=0"),
        format!("/announce?info_hash={hash}&port="),
        format!("/announce?info_hash={hash}&port=-1"),
        format!("/announce?info_hash={hash}%41&port=1"),
        "/announce?info_hash=%zz&port=1".to_string(),
        format!("/announcer?info_hash={hash}&port=1"),
        "/".to_string(),
        String::new(),
    ] {
        let r = h.handle(&mut store, &target, &IP, true, 1, 1800);
        assert!(!matches!(r, Response::Body(_)), "{target}");
    }
    assert_eq!(store.torrent_count(), 0);
    // a missing port gets a failure body, and changes nothing either
    let r = h.handle(&mut store, &format!("/announce?info_hash={hash}"), &IP, true, 1, 1800);
    assert_eq!(
        r,
        Response::Body(
            b"d14:failure reason52:Your client forgot to send your torrent's info_hash.e".to_vec()
        )
    );
    assert_eq!(store.torrent_count(), 0);
}

#[test]
fn http_parameters_are_read_as_written() {
    let h = HttpHandler::new();
    let mut store = Store::new();
    let hash = escaped(&H);
    // a malformed `left` marks a leecher; empty parts and pairs without `=` are passed over
    let target = format!("/announce?&&flag&info_hash={hash}&port=%2B&port=x");
    assert_eq!(h.handle(&mut store, &target, &IP, true, 1, 1800), Response::BadRequest);
    let target = format!("/announce?&&flag&info_hash={hash}&port=+0080&left=x&numwant=x");
    assert!(matches!(
        h.handle(&mut store, &target, &IP, true, 1, 1800),
        Response::Body(_)
    ));
    assert_eq!(scrape_of(&store), (0, 1, 0));
    // the last value of a repeated parameter counts
    let target = format!("/announce?info_hash={hash}&port=1&port=80&left=5&left=0");
    let Response::Body(body) = h.handle(&mut store, &target, &IP, true, 1, 1801) else {
        panic!("expected a body");
    };
    let mut expected = b"d8:completei1e10:downloadedi0e10:incompletei0e".to_vec();
    expected.extend_from_slice(b"8:intervali1801e12:min intervali900e5:peers6:");
    expected.extend_from_slice(&[10, 0, 0, 1, 0, 80]);
    expected.extend_from_slice(b"6:peers60:e");
    assert_eq!(body, expected);
}

#[test]
fn http_numwant_is_capped() {
    let h = HttpHandler::new();
    let mut store = Store::new();
    let hash = escaped(&H);
    for port in 0..250u16 {
        h.handle(
            &mut store,
            &format!("/announce?info_hash={hash}&port={port}"),
            &IP,
            true,
            1,
            1800,
        );
    }
    let peers = |target: String, store: &mut Store| {
        let Response::Body(body) = h.handle(store, &target, &IP, true, 1, 1800) else {
            panic!("expected a body");
        };
        let text = String::from_utf8_lossy(&body).into_owned();
        let at = text.find("5:peers").unwrap() + 7;
        let digits: String = text[at..].chars().take_while(|c| *c != ':').collect();
        digits.parse::<usize>().unwrap() / 6
    };
    let all = peers(format!("/announce?info_hash={hash}&port=1&numwant=9999"), &mut store);
    assert_eq!(all, NUMWANT_MAX);
    let some = peers(format!("/announce?info_hash={hash}&port=1&numwant=7"), &mut store);
    assert_eq!(some, 7);
    let default = peers(format!("/announce?info_hash={hash}&port=1"), &mut store);
    assert_eq!(default, 50);
}

// --- text -------------------------------------------------------------------------------------

#[test]
fn integers_are_written_in_decimal() {
    for n in [0u64, 9, 10, 99, 100, 1_000_000_007, u64::MAX] {
        let mut out = Vec::new();
        Encoder::new(&mut out).integer(n);
        assert_eq!(out, format!("i{n}e").into_bytes());
    }
}

#[test]
fn first_bad_line_is_reported() {
    let e = parse_config("nft.set4 a\r\n# x\r\n\u{a0}l7.enable\u{2003}maybe\r\nl7.enable what\n")
        .unwrap_err();
    assert_eq!(e.line, 3);
    assert_eq!(e.message, "expected a boolean, got \"maybe\"");
    let e = parse_config("listen.udp a\"b").unwrap_err();
    assert_eq!(e.message, "invalid listen address: \"a\\\"b\"");
    let e = parse_config("udp.connid_window 4294967296").unwrap_err();
    assert_eq!(e.message, "invalid value: \"4294967296\"");
    let e = parse_config("metrics.listen 127.0.0.1").unwrap_err();
    assert_eq!(e.message, "invalid value: \"127.0.0.1\"");
}

#[test]
fn values_keep_their_text() {
    let text = "tracker.user \u{2003}jos\u{e9}  x \r\nudp.connid_window +0060\n";
    let c = parse_config(text).unwrap();
    assert_eq!(c.user.as_deref(), Some("jos\u{e9}  x"));
    assert_eq!(c.connid_window, 60);
    assert_eq!(c.workers(), 1);
    assert_eq!(parse_config("listen.udp.workers 3").unwrap().workers(), 3);
}

// --- L7 ---------------------------------------------------------------------------------------

/// Every signal silenced.
fn quiet() -> Config {
    Config {
        weight_interval: 0,
        weight_connid: 0,
        weight_peerid: 0,
        weight_bad_key: 0,
        weight_declared_ip: 0,
        weight_bad_port: 0,
        weight_fake_seeder: 0,
        weight_key_churn: 0,
        weight_peerid_churn: 0,
        weight_numwant: 0,
        weight_breadth: 0,
        weight_empty_swarm: 0,
        weight_scrape_volume: 0,
        weight_connect_spam: 0,
        decay_amount: 0,
        ..Config::default()
    }
}

fn source(a: u8, b: u8) -> [u8; 16] {
    [0, 0, 0, 0, 0, 0, 0, 0, 0, 0, 0xff, 0xff, 1, 1, a, b]
}

#[test]
fn memory_stays_within_caps() {
    let mut d = Detector::new(Config {
        max_entries: 32,
        max_offenders: 3,
        weight_connid: 1000,
        ..Config::default()
    });
    for a in 0..20u8 {
        for b in 0..32u8 {
            d.on_connid_mismatch(&source(a, b), 1000 + u32::from(a));
            assert!(d.tracked_sources() <= 32);
            assert!(d.offenders() <= 3);
        }
    }
    assert_eq!(d.tracked_sources(), 32);
    assert_eq!(d.offenders(), 3);
    let mut d = Detector::new(Config {
        max_entries: 0,
        max_offenders: 0,
        weight_connid: 1000,
        ..Config::default()
    });
    for a in 0..5u8 {
        // with no place to remember it in, every offence is a first one
        assert!(matches!(
            d.on_connid_mismatch(&source(a, 0), 1000),
            Verdict::Ban { tier: 0, .. }
        ));
    }
    assert_eq!((d.tracked_sources(), d.offenders()), (0, 0));
}

#[test]
fn small_caps_are_total_caps() {
    for cap in 0..40usize {
        let mut d = Detector::new(Config {
            max_entries: cap,
            max_offenders: cap,
            weight_connid: 1000,
            ..Config::default()
        });
        for a in 0..6u8 {
            for b in 0..48u8 {
                d.on_connid_mismatch(&source(a, b), 1000 + u32::from(a));
                assert!(d.tracked_sources() <= cap);
                assert!(d.offenders() <= cap);
            }
        }
        assert_eq!(d.offenders(), cap);
        // below the number of shards every place is used
        if cap <= 16 {
            assert_eq!(d.tracked_sources(), cap);
        }
    }
}

#[test]
fn connecting_does_not_make_an_announce_fast() {
    let config = Config {
        weight_fake_seeder: 100,
        weight_bad_port: 100,
        weight_empty_swarm: 100,
        empty_swarm_threshold: 0,
        weight_breadth: 100,
        breadth_threshold: 1,
        weight_numwant: 100,
        ..quiet()
    };
    let peer = *b"-qB5000-abcdefghijkl";
    let seeder = AnnounceInfo {
        info_hash: &H,
        peer_id: &peer,
        key: 0x1234,
        declared_ip: 0,
        port: 443,
        left: 0,
        downloaded: 0,
        uploaded: 0,
        num_want: 5000,
        source_is_public: true,
        swarm_peers: 0,
    };
    let mut d = Detector::new(config);
    for round in 0..20u32 {
        let now = 1000 + round * 1800;
        assert_eq!(d.on_connect(&IP, now), Verdict::Allow);
        assert_eq!(d.on_announce(&IP, &seeder, now), Verdict::Allow);
        assert_eq!(d.on_scrape(&IP, 1, now + 1), Verdict::Allow);
    }
    // announcing again at once is what is fast
    let now = 1000 + 19 * 1800 + 299;
    assert!(matches!(
        d.on_announce(&IP, &seeder, now),
        Verdict::Ban { .. }
    ));
    // and at the gap itself it no longer is
    let mut d = Detector::new(config);
    assert_eq!(d.on_announce(&IP, &seeder, 1000), Verdict::Allow);
    assert_eq!(d.on_announce(&IP, &seeder, 1300), Verdict::Allow);
}

#[test]
fn slow_histories_are_judged_alike() {
    let config = Config {
        weight_key_churn: 40,
        weight_fake_seeder: 100,
        weight_numwant: 100,
        weight_bad_port: 100,
        ..quiet()
    };
    let peer = *b"-qB5000-abcdefghijkl";
    let plain = AnnounceInfo {
        info_hash: &H,
        peer_id: &peer,
        key: 1,
        declared_ip: 0,
        port: 6881,
        left: 9,
        downloaded: 9,
        uploaded: 9,
        num_want: 10,
        source_is_public: true,
        swarm_peers: 9,
    };
    let odd = AnnounceInfo {
        port: 1,
        left: 0,
        downloaded: 0,
        uploaded: 0,
        num_want: 5000,
        swarm_peers: 0,
        ..plain
    };
    let (mut a, mut b) = (Detector::new(config), Detector::new(config));
    for round in 0..6u32 {
        let (now, key) = (1000 + round * 300, round + 1);
        let first = a.on_announce(&IP, &AnnounceInfo { key, ..plain }, now);
        let second = b.on_announce(&IP, &AnnounceInfo { key, ..odd }, now);
        assert_eq!(first, second);
        // churning the key scores however slow it is
        assert_eq!(matches!(first, Verdict::Ban { .. }), round == 3);
    }
}

#[test]
fn tiers_count_own_offences() {
    let mut d = Detector::new(Config {
        weight_connid: 1000,
        reban_cooldown: 10,
        ban_tiers: 3,
        max_offenders: 4,
        ..quiet()
    });
    let mut tiers = Vec::new();
    for round in 0..5u32 {
        // three others offend in between
        for other in 1..4u8 {
            d.on_connid_mismatch(&source(other, other), 1000 + round * 20);
        }
        if let Verdict::Ban { tier, .. } = d.on_connid_mismatch(&IP, 1000 + round * 20) {
            tiers.push(tier);
        }
    }
    assert_eq!(tiers, vec![0, 1, 2, 2, 2]);
    assert_eq!(d.offenders(), 4);
}

#[test]
fn texts_combine_line_by_line() {
    let a = "listen.udp 1.1.1.1:1\nnft.table ip a\nl7.enable 1\nl7.max_entries 5";
    let b = "listen.udp 2.2.2.2:2\nnft.table ip b\nl7.ban_duration 7\n";
    let joined = parse_config(&format!("{a}\n{b}")).unwrap();
    let (first, second) = (parse_config(a).unwrap(), parse_config(b).unwrap());
    assert_eq!(
        joined.udp_listen,
        [first.udp_listen.clone(), second.udp_listen.clone()].concat()
    );
    assert_eq!(joined.nft_table, "ip b");
    assert!(joined.l7_enable);
    assert_eq!((joined.l7.max_entries, joined.l7.ban_duration), (5, 7));
    assert_eq!(joined.nft_set4, first.nft_set4);
    // a failure of the second text moves by the lines before it
    let e = parse_config(&format!("{a}\nnft.enable maybe")).unwrap_err();
    assert_eq!(e.line, 5);
    assert_eq!(e.message, parse_config("nft.enable maybe").unwrap_err().message);
}

#[test]
fn an_announce_counts_a_new_torrent() {
    let mut s = Store::new();
    let mut out = Vec::new();
    for (i, hash) in [[1u8; HASH_LEN], [2; HASH_LEN], [1; HASH_LEN]].iter().enumerate() {
        let r = s.announce_v4(hash, key(i as u8), flag::LEECHING, 9, 1, &mut out);
        assert_eq!(r, s.scrape(hash));
    }
    assert_eq!(s.torrent_count(), 2);
}

#[test]
fn the_least_recently_seen_makes_room() {
    let mut d = Detector::new(Config {
        max_entries: 32,
        weight_connid: 60,
        decay_amount: 0,
        ..Config::default()
    });
    // two sources of one shard, the first seen last
    d.on_connid_mismatch(&source(1, 0), 1000);
    d.on_connid_mismatch(&source(2, 0), 1001);
    d.on_connect(&source(1, 0), 1002);
    // a third takes the room of the second; the first is remembered and banned
    d.on_connect(&source(3, 0), 1003);
    assert!(matches!(
        d.on_connid_mismatch(&source(1, 0), 1004),
        Verdict::Ban { .. }
    ));
    assert_eq!(d.on_connid_mismatch(&source(2, 0), 1004), Verdict::Allow);
}

#[test]
fn being_seen_does_not_stop_decay() {
    let config = Config {
        weight_connid: 60,
        decay_amount: 50,
        decay_interval: 60,
        ..Config::default()
    };
    let mut seen = Detector::new(config);
    let mut unseen = Detector::new(config);
    let ip = source(1, 1);
    seen.on_connid_mismatch(&ip, 1000);
    unseen.on_connid_mismatch(&ip, 1000);
    // 59 seconds and 61 seconds add up to two whole intervals
    seen.on_connect(&ip, 1059);
    assert_eq!(seen.on_connid_mismatch(&ip, 1120), Verdict::Allow);
    assert_eq!(unseen.on_connid_mismatch(&ip, 1120), Verdict::Allow);
    // one interval is not enough
    let mut soon = Detector::new(config);
    soon.on_connid_mismatch(&ip, 1000);
    assert_eq!(soon.on_connid_mismatch(&ip, 1060), Verdict::Allow); // 10 + 60
    assert!(matches!(
        soon.on_connid_mismatch(&ip, 1061),
        Verdict::Ban { .. }
    ));
}

#[test]
fn ban_is_suppressed_until_the_cooldown_ends() {
    let mut d = Detector::new(Config {
        weight_connid: 500,
        decay_amount: 0,
        reban_cooldown: 100,
        ..Config::default()
    });
    let ip = source(1, 1);
    assert_eq!(
        d.on_connid_mismatch(&ip, 1000),
        Verdict::Ban {
            duration: 3600,
            tier: 0
        }
    );
    assert_eq!(d.on_scrape(&ip, 75, 1099), Verdict::Allow);
    // another source is judged on its own
    assert!(matches!(
        d.on_connid_mismatch(&source(2, 1), 1099),
        Verdict::Ban { tier: 0, .. }
    ));
    assert!(matches!(
        d.on_connect(&ip, 1100),
        Verdict::Ban { tier: 1, .. }
    ));
}

#[test]
fn all_signals_add_up() {
    let hash = [1u8; 20];
    let known = *b"-TR4000-abcdefghijkl";
    let config = Config {
        score_ban_threshold: 40 + 60,
        ..Config::default()
    };
    let info = AnnounceInfo {
        info_hash: &hash,
        peer_id: &known,
        key: 0,
        declared_ip: 1,
        port: 6881,
        left: 1,
        downloaded: 1,
        uploaded: 1,
        num_want: -1,
        source_is_public: true,
        swarm_peers: 5,
    };
    let mut d = Detector::new(config);
    assert!(matches!(
        d.on_announce(&source(1, 1), &info, 1000),
        Verdict::Ban { .. }
    ));
    // one point more and it is not enough
    let mut d = Detector::new(Config {
        score_ban_threshold: 101,
        ..config
    });
    assert_eq!(d.on_announce(&source(1, 1), &info, 1000), Verdict::Allow);
    assert!(Config::default().weights_fit());
    assert!(!Config {
        weight_bad_key: u32::MAX,
        ..Config::default()
    }
    .weights_fit());
}
