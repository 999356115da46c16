use bluefrog::addr::IpAddr;
use bluefrog::bencode::failure;
use bluefrog::connid::ConnId;
use bluefrog::http::{HttpHandler, Response};
use bluefrog::l7::{Config, Detector, Verdict};
use bluefrog::metrics::{Counter, Gauges, Metrics};
use bluefrog::nft::{BanSets, Family};
use bluefrog::service::{
    announce_interval, clock_minutes, clock_secs, deny_banned, feed_l7, gauges, http_reply,
    interval_with, record_udp_metric, serve_datagram, serve_http, serve_metrics, settle_verdict,
    swarm_peers, BanOrder, HttpReply, Switches, INTERVAL_MIN, INTERVAL_SPREAD,
};
use bluefrog::store::{Store, Totals};
use bluefrog::udp::{parse, PROTOCOL_ID};
use bluefrog::udp_handler::{Action, Handler};
use bluefrog::version::version;

const IP16: [u8; 16] = [0, 0, 0, 0, 0, 0, 0, 0, 0, 0, 0xff, 0xff, 8, 8, 8, 8];
const IP: IpAddr = IpAddr::V4([8, 8, 8, 8]);

fn header(action: u32, cid: u64, len: usize) -> Vec<u8> {
    let mut p = vec![0u8; len];
    p[0..8].copy_from_slice(&cid.to_be_bytes());
    p[8..12].copy_from_slice(&action.to_be_bytes());
    p
}

/// An announce with the given `IP` and `key` fields, from a known client.
fn announce(declared_ip: u32, key: u32) -> Vec<u8> {
    let mut p = header(1, 7, 98);
    p[36..56].copy_from_slice(b"-qB5000-abcdefghijkl");
    p[56..64].copy_from_slice(&9u64.to_be_bytes());
    p[84..88].copy_from_slice(&declared_ip.to_be_bytes());
    p[88..92].copy_from_slice(&key.to_be_bytes());
    p[92..96].copy_from_slice(&(-1i32).to_be_bytes());
    p[96..98].copy_from_slice(&6881u16.to_be_bytes());
    p
}

fn quiet() -> Config {
    Config {
        weight_interval: 0,
        weight_connid: 0,
        weight_peerid: 0,
        weight_bad_key: 0,
        weight_declared_ip: 0,
        weight_bad_port: 0,
        weight_fake_seeder: 0,
        weight_key_churn: 0,
        weight_peerid_churn: 0,
        weight_numwant: 0,
        weight_breadth: 0,
        weight_empty_swarm: 0,
        weight_scrape_volume: 0,
        weight_connect_spam: 0,
        decay_amount: 0,
        ..Config::default()
    }
}

#[test]
fn intervals_are_jittered_within_the_spread() {
    assert_eq!((INTERVAL_MIN, INTERVAL_SPREAD), (1620, 360));
    assert_eq!(interval_with(0), 1620);
    assert_eq!(interval_with(359), 1979);
    let mut seen = Vec::new();
    for _ in 0..500 {
        let i = announce_interval();
        assert!((1620..1980).contains(&i));
        if !seen.contains(&i) {
            seen.push(i);
        }
    }
    assert!(seen.len() > 1);
}

#[test]
fn clocks_stop_at_their_last_value() {
    assert_eq!(clock_secs(5), 5);
    assert_eq!(clock_secs(u64::from(u32::MAX)), u32::MAX);
    assert_eq!(clock_secs(u64::MAX), u32::MAX);
    assert_eq!(clock_minutes(119), 1);
    assert_eq!(clock_minutes(u64::MAX), u32::MAX);
}

#[test]
fn datagrams_are_counted_by_kind() {
    let connect = header(0, PROTOCOL_ID, 16);
    let announce = announce(0, 1);
    let scrape = header(2, 0, 36);
    let short = [0u8; 4];
    let mut m = Metrics::new();
    record_udp_metric(&mut m, &parse(&connect), &Action::Reply(16));
    record_udp_metric(&mut m, &parse(&announce), &Action::Reply(20));
    record_udp_metric(&mut m, &parse(&scrape), &Action::Reply(20));
    record_udp_metric(&mut m, &parse(&announce), &Action::ConnidMismatch);
    record_udp_metric(&mut m, &parse(&short), &Action::Drop);
    record_udp_metric(&mut m, &parse(&short), &Action::Reply(0));
    assert_eq!(m.field(Counter::UdpConnect), 1);
    assert_eq!(m.field(Counter::UdpAnnounce), 1);
    assert_eq!(m.field(Counter::UdpScrape), 1);
    assert_eq!(m.field(Counter::UdpConnidMismatch), 1);
    assert_eq!(m.field(Counter::UdpDropped), 2);
}

#[test]
fn swarm_size_comes_from_the_reply() {
    let mut reply = vec![0u8; 26];
    reply[12..16].copy_from_slice(&3u32.to_be_bytes());
    reply[16..20].copy_from_slice(&4u32.to_be_bytes());
    assert_eq!(swarm_peers(&reply), 7);
    reply[12..16].copy_from_slice(&u32::MAX.to_be_bytes());
    assert_eq!(swarm_peers(&reply), u32::MAX);
    assert_eq!(swarm_peers(&reply[..19]), 0);
}

#[test]
fn feed_reads_key_and_declared_address() {
    // the `key` field
    let mut d = Detector::new(Config {
        weight_bad_key: 100,
        ..quiet()
    });
    let good = announce(0, 0x1234);
    assert_eq!(
        feed_l7(&mut d, &good, IP, &IP16, &Action::Reply(20), &[0; 20], 1000),
        Verdict::Allow
    );
    let bad = announce(0, 0);
    assert!(matches!(
        feed_l7(&mut d, &bad, IP, &IP16, &Action::Reply(20), &[0; 20], 1000),
        Verdict::Ban { tier: 0, .. }
    ));
    // the `IP` field, from a public and from a private source
    let declared = announce(0x0a00_0001, 0x1234);
    let config = Config {
        weight_declared_ip: 100,
        ..quiet()
    };
    let mut d = Detector::new(config);
    assert!(matches!(
        feed_l7(&mut d, &declared, IP, &IP16, &Action::Reply(20), &[0; 20], 1000),
        Verdict::Ban { .. }
    ));
    let mut d = Detector::new(config);
    let private = IpAddr::V4([10, 0, 0, 1]);
    assert_eq!(
        feed_l7(&mut d, &declared, private, &IP16, &Action::Reply(20), &[0; 20], 1000),
        Verdict::Allow
    );
}

#[test]
fn feed_tells_requests_apart() {
    let config = Config {
        weight_connid: 100,
        weight_scrape_volume: 200,
        weight_connect_spam: 300,
        connect_burst: 0,
        scrape_volume_threshold: 2,
        ..quiet()
    };
    let connect = header(0, PROTOCOL_ID, 16);
    let scrape = header(2, 0, 16 + 40);
    let small = header(2, 0, 16 + 20);
    let reply = Action::Reply(0);
    let mut d = Detector::new(config);
    assert_eq!(feed_l7(&mut d, &[0; 3], IP, &IP16, &Action::Drop, &[], 5), Verdict::Allow);
    assert_eq!(d.tracked_sources(), 0);
    assert_eq!(feed_l7(&mut d, &small, IP, &IP16, &reply, &[], 5), Verdict::Allow);
    assert!(matches!(
        feed_l7(&mut d, &scrape, IP, &IP16, &reply, &[], 5),
        Verdict::Ban { .. }
    ));
    let mut d = Detector::new(config);
    assert!(matches!(
        feed_l7(&mut d, &connect, IP, &IP16, &reply, &[], 5),
        Verdict::Ban { .. }
    ));
    let mut d = Detector::new(config);
    assert!(matches!(
        feed_l7(&mut d, &scrape, IP, &IP16, &Action::ConnidMismatch, &[], 5),
        Verdict::Ban { .. }
    ));
}

#[test]
fn feed_counts_empty_swarms_from_the_reply() {
    let config = Config {
        weight_empty_swarm: 100,
        empty_swarm_threshold: 0,
        ..quiet()
    };
    let a = announce(0, 0x1234);
    let mut crowded = vec![0u8; 20];
    crowded[15] = 2;
    let mut d = Detector::new(config);
    for _ in 0..5 {
        assert_eq!(
            feed_l7(&mut d, &a, IP, &IP16, &Action::Reply(20), &crowded, 5),
            Verdict::Allow
        );
    }
    let mut alone = vec![0u8; 20];
    alone[19] = 1;
    assert!(matches!(
        feed_l7(&mut d, &a, IP, &IP16, &Action::Reply(20), &alone, 5),
        Verdict::Ban { .. }
    ));
}

#[test]
fn verdicts_are_counted_and_ordered() {
    let mut m = Metrics::new();
    assert_eq!(settle_verdict(&mut m, &Verdict::Allow, true), None);
    let first = Verdict::Ban {
        duration: 60,
        tier: 0,
    };
    assert_eq!(
        settle_verdict(&mut m, &first, true),
        Some(BanOrder {
            duration: 60,
            tier: 0
        })
    );
    let repeat = Verdict::Ban {
        duration: 60,
        tier: 2,
    };
    assert_eq!(settle_verdict(&mut m, &repeat, false), None);
    // both were flagged and the second escalated, but only the first was banned into the nft set
    assert_eq!(m.field(Counter::L7Flagged), 2);
    assert_eq!(m.field(Counter::L7Ban), 1);
    assert_eq!(m.field(Counter::L7BanEscalated), 1);
}

#[test]
fn a_ban_denies_the_reply() {
    let ban = Verdict::Ban {
        duration: 60,
        tier: 0,
    };
    assert_eq!(deny_banned(Action::Reply(20), &ban), Action::Drop);
    assert_eq!(deny_banned(Action::Reply(20), &Verdict::Allow), Action::Reply(20));
    assert_eq!(deny_banned(Action::ConnidMismatch, &ban), Action::ConnidMismatch);
    assert_eq!(deny_banned(Action::Drop, &ban), Action::Drop);
}

#[test]
fn http_replies_and_counters() {
    let url = Some("https://example.com/".to_string());
    let mut m = Metrics::new();
    let ok = http_reply(&mut m, "/announce?x", Response::Body(vec![1, 2]), &url);
    assert_eq!(
        ok,
        HttpReply {
            status: 200,
            location: None,
            body: vec![1, 2]
        }
    );
    http_reply(&mut m, "/scrape", Response::Body(vec![]), &url);
    http_reply(&mut m, "/", Response::Body(vec![]), &url);
    let redirect = http_reply(&mut m, "/", Response::Redirect, &url);
    assert_eq!(redirect.status, 302);
    assert_eq!(redirect.location.as_deref(), Some("https://example.com/"));
    assert!(redirect.body.is_empty());
    let bare = http_reply(&mut m, "/", Response::Redirect, &None);
    assert_eq!(bare.location.as_deref(), Some(""));
    let bad = http_reply(&mut m, "/announce", Response::BadRequest, &url);
    assert_eq!((bad.status, bad.body), (400, b"400".to_vec()));
    let missing = http_reply(&mut m, "/x", Response::NotFound, &url);
    assert_eq!((missing.status, missing.body), (404, b"404".to_vec()));
    let mut body = Vec::new();
    failure(&mut body, b"why");
    let failed = http_reply(&mut m, "/announce", Response::Body(body.clone()), &url);
    assert_eq!((failed.status, failed.body), (200, body));
    // the failure is an announce that was answered, and an error
    assert_eq!(m.field(Counter::HttpAnnounce), 2);
    assert_eq!(m.field(Counter::HttpScrape), 1);
    assert_eq!(m.field(Counter::Error), 3);
}

#[test]
fn gauges_are_sampled() {
    let totals = Totals {
        torrents: 1,
        seeders: 2,
        leechers: 3,
    };
    assert_eq!(
        gauges(totals, 4, 5),
        Gauges {
            torrents: 1,
            seeders: 2,
            leechers: 3,
            l7_tracked: 4,
            l7_offenders: 5
        }
    );
}

#[test]
fn ban_sets_of_a_table() {
    let sets = |spec: &str| BanSets::new(spec, "b4".to_string(), "b6".to_string());
    let s = sets("inet filter");
    assert_eq!((s.family, s.table.as_str()), (Family::Inet, "filter"));
    let s = sets("  ip\u{2003}mangle  extra");
    assert_eq!((s.family, s.table.as_str()), (Family::Ipv4, "mangle"));
    let s = sets("ip6");
    assert_eq!((s.family, s.table.as_str()), (Family::Ipv6, "filter"));
    let s = sets("");
    assert_eq!((s.family, s.table.as_str()), (Family::Inet, "filter"));
    assert_eq!(s.set_for(IpAddr::V4([1, 2, 3, 4])), "b4");
    assert_eq!(s.set_for(IpAddr::V6([0; 16])), "b6");
}

#[test]
fn reported_version() {
    assert_eq!(version(Some("v1.2"), Some("abc"), Some("0.1")), "v1.2");
    assert_eq!(version(Some("vx"), Some(" v1-3-gabc\n"), Some("0.1")), "v1-3-gabc");
    assert_eq!(version(Some("v"), Some(" \n"), Some("0.1")), "0.1");
    assert_eq!(version(Some("main"), None, None), "unknown");
    assert_eq!(version(None, None, Some("0.1")), "0.1");
}

#[test]
fn a_datagram_is_served_from_end_to_end() {
    let handler = Handler::new(ConnId::new([1u8; 32], 120));
    let mut store = Store::new();
    let mut d = Detector::new(Config {
        weight_bad_key: 100,
        ..quiet()
    });
    let mut m = Metrics::new();
    let mut out = Vec::new();
    let on = Switches {
        l7_enable: true,
        nft_enable: true,
    };
    // a dual-stack socket hands IPv4 sources over mapped into IPv6
    let source = IpAddr::V6(IP16);
    let mut serve = |buf: &[u8], switches: Switches, out: &mut Vec<u8>| {
        serve_datagram(
            &handler, &mut store, &mut d, &mut m, switches, buf, source, 1000, 1800, out,
        )
    };
    let connect = header(0, PROTOCOL_ID, 16);
    assert_eq!(serve(&connect, on, &mut out), (Action::Reply(16), None));
    let cid = u64::from_be_bytes(out[8..16].try_into().unwrap());
    let mut honest = announce(0, 0x1234);
    honest[0..8].copy_from_slice(&cid.to_be_bytes());
    assert_eq!(serve(&honest, on, &mut out), (Action::Reply(26), None));
    assert_eq!(out[20..26], [8, 8, 8, 8, 0x1a, 0xe1]);
    let mut rude = announce(0, 0);
    rude[0..8].copy_from_slice(&cid.to_be_bytes());
    // with the detector off, or bans off, nobody is to be banned
    let off = Switches {
        l7_enable: false,
        nft_enable: true,
    };
    assert_eq!(serve(&rude, off, &mut out), (Action::Reply(26), None));
    assert_eq!(
        serve(&rude, on, &mut out),
        (
            Action::Drop,
            Some(BanOrder {
                duration: 3600,
                tier: 0
            })
        )
    );
    let forged = announce(0, 0x1234);
    assert_eq!(serve(&forged, on, &mut out), (Action::ConnidMismatch, None));
    assert_eq!(serve(&[1, 2, 3], on, &mut out), (Action::Drop, None));
    assert_eq!(m.field(Counter::UdpConnect), 1);
    assert_eq!(m.field(Counter::UdpAnnounce), 3);
    assert_eq!(m.field(Counter::UdpConnidMismatch), 1);
    assert_eq!(m.field(Counter::UdpDropped), 1);
    assert_eq!(m.field(Counter::L7Flagged), 1);
    assert_eq!(m.field(Counter::L7Ban), 1);
    assert_eq!(store.totals().seeders, 1);
    assert_eq!(d.tracked_sources(), 1);
}

#[test]
fn an_http_request_is_served_from_end_to_end() {
    let mut store = Store::new();
    let mut m = Metrics::new();
    let url = Some("https://example.com/".to_string());
    let target = "/announce?info_hash=AAAAAAAAAAAAAAAAAAAA&port=80&left=0";
    let mut serve = |target: &str| {
        serve_http(
            &HttpHandler::new(),
            &mut store,
            &mut m,
            target,
            IpAddr::V6(IP16),
            600,
            1800,
            &url,
        )
    };
    let r = serve(target);
    assert_eq!(r.status, 200);
    assert!(r.body.ends_with(b"5:peers6:\x08\x08\x08\x08\x00\x506:peers60:e"));
    assert_eq!(serve("/").status, 302);
    assert_eq!(serve("/scrape?info_hash=A").status, 400);
    assert_eq!(serve("/stats").status, 404);
    let r = serve("/announce?port=6881");
    assert_eq!(r.status, 200);
    assert!(r.body.starts_with(b"d14:failure reason"));
    assert_eq!(m.field(Counter::HttpAnnounce), 2);
    assert_eq!(m.field(Counter::Error), 3);
    assert_eq!(store.totals().torrents, 1);
}

#[test]
fn metrics_are_for_the_machine_itself() {
    let store = Store::new();
    let d = Detector::new(quiet());
    let m = Metrics::new();
    let page = serve_metrics(&store, &d, &m, IpAddr::V4([127, 0, 0, 1])).unwrap();
    assert!(page.contains("bf_torrents 0\n"));
    assert!(page.starts_with("# TYPE bf_udp_announces_total counter\nbf_udp_announces_total 0\n"));
    assert!(page.ends_with("# TYPE bf_l7_offenders gauge\nbf_l7_offenders 0\n"));
    assert_eq!(serve_metrics(&store, &d, &m, IP), None);
}
