use bluefrog::metrics::{Counter, Gauges, Metrics};

#[test]
fn counters_increment_and_render() {
    let mut m = Metrics::new();
    m.inc(Counter::UdpAnnounce);
    m.inc(Counter::UdpAnnounce);
    m.inc(Counter::L7Ban);
    let text = m.render(Gauges {
        torrents: 42,
        seeders: 30,
        leechers: 12,
        l7_tracked: 7,
        l7_offenders: 3,
    });
    assert!(text.contains("# TYPE bf_udp_announces_total counter\nbf_udp_announces_total 2\n"));
    assert!(text.contains("bf_l7_bans_total 1\n"));
    assert!(text.contains("bf_l7_bans_escalated_total 0\n"));
    assert!(text.contains("# TYPE bf_torrents gauge\nbf_torrents 42\n"));
    assert!(text.contains("# TYPE bf_seeders gauge\nbf_seeders 30\n"));
    assert!(text.contains("bf_leechers 12\n"));
    assert!(text.contains("bf_l7_tracked_sources 7\n"));
    assert!(text.contains("# TYPE bf_l7_offenders gauge\nbf_l7_offenders 3\n"));
}

#[test]
fn every_counter_is_addressable() {
    let mut m = Metrics::default();
    for c in [
        Counter::UdpAnnounce,
        Counter::UdpScrape,
        Counter::UdpConnect,
        Counter::UdpConnidMismatch,
        Counter::UdpDropped,
        Counter::HttpAnnounce,
        Counter::HttpScrape,
        Counter::Error,
        Counter::L7Flagged,
        Counter::L7Ban,
        Counter::L7BanEscalated,
        Counter::NftError,
    ] {
        m.inc(c);
        assert_eq!(m.field(c), 1);
    }
}

#[test]
fn lib_derives() {
    assert_ne!(Counter::UdpAnnounce, Counter::Error);
    assert!(format!("{:?}", Counter::L7Ban).contains("L7Ban"));
    let g = Gauges::default();
    assert_eq!(
        g,
        Gauges {
            torrents: 0,
            seeders: 0,
            leechers: 0,
            l7_tracked: 0,
            l7_offenders: 0
        }
    );
    assert!(format!("{g:?}").contains("Gauges"));
    assert!(format!("{:?}", Metrics::new()).contains("Metrics"));
}
