use bluefrog::addr::{parse_socket, SocketAddr};
use bluefrog::config::{failure, parse, Config, ParseError, DEFAULT_PORT};

fn socket(s: &str) -> SocketAddr {
    parse_socket(s.as_bytes()).unwrap()
}

#[test]
fn defaults_and_comments_and_unknown() {
    let c =
        parse("# a comment\n\n   \naccess.whitelist /x\nlivesync.cluster.node_ip 1.2.3.4\n")
            .unwrap();
    assert_eq!(c, Config::default());
    assert_eq!(c.connid_window, 120);
    assert!(c.udp_listen.is_empty());
}

#[test]
fn parses_a_typical_config() {
    let text = "\
listen.udp.workers 16
listen.udp.rcvbuf 8388608
listen.tcp [::]:27108
listen.udp [::]:2710
access.stats 127.0.0.0/8
tracker.rootdir /etc/bluefrog
tracker.redirect_url https://example.com/
";
    let c = parse(text).unwrap();
    assert_eq!(c.udp_workers, 16);
    assert_eq!(c.udp_rcvbuf, Some(8_388_608));
    assert_eq!(c.tcp_listen, vec![socket("[::]:27108")]);
    assert_eq!(c.udp_listen, vec![socket("[::]:2710")]);
    // `access.stats` is an ignored directive (localhost-only metrics is enforced in code).
    assert_eq!(c.rootdir.as_deref(), Some("/etc/bluefrog"));
    assert_eq!(c.redirect_url.as_deref(), Some("https://example.com/"));
}

#[test]
fn tcp_udp_and_bare_address_default_port() {
    let c = parse("listen.tcp_udp 0.0.0.0\n").unwrap();
    let expected = socket(&format!("0.0.0.0:{DEFAULT_PORT}"));
    assert_eq!(c.udp_listen, vec![expected]);
    assert_eq!(c.tcp_listen, vec![expected]);
}

#[test]
fn l7_and_nft_and_metrics_and_user_directives() {
    let text = "\
udp.connid_window 3600
tracker.user nobody
l7.enable yes
l7.reannounce_min_interval 30
l7.score_ban_threshold 200
l7.ban_duration 7200
l7.max_entries 500000
nft.enable 1
nft.table inet foo
nft.set4 bans4
nft.set6 bans6
metrics.listen 127.0.0.1:9100
";
    let c = parse(text).unwrap();
    assert_eq!(c.connid_window, 3600);
    assert_eq!(c.user.as_deref(), Some("nobody"));
    assert!(c.l7_enable);
    assert_eq!(c.l7.reannounce_min_interval, 30);
    assert_eq!(c.l7.score_ban_threshold, 200);
    assert_eq!(c.l7.ban_duration, 7200);
    assert_eq!(c.l7.max_entries, 500_000);
    assert!(c.nft_enable);
    assert_eq!(c.nft_table, "inet foo");
    assert_eq!(c.nft_set4, "bans4");
    assert_eq!(c.nft_set6, "bans6");
    assert_eq!(c.metrics_listen, Some(socket("127.0.0.1:9100")));
}

#[test]
fn boolean_false_forms() {
    assert!(!parse("l7.enable 0\n").unwrap().l7_enable);
    assert!(!parse("nft.enable false\n").unwrap().nft_enable);
    assert!(!parse("nft.enable no\n").unwrap().nft_enable);
}

#[test]
fn errors_carry_line_numbers() {
    assert_eq!(
        parse("\n\nlisten.udp.workers abc\n").unwrap_err(),
        ParseError {
            line: 3,
            message: "invalid value: \"abc\"".to_string()
        }
    );
    assert_eq!(parse("listen.udp notanaddr\n").unwrap_err().line, 1);
    assert_eq!(parse("listen.tcp bad\n").unwrap_err().line, 1);
    assert_eq!(parse("listen.tcp_udp bad\n").unwrap_err().line, 1);
    assert_eq!(parse("l7.enable maybe\n").unwrap_err().line, 1);
    assert_eq!(parse("metrics.listen nope\n").unwrap_err().line, 1);
    assert_eq!(parse("listen.udp.rcvbuf x\n").unwrap_err().line, 1);
}

#[test]
fn key_without_value_is_handled() {
    // a bare key (no value) parses; string fields become empty
    let c = parse("nft.set4\n").unwrap();
    assert_eq!(c.nft_set4, "");
}

#[test]
fn derives() {
    let c = Config::default();
    assert_eq!(c, c.clone());
    assert!(format!("{c:?}").contains("Config"));
    let e = ParseError {
        line: 1,
        message: "x".to_string(),
    };
    assert_ne!(
        e,
        ParseError {
            line: 2,
            message: "x".to_string()
        }
    );
    assert!(format!("{e:?}").contains("ParseError"));
}

#[test]
fn failure_joins_what_was_wrong_and_the_value() {
    let e = failure("invalid value: ", "\"x\"", 7);
    assert_eq!(e.line, 7);
    assert_eq!(e.message, "invalid value: \"x\"");
}
