use bluefrog::addr::{
    canonical_ip, ip_to_16, is_loopback, is_public, parse_ip, parse_socket, IpAddr, SocketAddr,
};

fn ip(s: &str) -> Option<IpAddr> {
    parse_ip(s.as_bytes())
}

fn v6(groups: [u16; 8]) -> [u8; 16] {
    let mut o = [0u8; 16];
    for (i, g) in groups.iter().enumerate() {
        o[2 * i..2 * i + 2].copy_from_slice(&g.to_be_bytes());
    }
    o
}

#[test]
fn dotted_addresses() {
    assert_eq!(ip("0.0.0.0"), Some(IpAddr::V4([0, 0, 0, 0])));
    assert_eq!(ip("255.254.3.10"), Some(IpAddr::V4([255, 254, 3, 10])));
    for bad in [
        "", "1", "1.2.3", "1.2.3.4.5", "256.1.1.1", "01.2.3.4", "1.2.3.04", "1.2.3.4 ", " 1.2.3.4",
        "1..2.3", "1.2.3.", ".1.2.3.4", "+1.2.3.4", "0001.2.3.4", "a.b.c.d", "1.2.3.4:80",
    ] {
        assert_eq!(ip(bad), None, "{bad}");
    }
}

#[test]
fn colon_addresses() {
    assert_eq!(ip("::"), Some(IpAddr::V6([0; 16])));
    assert_eq!(ip("::1"), Some(IpAddr::V6(v6([0, 0, 0, 0, 0, 0, 0, 1]))));
    assert_eq!(ip("fe80::"), Some(IpAddr::V6(v6([0xfe80, 0, 0, 0, 0, 0, 0, 0]))));
    assert_eq!(
        ip("2001:db8::8a2e:370:7334"),
        Some(IpAddr::V6(v6([0x2001, 0xdb8, 0, 0, 0, 0x8a2e, 0x370, 0x7334])))
    );
    assert_eq!(
        ip("1:2:3:4:5:6:7:8"),
        Some(IpAddr::V6(v6([1, 2, 3, 4, 5, 6, 7, 8])))
    );
    assert_eq!(
        ip("1:2:3:4:5:6:7::"),
        Some(IpAddr::V6(v6([1, 2, 3, 4, 5, 6, 7, 0])))
    );
    assert_eq!(
        ip("::ffff:10.0.0.1"),
        Some(IpAddr::V6(v6([0, 0, 0, 0, 0, 0xffff, 0x0a00, 0x0001])))
    );
    assert_eq!(
        ip("1:2:3:4:5:6:9.8.7.6"),
        Some(IpAddr::V6(v6([1, 2, 3, 4, 5, 6, 0x0908, 0x0706])))
    );
    assert_eq!(ip("FFFF::00aB"), Some(IpAddr::V6(v6([0xffff, 0, 0, 0, 0, 0, 0, 0xab]))));
    for bad in [
        ":", ":::", "1:2:3:4:5:6:7", "1:2:3:4:5:6:7:8:9", "1:2:3:4:5:6:7:8::", "1::2::3", "12345::",
        "g::", "1.2.3.4::", "1:2:3:4:5:6:7:1.2.3.4", "::1.2.3", "[::1]", "::1%3", "1:", ":1",
    ] {
        assert_eq!(ip(bad), None, "{bad}");
    }
}

#[test]
fn socket_addresses() {
    assert_eq!(
        parse_socket(b"127.0.0.1:9100"),
        Some(SocketAddr::V4 {
            ip: [127, 0, 0, 1],
            port: 9100
        })
    );
    assert_eq!(
        parse_socket(b"1.2.3.4:00080"),
        Some(SocketAddr::V4 {
            ip: [1, 2, 3, 4],
            port: 80
        })
    );
    assert_eq!(
        parse_socket(b"[::1]:65535"),
        Some(SocketAddr::V6 {
            ip: v6([0, 0, 0, 0, 0, 0, 0, 1]),
            port: 65535,
            scope_id: 0
        })
    );
    assert_eq!(
        parse_socket(b"[fe80::1%12]:1"),
        Some(SocketAddr::V6 {
            ip: v6([0xfe80, 0, 0, 0, 0, 0, 0, 1]),
            port: 1,
            scope_id: 12
        })
    );
    for bad in [
        "1.2.3.4", "1.2.3.4:", "1.2.3.4:65536", "1.2.3.4:+1", "::1:80", "[::1]", "[::1]:",
        "[::1:80", "[1.2.3.4]:80", "[::1%]:80", "[::1%4294967296]:80", "1.2.3.4:80x", "",
    ] {
        assert_eq!(parse_socket(bad.as_bytes()), None, "{bad}");
    }
}

#[test]
fn mapped_addresses_are_ipv4() {
    let v4 = IpAddr::V4([10, 0, 0, 7]);
    let mapped = ip_to_16(v4);
    assert_eq!(mapped, [0, 0, 0, 0, 0, 0, 0, 0, 0, 0, 0xff, 0xff, 10, 0, 0, 7]);
    assert_eq!(canonical_ip(IpAddr::V6(mapped)), v4);
    assert_eq!(canonical_ip(v4), v4);
    let plain = IpAddr::V6(v6([0x2001, 0xdb8, 0, 0, 0, 0xffff, 0x0a00, 7]));
    assert_eq!(canonical_ip(plain), plain);
    assert_eq!(ip_to_16(plain), v6([0x2001, 0xdb8, 0, 0, 0, 0xffff, 0x0a00, 7]));
}

#[test]
fn public_addresses() {
    for public in [
        "8.8.8.8", "172.15.0.1", "172.32.0.1", "11.0.0.1", "192.0.3.1", "0.0.0.1",
        "255.255.255.254", "2001:db8::1", "fec0::1", "fbff::1", "::2",
    ] {
        assert!(is_public(ip(public).unwrap()), "{public}");
    }
    for reserved in [
        "10.1.2.3", "172.16.0.1", "172.31.255.255", "192.168.0.1", "127.0.0.1", "169.254.9.9",
        "0.0.0.0", "255.255.255.255", "192.0.2.5", "198.51.100.7", "203.0.113.9", "::", "::1",
        "fc00::1", "fdff::1", "fe80::1", "febf::1",
    ] {
        assert!(!is_public(ip(reserved).unwrap()), "{reserved}");
    }
}

#[test]
fn loopback_addresses() {
    assert!(is_loopback(ip("127.9.9.9").unwrap()));
    assert!(is_loopback(ip("::1").unwrap()));
    assert!(!is_loopback(ip("128.0.0.1").unwrap()));
    assert!(!is_loopback(ip("::").unwrap()));
    assert!(!is_loopback(ip("::ffff:127.0.0.1").unwrap()));
}
