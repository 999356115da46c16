use bluefrog::connid::ConnId;
use bluefrog::store::Store;
use bluefrog::udp::{parse, ANNOUNCE_MIN, MIN_PACKET, PROTOCOL_ID};
use bluefrog::udp_handler::{numwant, Action, Handler, NUMWANT_MAX_V4, NUMWANT_MAX_V6};
use bluefrog::HASH_LEN;

const V4_IP: [u8; 16] = [0, 0, 0, 0, 0, 0, 0, 0, 0, 0, 0xff, 0xff, 10, 0, 0, 1];
const V6_IP: [u8; 16] = [0x20, 0x01, 0xd, 0xb8, 0, 0, 0, 0, 0, 0, 0, 0, 0, 0, 0, 1];

fn handler() -> Handler {
    Handler::new(ConnId::new([1u8; 32], 120))
}

fn header(action: u32, cid: u64, txid: u32, len: usize) -> Vec<u8> {
    let mut p = vec![0u8; len];
    p[0..8].copy_from_slice(&cid.to_be_bytes());
    p[8..12].copy_from_slice(&action.to_be_bytes());
    p[12..16].copy_from_slice(&txid.to_be_bytes());
    p
}

fn announce(cid: u64, txid: u32, left: u64, event: u32, num_want: i32, port: u16) -> Vec<u8> {
    let mut p = header(1, cid, txid, ANNOUNCE_MIN);
    p[16..36].copy_from_slice(&[3u8; HASH_LEN]); // info_hash
    p[64..72].copy_from_slice(&left.to_be_bytes());
    p[80..84].copy_from_slice(&event.to_be_bytes());
    p[92..96].copy_from_slice(&num_want.to_be_bytes());
    p[96..98].copy_from_slice(&port.to_be_bytes());
    p
}

#[test]
fn parse_error_drops() {
    let h = handler();
    let mut store = Store::new();
    let mut out = Vec::new();
    assert_eq!(
        h.handle(&mut store, &[0u8; 4], &V4_IP, true, 100, 1800, &mut out),
        Action::Drop
    );
}

#[test]
fn connect_roundtrip_and_numwant_helper() {
    let h = handler();
    let mut store = Store::new();
    let mut out = Vec::new();
    let pkt = header(0, PROTOCOL_ID, 0xaa, MIN_PACKET);
    assert_eq!(
        h.handle(&mut store, &pkt, &V4_IP, true, 1000, 1800, &mut out),
        Action::Reply(16)
    );
    // the returned connection id validates for a subsequent announce
    let cid = u64::from_be_bytes(out[8..16].try_into().unwrap());
    assert!(h.connid.validate(cid, &V4_IP, 1000));

    assert_eq!(numwant(-1, true), NUMWANT_MAX_V4);
    assert_eq!(numwant(-1, false), NUMWANT_MAX_V6);
    assert_eq!(numwant(10, true), 10);
    assert_eq!(numwant(9999, false), NUMWANT_MAX_V6);
}

#[test]
fn announce_bad_connid_drops() {
    let h = handler();
    let mut store = Store::new();
    let mut out = Vec::new();
    let pkt = announce(0xbad, 0x11, 0, 0, -1, 6881);
    let action = h.handle(&mut store, &pkt, &V4_IP, true, 1000, 1800, &mut out);
    // bad connid: silent drop (no backscatter reply), flagged so the runtime counts/feeds L7
    assert_eq!(action, Action::ConnidMismatch);
}

#[test]
fn announce_v4_seeder_then_leecher_gets_peers() {
    let h = handler();
    let mut store = Store::new();
    let now = 1000u64;
    let cid = h.connid.generate(&V4_IP, now);
    let mut out = Vec::new();

    // a seeder announces (left=0); the peer is returned in its own list
    let seed = announce(cid, 0x1, 0, 0, -1, 6881);
    let a = h.handle(&mut store, &seed, &V4_IP, true, now, 1620, &mut out);
    assert_eq!(a, Action::Reply(26)); // 20 header + itself (one 6-byte v4 peer)
    assert_eq!(&out[0..4], &1u32.to_be_bytes()); // announce action
    assert_eq!(&out[8..12], &1620u32.to_be_bytes()); // interval
    assert_eq!(&out[12..16], &0u32.to_be_bytes()); // leechers
    assert_eq!(&out[16..20], &1u32.to_be_bytes()); // seeders
    assert_eq!(&out[20..26], &[10, 0, 0, 1, 0x1a, 0xe1]); // itself: 10.0.0.1:6881

    // a leecher on a different IP: response holds both peers (leecher first, then the seeder)
    let leech_ip = [0, 0, 0, 0, 0, 0, 0, 0, 0, 0, 0xff, 0xff, 10, 0, 0, 2];
    let cid2 = h.connid.generate(&leech_ip, now);
    let leech = announce(cid2, 0x2, 100, 2, -1, 6882);
    let a = h.handle(&mut store, &leech, &leech_ip, true, now, 1620, &mut out);
    assert_eq!(a, Action::Reply(32)); // 20 header + two 6-byte v4 peers
    assert_eq!(&out[12..16], &1u32.to_be_bytes()); // one leecher
    assert_eq!(&out[16..20], &1u32.to_be_bytes()); // one seeder
    assert_eq!(&out[20..26], &[10, 0, 0, 2, 0x1a, 0xe2]); // leecher first
    assert_eq!(&out[26..32], &[10, 0, 0, 1, 0x1a, 0xe1]); // seeder after
}

#[test]
fn announce_completed_and_stopped() {
    let h = handler();
    let mut store = Store::new();
    let now = 600u64;
    let cid = h.connid.generate(&V4_IP, now);
    let mut out = Vec::new();

    // completed event
    let done = announce(cid, 0x3, 0, 1, -1, 6881);
    h.handle(&mut store, &done, &V4_IP, true, now, 1800, &mut out);
    assert_eq!(store.scrape(&[3u8; HASH_LEN]).downloaded, 1);

    // stopped event removes the peer, reply is the 20-byte header only
    let stop = announce(cid, 0x4, 0, 3, -1, 6881);
    let a = h.handle(&mut store, &stop, &V4_IP, true, now, 1800, &mut out);
    assert_eq!(a, Action::Reply(20));
    assert_eq!(store.scrape(&[3u8; HASH_LEN]).complete, 0);
}

#[test]
fn announce_v6_path() {
    let h = handler();
    let mut store = Store::new();
    let now = 1000u64;
    let cid = h.connid.generate(&V6_IP, now);
    let mut out = Vec::new();
    let seed = announce(cid, 0x5, 0, 0, 5, 6881);
    let a = h.handle(&mut store, &seed, &V6_IP, false, now, 1620, &mut out);
    assert_eq!(a, Action::Reply(38)); // 20 header + itself (one 18-byte v6 peer)
    assert_eq!(store.scrape(&[3u8; HASH_LEN]).complete, 1);

    // a v6 stopped announce removes the peer
    let stop = announce(cid, 0x6, 0, 3, -1, 6881);
    let a = h.handle(&mut store, &stop, &V6_IP, false, now, 1800, &mut out);
    assert_eq!(a, Action::Reply(20));
    assert_eq!(store.scrape(&[3u8; HASH_LEN]).complete, 0);
}

#[test]
fn scrape_roundtrip_and_bad_connid() {
    let h = handler();
    let mut store = Store::new();
    let now = 1000u64;
    let cid = h.connid.generate(&V4_IP, now);
    let mut out = Vec::new();

    // seed one torrent so scrape has non-zero counts
    let seed = announce(cid, 0x1, 0, 0, -1, 6881);
    h.handle(&mut store, &seed, &V4_IP, true, now, 1800, &mut out);

    // scrape that hash
    let mut pkt = header(2, cid, 0x9, MIN_PACKET + HASH_LEN);
    pkt[MIN_PACKET..MIN_PACKET + HASH_LEN].copy_from_slice(&[3u8; HASH_LEN]);
    let a = h.handle(&mut store, &pkt, &V4_IP, true, now, 1800, &mut out);
    assert_eq!(a, Action::Reply(8 + 12));
    assert_eq!(&out[0..4], &2u32.to_be_bytes()); // scrape action
    assert_eq!(&out[8..12], &1u32.to_be_bytes()); // seeders

    // scrape with a bad connection id -> silent drop
    let bad = header(2, 0xbad, 0x9, MIN_PACKET + HASH_LEN);
    let a = h.handle(&mut store, &bad, &V4_IP, true, now, 1800, &mut out);
    assert_eq!(a, Action::ConnidMismatch);
}

#[test]
fn action_derives() {
    assert_ne!(Action::Reply(1), Action::Drop);
    assert_ne!(Action::Drop, Action::ConnidMismatch);
    assert!(format!("{:?}", Action::Drop).contains("Drop"));
    assert!(format!("{:?}", Action::ConnidMismatch).contains("ConnidMismatch"));
}

#[test]
fn respond_gives_the_fresh_id() {
    let mut store = Store::new();
    let mut out = vec![7u8; 3];
    let pkt = header(0, PROTOCOL_ID, 0xaa, MIN_PACKET);
    let req = parse(&pkt).unwrap();
    let action = Handler::respond(
        &mut store, &req, 0x0102_0304_0506_0708, true, &V4_IP, true, 1000, 1800, &mut out,
    );
    assert_eq!(action, Action::Reply(16));
    assert_eq!(out, vec![0, 0, 0, 0, 0, 0, 0, 0xaa, 1, 2, 3, 4, 5, 6, 7, 8]);
}

#[test]
fn respond_serves_only_admitted_requests() {
    let mut store = Store::new();
    let mut out = vec![7u8; 3];
    let pkt = announce(0, 0x11, 0, 0, -1, 6881);
    let req = parse(&pkt).unwrap();
    let refused =
        Handler::respond(&mut store, &req, 0, false, &V4_IP, true, 1000, 1800, &mut out);
    assert_eq!(refused, Action::ConnidMismatch);
    assert_eq!(out, vec![7u8; 3]);
    assert_eq!(store.scrape(&[3u8; HASH_LEN]).complete, 0);

    let served =
        Handler::respond(&mut store, &req, 0, true, &V4_IP, true, 1000, 1800, &mut out);
    assert_eq!(served, Action::Reply(out.len()));
    assert_eq!(&out[..12], &[0, 0, 0, 1, 0, 0, 0, 0x11, 0, 0, 7, 8]);
    assert_eq!(store.scrape(&[3u8; HASH_LEN]).complete, 1);
}
