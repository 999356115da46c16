use bluefrog::udp::{
    parse, write_announce, write_connect, write_error, write_scrape, Announce, ParseError, Request,
    Scrape, ANNOUNCE_MIN, MAX_SCRAPE_HASHES, MIN_PACKET, PEER4_LEN, PEER6_LEN, PROTOCOL_ID,
};
use bluefrog::{Event, InfoHash, PeerId, HASH_LEN};

fn header(action: u32, connection_id: u64, txid: u32, len: usize) -> Vec<u8> {
    let mut p = vec![0u8; len];
    p[0..8].copy_from_slice(&connection_id.to_be_bytes());
    p[8..12].copy_from_slice(&action.to_be_bytes());
    p[12..16].copy_from_slice(&txid.to_be_bytes());
    p
}

fn announce_packet(event: u32) -> Vec<u8> {
    let mut p = header(1, 0x1122_3344_5566_7788, 0xdead_beef, ANNOUNCE_MIN);
    for (i, b) in p[16..36].iter_mut().enumerate() {
        *b = i as u8;
    }
    for (i, b) in p[36..56].iter_mut().enumerate() {
        *b = (i as u8).wrapping_add(100);
    }
    p[56..64].copy_from_slice(&10u64.to_be_bytes());
    p[64..72].copy_from_slice(&20u64.to_be_bytes());
    p[72..80].copy_from_slice(&30u64.to_be_bytes());
    p[80..84].copy_from_slice(&event.to_be_bytes());
    p[92..96].copy_from_slice(&(-1i32).to_be_bytes());
    p[96..98].copy_from_slice(&6881u16.to_be_bytes());
    p
}

#[test]
fn constants_are_correct() {
    assert_eq!(PROTOCOL_ID, 0x0000_0417_2710_1980);
    assert_eq!((MIN_PACKET, ANNOUNCE_MIN), (16, 98));
    assert_eq!((PEER4_LEN, PEER6_LEN, MAX_SCRAPE_HASHES), (6, 18, 75));
}

#[test]
fn parse_rejects_too_short() {
    assert_eq!(parse(&[0u8; 15]), Err(ParseError::TooShort));
}

#[test]
fn parse_connect_ok_and_bad_magic() {
    let good = header(0, PROTOCOL_ID, 42, MIN_PACKET);
    assert_eq!(parse(&good), Ok(Request::Connect { transaction_id: 42 }));

    let bad = header(0, PROTOCOL_ID + 1, 42, MIN_PACKET);
    assert_eq!(parse(&bad), Err(ParseError::BadProtocolId));
}

fn expected_announce<'a>(ih: &'a InfoHash, pid: &'a PeerId, event: Event) -> Request<'a> {
    Request::Announce(Announce {
        connection_id: 0x1122_3344_5566_7788,
        transaction_id: 0xdead_beef,
        info_hash: ih,
        peer_id: pid,
        downloaded: 10,
        left: 20,
        uploaded: 30,
        event,
        num_want: -1,
        port: 6881,
    })
}

#[test]
fn parse_announce_fields_and_events() {
    let mut ih = [0u8; HASH_LEN];
    for (i, b) in ih.iter_mut().enumerate() {
        *b = i as u8;
    }
    let mut pid = [0u8; HASH_LEN];
    for (i, b) in pid.iter_mut().enumerate() {
        *b = (i as u8).wrapping_add(100);
    }

    // Whole-value comparison covers every parsed field and the event mapping in the codec.
    assert_eq!(
        parse(&announce_packet(1)),
        Ok(expected_announce(&ih, &pid, Event::Completed))
    );
    assert_eq!(
        parse(&announce_packet(3)),
        Ok(expected_announce(&ih, &pid, Event::Stopped))
    );
    assert_eq!(
        parse(&announce_packet(0)),
        Ok(expected_announce(&ih, &pid, Event::Periodic))
    );
}

#[test]
fn parse_announce_too_short() {
    let p = header(1, PROTOCOL_ID, 1, ANNOUNCE_MIN - 1);
    assert_eq!(parse(&p), Err(ParseError::AnnounceTooShort));
}

#[test]
fn parse_scrape_counts_and_caps() {
    // two full hashes
    let two = header(2, 7, 9, MIN_PACKET + 2 * HASH_LEN);
    assert_eq!(
        parse(&two),
        Ok(Request::Scrape(Scrape {
            connection_id: 7,
            transaction_id: 9,
            hashes: &two[MIN_PACKET..MIN_PACKET + 2 * HASH_LEN],
        }))
    );

    // trailing partial hash is ignored (floor to whole strides)
    let partial = header(2, 0, 0, MIN_PACKET + HASH_LEN + 5);
    assert_eq!(
        parse(&partial),
        Ok(Request::Scrape(Scrape {
            connection_id: 0,
            transaction_id: 0,
            hashes: &partial[MIN_PACKET..MIN_PACKET + HASH_LEN],
        }))
    );

    // more than MAX_SCRAPE_HASHES is capped
    let many = header(2, 0, 0, MIN_PACKET + (MAX_SCRAPE_HASHES + 5) * HASH_LEN);
    assert_eq!(
        parse(&many),
        Ok(Request::Scrape(Scrape {
            connection_id: 0,
            transaction_id: 0,
            hashes: &many[MIN_PACKET..MIN_PACKET + MAX_SCRAPE_HASHES * HASH_LEN],
        }))
    );
}

#[test]
fn scrape_iter_hashes_yields_each_stride() {
    let mut hashes = [0u8; 2 * HASH_LEN];
    hashes[HASH_LEN] = 0xff; // second hash's first byte
    let s = Scrape {
        connection_id: 0,
        transaction_id: 0,
        hashes: &hashes,
    };
    let collected: Vec<&InfoHash> = s.iter_hashes();
    assert_eq!(collected.len(), 2);
    assert_eq!(collected[0][0], 0);
    assert_eq!(collected[1][0], 0xff);
}

#[test]
fn parse_unknown_action() {
    let p = header(3, 0, 0, MIN_PACKET);
    assert_eq!(parse(&p), Err(ParseError::UnknownAction(3)));
}

#[test]
fn write_connect_response_bytes() {
    let mut out = [0u8; 16];
    write_connect(&mut out, 0xaabb_ccdd, 0x0102_0304_0506_0708);
    assert_eq!(&out[0..4], &0u32.to_be_bytes());
    assert_eq!(&out[4..8], &0xaabb_ccddu32.to_be_bytes());
    assert_eq!(&out[8..16], &0x0102_0304_0506_0708u64.to_be_bytes());
}

#[test]
fn write_announce_response_bytes() {
    let mut out = [0u8; 64];
    let peers = [1u8, 2, 3, 4, 0x1a, 0xe1]; // one v4 peer
    let n = write_announce(&mut out, 0xdead_beef, 1800, 5, 3, &peers);
    assert_eq!(n, 20 + peers.len());
    assert_eq!(&out[0..4], &1u32.to_be_bytes());
    assert_eq!(&out[4..8], &0xdead_beefu32.to_be_bytes());
    assert_eq!(&out[8..12], &1800u32.to_be_bytes());
    assert_eq!(&out[12..16], &5u32.to_be_bytes());
    assert_eq!(&out[16..20], &3u32.to_be_bytes());
    assert_eq!(&out[20..26], &peers);

    // empty peer list path
    let n0 = write_announce(&mut out, 1, 1620, 0, 0, &[]);
    assert_eq!(n0, 20);
}

#[test]
fn write_scrape_response_bytes() {
    let mut out = [0u8; 64];
    let entries = [(10u32, 100u32, 20u32), (1, 2, 3)];
    let n = write_scrape(&mut out, 0x11, &entries);
    assert_eq!(n, 8 + 2 * 12);
    assert_eq!(&out[0..4], &2u32.to_be_bytes());
    assert_eq!(&out[4..8], &0x11u32.to_be_bytes());
    assert_eq!(&out[8..12], &10u32.to_be_bytes());
    assert_eq!(&out[12..16], &100u32.to_be_bytes());
    assert_eq!(&out[16..20], &20u32.to_be_bytes());

    // empty entries path
    assert_eq!(write_scrape(&mut out, 0, &[]), 8);
}

#[test]
fn write_error_response_bytes() {
    let mut out = [0u8; 64];
    let msg = b"Connection ID missmatch.";
    let n = write_error(&mut out, 0x22, msg);
    assert_eq!(n, 8 + msg.len());
    assert_eq!(&out[0..4], &3u32.to_be_bytes());
    assert_eq!(&out[4..8], &0x22u32.to_be_bytes());
    assert_eq!(&out[8..8 + msg.len()], msg);
}

#[test]
fn public_types_are_debug_and_partial_eq() {
    // Debug + PartialEq(false branch) coverage for the public request/error types.
    let c1 = Request::Connect { transaction_id: 1 };
    let c2 = Request::Connect { transaction_id: 2 };
    assert_ne!(c1, c2);
    assert!(format!("{c1:?}").contains("Connect"));

    let p = announce_packet(1);
    let a = parse(&p).unwrap();
    assert!(format!("{a:?}").contains("Announce"));

    let s = header(2, 0, 0, MIN_PACKET);
    let sc = parse(&s).unwrap();
    assert!(format!("{sc:?}").contains("Scrape"));

    let e = ParseError::UnknownAction(7);
    assert_ne!(e, ParseError::TooShort);
    assert!(format!("{e:?}").contains("UnknownAction"));
}
