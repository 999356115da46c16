use bluefrog::store::{Counts, Store, PEER_TIMEOUT_MINUTES, TORRENT_TIMEOUT_MINUTES};
use bluefrog::{flag, InfoHash, HASH_LEN};

const H: InfoHash = [7u8; HASH_LEN];
const K1: [u8; 6] = [1, 1, 1, 1, 0x1a, 0xe1];
const K2: [u8; 6] = [2, 2, 2, 2, 0x1a, 0xe2];

#[test]
fn shard_index_uses_top_ten_bits() {
    let mut h = [0u8; HASH_LEN];
    h[0] = 0xff;
    h[1] = 0xc0; // top 10 bits all ones -> 1023
    assert_eq!(Store::shard_index(&h), 1023);
    assert_eq!(Store::shard_index(&[0u8; HASH_LEN]), 0);
}

#[test]
fn leecher_then_seed_transitions() {
    let mut s = Store::new();
    let mut peers = Vec::new();
    // new leecher
    let c = s.announce_v4(&H, K1, flag::LEECHING, 50, 10, &mut peers);
    assert_eq!(
        c,
        Counts {
            complete: 0,
            incomplete: 1,
            downloaded: 0
        }
    );
    // second leecher; first client now completes (seeding)
    peers.clear();
    let c = s.announce_v4(&H, K2, flag::LEECHING, 50, 10, &mut peers);
    assert_eq!(c.incomplete, 2);
    let c = s.announce_v4(&H, K1, flag::SEEDING | flag::COMPLETED, 50, 11, &mut peers);
    assert_eq!(
        c,
        Counts {
            complete: 1,
            incomplete: 1,
            downloaded: 1
        }
    );
    assert_eq!(s.torrent_count(), 1);
}

#[test]
fn completed_implies_seeding_and_sticks() {
    let mut s = Store::new();
    let mut peers = Vec::new();
    // bare completed (no seeding bit) is sanitized: not counted as download/seed
    let c = s.announce_v4(&H, K1, flag::COMPLETED, 50, 10, &mut peers);
    assert_eq!(
        c,
        Counts {
            complete: 0,
            incomplete: 1,
            downloaded: 0
        }
    );
    // now truly completes
    let c = s.announce_v4(&H, K1, flag::SEEDING | flag::COMPLETED, 50, 11, &mut peers);
    assert_eq!(
        c,
        Counts {
            complete: 1,
            incomplete: 0,
            downloaded: 1
        }
    );
    // renew as plain leecher: stays completed (no second download), drops to leecher seed-wise
    let c = s.announce_v4(&H, K1, flag::LEECHING, 50, 12, &mut peers);
    assert_eq!(
        c,
        Counts {
            complete: 0,
            incomplete: 1,
            downloaded: 1
        }
    );
}

#[test]
fn write_compact_orders_and_caps() {
    let mut s = Store::new();
    let mut peers = Vec::new();
    s.announce_v4(&H, K1, flag::LEECHING, 50, 10, &mut peers);
    peers.clear();
    s.announce_v4(&H, K2, flag::SEEDING, 50, 10, &mut peers);
    // both peers, numwant large: 12 bytes
    peers.clear();
    s.announce_v4(&H, K1, flag::LEECHING, 50, 10, &mut peers);
    assert_eq!(peers.len(), 12);
    // numwant caps output
    peers.clear();
    s.announce_v4(&H, K1, flag::LEECHING, 1, 10, &mut peers);
    assert_eq!(peers.len(), 6);
}

#[test]
fn remove_and_scrape() {
    let mut s = Store::new();
    let mut peers = Vec::new();
    s.announce_v4(&H, K1, flag::SEEDING, 50, 10, &mut peers);
    s.announce_v4(&H, K2, flag::LEECHING, 50, 10, &mut peers);
    assert_eq!(
        s.scrape(&H),
        Counts {
            complete: 1,
            incomplete: 1,
            downloaded: 0
        }
    );
    // remove the seeder
    let c = s.remove_v4(&H, &K1, 11);
    assert_eq!(
        c,
        Counts {
            complete: 0,
            incomplete: 1,
            downloaded: 0
        }
    );
    // removing an unknown peer / torrent is a no-op
    s.remove_v4(&H, &K1, 11);
    let unknown: InfoHash = [9u8; HASH_LEN];
    assert_eq!(s.remove_v4(&unknown, &K1, 11), Counts::default());
    assert_eq!(s.scrape(&unknown), Counts::default());
}

#[test]
fn v6_path() {
    let mut s = Store::new();
    let k6 = [0u8; 18];
    let mut peers = Vec::new();
    let c = s.announce_v6(&H, k6, flag::SEEDING, 50, 10, &mut peers);
    assert_eq!(
        c,
        Counts {
            complete: 1,
            incomplete: 0,
            downloaded: 0
        }
    );
    assert_eq!(peers.len(), 18);
    let c = s.remove_v6(&H, &k6, 11);
    assert_eq!(c.complete, 0);
    assert_eq!(s.remove_v6(&[3u8; HASH_LEN], &k6, 11), Counts::default());
}

#[test]
fn gc_expires_peers_and_empty_torrents() {
    let mut s = Store::default();
    let mut peers = Vec::new();
    s.announce_v4(&H, K1, flag::SEEDING, 50, 10, &mut peers);
    s.announce_v6(&H, [0u8; 18], flag::LEECHING, 50, 10, &mut peers);
    // not yet expired
    s.gc(10 + PEER_TIMEOUT_MINUTES - 1);
    assert_eq!(s.scrape(&H).complete, 1);
    // peers expire, but the torrent lingers until torrent-timeout
    s.gc(10 + PEER_TIMEOUT_MINUTES);
    assert_eq!(s.scrape(&H), Counts::default());
    assert_eq!(s.torrent_count(), 1);
    // after torrent timeout, the empty torrent is collected
    s.gc(10 + TORRENT_TIMEOUT_MINUTES);
    assert_eq!(s.torrent_count(), 0);
}

#[test]
fn torrent_with_download_history_survives_empty() {
    let mut s = Store::new();
    let mut peers = Vec::new();
    s.announce_v4(&H, K1, flag::SEEDING | flag::COMPLETED, 50, 10, &mut peers);
    s.remove_v4(&H, &K1, 10);
    // empty of peers but has a recorded download -> is_empty() false -> not collected
    s.gc(10 + TORRENT_TIMEOUT_MINUTES);
    assert_eq!(s.torrent_count(), 1);
    assert_eq!(s.scrape(&H).downloaded, 1);
}

#[test]
fn counts_derives() {
    let c = Counts::default();
    assert_eq!(
        c,
        Counts {
            complete: 0,
            incomplete: 0,
            downloaded: 0
        }
    );
    assert_ne!(c, Counts { complete: 1, ..c });
    assert!(format!("{c:?}").contains("Counts"));
}
