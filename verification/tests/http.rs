use bluefrog::http::{percent_decode, HttpHandler, Response, MAX_SCRAPE_HASHES};
use bluefrog::store::Store;
use bluefrog::HASH_LEN;

const V4_IP: [u8; 16] = [0, 0, 0, 0, 0, 0, 0, 0, 0, 0, 0xff, 0xff, 10, 0, 0, 5];
const V6_IP: [u8; 16] = [0x20, 0x01, 0, 0, 0, 0, 0, 0, 0, 0, 0, 0, 0, 0, 0, 9];
// percent-encoded 20-byte info-hash of all 0x41 ('A')
const IH: &str = "AAAAAAAAAAAAAAAAAAAA";

fn handler() -> HttpHandler {
    HttpHandler::new()
}

fn body(r: Response) -> String {
    match r {
        Response::Body(b) => String::from_utf8_lossy(&b).into_owned(),
        other => panic!("expected body, got {other:?}"),
    }
}

#[test]
fn percent_decode_cases() {
    let mut out = Vec::new();
    assert!(percent_decode(b"a+b%20%41", &mut out));
    assert_eq!(out, b"a b A");
    // malformed: truncated and non-hex
    out.clear();
    assert!(!percent_decode(b"%4", &mut out));
    out.clear();
    assert!(!percent_decode(b"%zz", &mut out));
}

#[test]
fn dispatch_redirect_and_notfound() {
    let h = handler();
    let mut store = Store::new();
    assert_eq!(h.handle(&mut store, "/", &V4_IP, true, 10, 1800), Response::Redirect);
    assert_eq!(
        h.handle(&mut store, "/nope", &V4_IP, true, 10, 1800),
        Response::NotFound
    );
}

#[test]
fn announce_missing_info_hash_is_failure_body() {
    let h = handler();
    let mut store = Store::new();
    let text = body(h.handle(&mut store, "/announce?port=6881", &V4_IP, true, 10, 1800));
    assert!(text.contains("failure reason"));
}

#[test]
fn announce_v4_roundtrip() {
    let h = handler();
    let mut store = Store::new();
    // includes compact=1 (non-zero) and an unknown param, both of which are accepted
    let q = format!(
        "/announce?info_hash={IH}&port=6881&left=0&numwant=30&event=started&compact=1&x=y"
    );
    let text = body(h.handle(&mut store, &q, &V4_IP, true, 10, 1620));
    assert!(text.contains("8:completei1e"));
    assert!(text.contains("8:intervali1620e"));
    assert!(text.contains("12:min intervali810e"));
    // the seeder is returned in its own compact peer list (6 bytes)
    assert!(text.contains("5:peers6:"));

    // a v4 stopped announce removes the peer
    let stop = format!("/announce?info_hash={IH}&port=6881&event=stopped");
    body(h.handle(&mut store, &stop, &V4_IP, true, 10, 1800));
    assert_eq!(store.scrape(&[0x41u8; HASH_LEN]).complete, 0);
}

#[test]
fn announce_v6_and_stopped_and_completed() {
    let h = handler();
    let mut store = Store::new();
    let hash = [0x41u8; HASH_LEN];
    // completed
    let q = format!("/announce?info_hash={IH}&port=6881&left=0&event=completed");
    body(h.handle(&mut store, &q, &V6_IP, false, 10, 1800));
    assert_eq!(store.scrape(&hash).downloaded, 1);
    // stopped removes it
    let q = format!("/announce?info_hash={IH}&port=6881&event=stopped");
    body(h.handle(&mut store, &q, &V6_IP, false, 10, 1800));
    assert_eq!(store.scrape(&hash).complete, 0);
}

#[test]
fn announce_rejects_compact_zero_bad_port_and_bad_hash() {
    let h = handler();
    let mut store = Store::new();
    assert_eq!(
        h.handle(&mut store, 
            &format!("/announce?info_hash={IH}&port=1&compact=0"),
            &V4_IP,
            true,
            10,
            1800
        ),
        Response::BadRequest
    );
    assert_eq!(
        h.handle(&mut store, 
            &format!("/announce?info_hash={IH}&port=99999"),
            &V4_IP,
            true,
            10,
            1800
        ),
        Response::BadRequest
    );
    assert_eq!(
        h.handle(&mut store, 
            "/announce?info_hash=tooshort&port=1",
            &V4_IP,
            true,
            10,
            1800
        ),
        Response::BadRequest
    );
}

#[test]
fn scrape_roundtrip_and_bad_hash() {
    let h = handler();
    let mut store = Store::new();
    // seed a torrent
    let q = format!("/announce?info_hash={IH}&port=6881&left=0");
    body(h.handle(&mut store, &q, &V4_IP, true, 10, 1800));
    // scrape it (an extra non-info_hash param is ignored)
    let text = body(h.handle(&mut store, 
        &format!("/scrape?info_hash={IH}&extra=1"),
        &V4_IP,
        true,
        10,
        1800,
    ));
    assert!(text.starts_with("d5:filesd20:AAAAAAAAAAAAAAAAAAAA"));
    assert!(text.contains("8:completei1e"));
    // scrape with no hashes -> empty files dict
    assert_eq!(
        body(h.handle(&mut store, "/scrape", &V4_IP, true, 10, 1800)),
        "d5:filesdee"
    );
    // bad hash
    assert_eq!(
        h.handle(&mut store, "/scrape?info_hash=x", &V4_IP, true, 10, 1800),
        Response::BadRequest
    );
}

#[test]
fn scrape_caps_hash_count() {
    let h = handler();
    let mut store = Store::new();
    // a scrape carrying more than the cap of info_hash params
    let mut q = String::from("/scrape?info_hash=");
    q.push_str(IH);
    for _ in 0..(MAX_SCRAPE_HASHES + 3) {
        q.push_str("&info_hash=");
        q.push_str(IH);
    }
    let text = body(h.handle(&mut store, &q, &V4_IP, true, 10, 1800));
    // only MAX_SCRAPE_HASHES entries are emitted, not the MAX+4 requested
    assert_eq!(
        text.matches("20:AAAAAAAAAAAAAAAAAAAA").count(),
        MAX_SCRAPE_HASHES
    );
}

#[test]
fn response_derives() {
    assert_ne!(Response::Redirect, Response::NotFound);
    assert!(format!("{:?}", Response::BadRequest).contains("BadRequest"));
}
