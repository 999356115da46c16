use bluefrog::bencode::{announce_response, failure, is_failure, scrape_response, Encoder};
use bluefrog::store::Counts;
use bluefrog::InfoHash;

fn s(v: &[u8]) -> String {
    String::from_utf8(v.to_vec()).unwrap()
}

#[test]
fn primitives() {
    let mut out = Vec::new();
    let mut e = Encoder::new(&mut out);
    e.integer(0).integer(12345).bytes(b"spam").list().end();
    assert_eq!(s(&out), "i0ei12345e4:spamle");
}

#[test]
fn announce_body() {
    let mut out = Vec::new();
    let counts = Counts {
        complete: 2,
        incomplete: 3,
        downloaded: 5,
    };
    announce_response(&mut out, counts, 1800, &[1, 2, 3, 4, 0, 80], &[]);
    assert_eq!(
        s(&out),
        "d8:completei2e10:downloadedi5e10:incompletei3e8:intervali1800e12:min intervali900e5:peers6:\u{1}\u{2}\u{3}\u{4}\u{0}P6:peers60:e"
    );
}

#[test]
fn scrape_body_multiple_and_empty() {
    let h1: InfoHash = [0x41; 20];
    let h2: InfoHash = [0x42; 20];
    let c1 = Counts {
        complete: 1,
        incomplete: 0,
        downloaded: 9,
    };
    let c2 = Counts::default();
    let mut out = Vec::new();
    scrape_response(&mut out, &[(&h1, c1), (&h2, c2)]);
    let text = s(&out);
    assert!(text.starts_with("d5:filesd20:AAAAAAAAAAAAAAAAAAAA"));
    assert!(text.contains("d8:completei1e10:downloadedi9e10:incompletei0ee"));
    assert!(text.ends_with("ee"));

    // empty file list
    let mut empty = Vec::new();
    scrape_response(&mut empty, &[]);
    assert_eq!(s(&empty), "d5:filesdee");
}

#[test]
fn failure_body() {
    let mut out = Vec::new();
    failure(&mut out, b"nope");
    assert_eq!(s(&out), "d14:failure reason4:nopee");
}

#[test]
fn failures_are_told_from_answers() {
    let counts = Counts {
        complete: 2,
        incomplete: 3,
        downloaded: 5,
    };
    let (mut failed, mut announced, mut scraped) = (Vec::new(), Vec::new(), Vec::new());
    failure(&mut failed, b"why");
    announce_response(&mut announced, counts, 1800, b"", b"");
    scrape_response(&mut scraped, &[]);
    assert!(is_failure(&failed));
    assert!(!is_failure(&announced));
    assert!(!is_failure(&scraped));
    assert!(!is_failure(b""));
    assert!(!is_failure(b"d14:failure reaso"));
}
