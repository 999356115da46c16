use bluefrog::{flag, Event, InfoHash, PeerId, HASH_LEN};

#[test]
fn hash_len_and_type_aliases() {
    assert_eq!(HASH_LEN, 20);
    let h: InfoHash = [0u8; HASH_LEN];
    let p: PeerId = [1u8; HASH_LEN];
    assert_eq!(h.len(), 20);
    assert_eq!(p.len(), 20);
}

#[test]
fn flag_values_are_stable() {
    assert_eq!(flag::SEEDING, 0x80);
    assert_eq!(flag::COMPLETED, 0x40);
    assert_eq!(flag::STOPPED, 0x20);
    assert_eq!(flag::FROM_SYNC, 0x10);
    assert_eq!(flag::LEECHING, 0x00);
}

#[test]
fn event_from_udp_maps_every_code() {
    assert_eq!(Event::from_udp(0), Event::Periodic);
    assert_eq!(Event::from_udp(1), Event::Completed);
    assert_eq!(Event::from_udp(2), Event::Periodic); // started folds into None
    assert_eq!(Event::from_udp(3), Event::Stopped);
    assert_eq!(Event::from_udp(9999), Event::Periodic);
}

#[test]
fn event_derives_are_exercised() {
    let a = Event::Completed;
    let b = a; // Copy
    assert_eq!(a, b); // PartialEq (equal)
    assert_ne!(a, Event::Periodic); // PartialEq (not equal)
    assert_eq!(format!("{a:?}"), "Completed"); // Debug
}
