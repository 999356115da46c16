use bluefrog::connid::{id_of_mac, is_current, mac_input, ConnId};

const KEY: [u8; 32] = [0x5a; 32];
const IP: [u8; 16] = [1, 2, 3, 4, 0, 0, 0, 0, 0, 0, 0, 0, 0, 0, 0, 0];

#[test]
fn generate_is_deterministic_and_ip_specific() {
    let c = ConnId::new(KEY, 120);
    assert_eq!(c.generate(&IP, 1000), c.generate(&IP, 1000));
    let other = [9u8; 16];
    assert_ne!(c.generate(&IP, 1000), c.generate(&other, 1000));
}

#[test]
fn validate_accepts_current_and_previous_window() {
    let c = ConnId::new(KEY, 120);
    let now = 10_000u64;
    let id = c.generate(&IP, now);
    assert!(c.validate(id, &IP, now));
    // id issued in the previous window is still accepted a window later
    let prev_id = c.generate(&IP, now);
    assert!(c.validate(prev_id, &IP, now + 120));
    // but not two windows later
    assert!(!c.validate(prev_id, &IP, now + 240));
}

#[test]
fn validate_rejects_forged_and_wrong_ip() {
    let c = ConnId::new(KEY, 120);
    let now = 10_000u64;
    assert!(!c.validate(0xdead_beef_dead_beef, &IP, now));
    let id = c.generate(&IP, now);
    assert!(!c.validate(id, &[9u8; 16], now));
}

#[test]
fn early_time_only_checks_current_window() {
    let c = ConnId::new(KEY, 120);
    // now_secs < window_secs -> window 0, no previous window to check
    let id = c.generate(&IP, 5);
    assert!(c.validate(id, &IP, 5));
    assert!(!c.validate(id.wrapping_add(1), &IP, 5));
}

#[test]
fn zero_window_is_clamped() {
    let c = ConnId::new(KEY, 0);
    // must not divide by zero
    let id = c.generate(&IP, 42);
    assert!(c.validate(id, &IP, 42));
}

#[test]
fn mac_covers_address_and_little_endian_window() {
    assert_eq!(
        mac_input(&[9, 8, 7], 0x0102_0304_0506_0708),
        vec![9, 8, 7, 8, 7, 6, 5, 4, 3, 2, 1]
    );
    assert_eq!(mac_input(&[], 1), vec![1, 0, 0, 0, 0, 0, 0, 0]);
}

#[test]
fn id_is_the_low_half_of_the_mac() {
    let mut mac = [0xffu8; 32];
    mac[..8].copy_from_slice(&[1, 2, 3, 4, 5, 6, 7, 8]);
    assert_eq!(id_of_mac(&mac), 0x0807_0605_0403_0201);
}

#[test]
fn generated_id_is_the_keyed_hash_of_the_window() {
    let c = ConnId::new(KEY, 120);
    let mac = blake3::keyed_hash(&KEY, &mac_input(&IP, 10_000 / 120));
    assert_eq!(c.generate(&IP, 10_000), id_of_mac(mac.as_bytes()));
}

#[test]
fn current_and_previous_ids_are_current() {
    assert!(is_current(5, 5, None));
    assert!(is_current(4, 5, Some(4)));
    assert!(!is_current(4, 5, Some(3)));
    assert!(!is_current(0, 5, None));
}
