//! Time-windowed UDP connection-id scheme (BEP-15).
//!
//! A keyed BLAKE3 MAC over `(source_ip, window_index)`, where the window rotates every
//! `window_secs`. An id is accepted for the current *or* previous window, giving
//! `window..2*window` seconds of validity. With the default 120 s window that is 120–240 s of
//! tracker-side acceptance, satisfying BEP-15 (clients reuse ≤1 min; trackers should accept
//! ≤2 min) while keeping ids short-lived, so a captured id expires quickly.

use vstd::prelude::*;

use crate::wire;

verus! {

/// The 32-byte keyed BLAKE3 hash of `input` under `key`.
pub uninterp spec fn blake3_keyed(key: Seq<u8>, input: Seq<u8>) -> Seq<u8>;

/// Calls `blake3::keyed_hash`. The hash is a function of the key and the input alone; nothing
/// more is claimed of it.
#[verifier::external_body]
fn keyed_hash(key: &[u8; 32], input: &[u8]) -> (r: [u8; 32])
    ensures
        r@ == blake3_keyed(key@, input@),
{
    *blake3::keyed_hash(key, input).as_bytes()
}

/// What the MAC of a window covers: the address and the window's index, little-endian.
pub open spec fn covered(ip: Seq<u8>, window: nat) -> Seq<u8> {
    ip + wire::le_bytes(window, 8)
}

/// The id that a MAC stands for: its low 64 bits, read little-endian.
pub open spec fn low_half(mac: Seq<u8>) -> u64 {
    wire::le_nat(mac.take(8)) as u64
}

/// The id that stands for an address in a window.
pub open spec fn window_id(key: Seq<u8>, ip: Seq<u8>, window: nat) -> u64 {
    low_half(blake3_keyed(key, covered(ip, window)))
}

/// What the MAC of a window covers.
pub fn mac_input(ip: &[u8], window: u64) -> (r: Vec<u8>)
    ensures
        r@ == covered(ip@, window as nat),
{
    let w = wire::u64_be(window);
    let le: [u8; 8] = [w[7], w[6], w[5], w[4], w[3], w[2], w[1], w[0]];
    let mut input: Vec<u8> = Vec::new();
    input.extend_from_slice(ip);
    input.extend_from_slice(&le);
    proof {
        assert(le@ =~= wire::le_bytes(window as nat, 8));
        assert(input@ =~= ip@ + le@);
    }
    input
}

/// The id that a MAC stands for.
pub fn id_of_mac(mac: &[u8; 32]) -> (r: u64)
    ensures
        r == low_half(mac@),
{
    let b = mac;
    let low: [u8; 8] = [b[7], b[6], b[5], b[4], b[3], b[2], b[1], b[0]];
    assert(low@ =~= mac@.take(8).reverse());
    wire::be_u64(&low)
}

/// Whether an id is that of the current window or of the previous one, if there is one.
pub fn is_current(id: u64, current: u64, previous: Option<u64>) -> (r: bool)
    ensures
        r == (id == current || previous == Some(id)),
{
    id == current || match previous {
        Some(p) => id == p,
        None => false,
    }
}

/// The id handed out at a time.
pub open spec fn issued(key: Seq<u8>, window_secs: nat, ip: Seq<u8>, now: nat) -> u64 {
    window_id(key, ip, now / window_secs)
}

/// Whether an id is accepted at a time: it is that of the current or the previous window.
pub open spec fn accepted(
    key: Seq<u8>,
    window_secs: nat,
    id: u64,
    ip: Seq<u8>,
    now: nat,
) -> bool {
    let window = now / window_secs;
    id == window_id(key, ip, window) || (window > 0 && id == window_id(
        key,
        ip,
        (window - 1) as nat,
    ))
}

/// An id is accepted from the moment it is handed out until a whole window later.
pub proof fn issued_id_is_accepted(
    key: Seq<u8>,
    window_secs: nat,
    ip: Seq<u8>,
    issued_at: nat,
    now: nat,
)
    requires
        window_secs > 0,
        issued_at <= now <= issued_at + window_secs,
    ensures
        accepted(key, window_secs, issued(key, window_secs, ip, issued_at), ip, now),
{
    let w = window_secs as int;
    let a = issued_at as int;
    let n = now as int;
    vstd::arithmetic::div_mod::lemma_div_is_ordered(a, n, w);
    vstd::arithmetic::div_mod::lemma_div_is_ordered(n, a + w, w);
    vstd::arithmetic::div_mod::lemma_div_plus_one(a, w);
}

/// From two windows after it was handed out an id is accepted only if the MAC gives a later
/// window the same id.
pub proof fn expired_id_needs_a_collision(
    key: Seq<u8>,
    window_secs: nat,
    ip: Seq<u8>,
    issued_at: nat,
    now: nat,
)
    requires
        window_secs > 0,
        now >= issued_at + 2 * window_secs,
        accepted(key, window_secs, issued(key, window_secs, ip, issued_at), ip, now),
    ensures
        exists|later: nat|
            later > issued_at / window_secs && #[trigger] window_id(key, ip, later) == issued(
                key,
                window_secs,
                ip,
                issued_at,
            ),
{
    let w = window_secs as int;
    let a = issued_at as int;
    let n = now as int;
    vstd::arithmetic::div_mod::lemma_div_is_ordered(a + w + w, n, w);
    vstd::arithmetic::div_mod::lemma_div_plus_one(a, w);
    vstd::arithmetic::div_mod::lemma_div_plus_one(a + w, w);
    let window = now / window_secs;
    if issued(key, window_secs, ip, issued_at) == window_id(key, ip, window) {
    } else {
        assert(window_id(key, ip, (window - 1) as nat) == issued(key, window_secs, ip, issued_at));
    }
}

/// A keyed connection-id generator/validator.
pub struct ConnId {
    key: [u8; 32],
    window_secs: u64,
}

impl ConnId {
    /// The secret key.
    pub closed spec fn key(&self) -> Seq<u8> {
        self.key@
    }

    /// The window length in seconds.
    pub closed spec fn window_secs(&self) -> u64 {
        self.window_secs
    }

    /// A window has at least one second.
    pub open spec fn wf(&self) -> bool {
        self.window_secs() > 0
    }

    /// Create a generator from a 32-byte secret key and a window length in seconds.
    ///
    /// `window_secs` is clamped to at least 1 to avoid a zero-length window.
    #[must_use]
    pub fn new(key: [u8; 32], window_secs: u64) -> (r: Self)
        ensures
            r.wf(),
            r.key() == key@,
            r.window_secs() == (if window_secs == 0 {
                1
            } else {
                window_secs
            }),
    {
        let window_secs: u64 = if window_secs == 0 {
            1
        } else {
            window_secs
        };
        ConnId { key, window_secs }
    }

    fn for_window(&self, ip: &[u8], window: u64) -> (r: u64)
        ensures
            r == window_id(self.key(), ip@, window as nat),
    {
        let input = mac_input(ip, window);
        id_of_mac(&keyed_hash(&self.key, input.as_slice()))
    }

    /// The connection id to hand out for `ip` at time `now_secs` (current window).
    #[must_use]
    pub fn generate(&self, ip: &[u8], now_secs: u64) -> (r: u64)
        requires
            self.wf(),
        ensures
            r == issued(self.key(), self.window_secs() as nat, ip@, now_secs as nat),
    {
        self.for_window(ip, now_secs / self.window_secs)
    }

    /// Whether `id` is a valid connection id for `ip` at `now_secs` (current or previous window).
    #[must_use]
    pub fn validate(&self, id: u64, ip: &[u8], now_secs: u64) -> (r: bool)
        requires
            self.wf(),
        ensures
            r == accepted(self.key(), self.window_secs() as nat, id, ip@, now_secs as nat),
    {
        let window: u64 = now_secs / self.window_secs;
        let previous: Option<u64> = if window > 0 {
            Some(self.for_window(ip, window - 1))
        } else {
            None
        };
        is_current(id, self.for_window(ip, window), previous)
    }
}

} // verus!
