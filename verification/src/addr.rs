//! IP and socket addresses, and their textual notation.
//!
//! The notation is the usual one: dotted IPv4 without leading zeros, IPv6 groups with `::` and an
//! embedded trailing IPv4 address, `[v6%scope]:port`.

use vstd::prelude::*;

use crate::text;

verus! {

/// An IP address.
#[derive(Debug, Clone, Copy, PartialEq, Eq)]
pub enum IpAddr {
    /// IPv4, in network order.
    V4([u8; 4]),
    /// IPv6, in network order.
    V6([u8; 16]),
}

/// An IP address with a port.
#[allow(inconsistent_fields)]
#[derive(Debug, Clone, Copy, PartialEq, Eq)]
pub enum SocketAddr {
    /// IPv4.
    V4 {
        /// The address, in network order.
        ip: [u8; 4],
        /// The port.
        port: u16,
    },
    /// IPv6.
    V6 {
        /// The address, in network order.
        ip: [u8; 16],
        /// The port.
        port: u16,
        /// The scope id; `0` where none was given.
        scope_id: u32,
    },
}

/// What an IP address says: its bytes, 4 or 16.
#[verifier::ext_equal]
pub enum IpView {
    V4(Seq<u8>),
    V6(Seq<u8>),
}

/// What a socket address says.
#[verifier::ext_equal]
#[allow(inconsistent_fields)]
pub enum SocketView {
    V4 { ip: Seq<u8>, port: u16 },
    V6 { ip: Seq<u8>, port: u16, scope_id: u32 },
}

impl View for IpAddr {
    type V = IpView;

    open spec fn view(&self) -> IpView {
        match self {
            IpAddr::V4(o) => IpView::V4(o@),
            IpAddr::V6(o) => IpView::V6(o@),
        }
    }
}

impl View for SocketAddr {
    type V = SocketView;

    open spec fn view(&self) -> SocketView {
        match self {
            SocketAddr::V4 { ip, port } => SocketView::V4 { ip: ip@, port: *port },
            SocketAddr::V6 { ip, port, scope_id } => SocketView::V6 {
                ip: ip@,
                port: *port,
                scope_id: *scope_id,
            },
        }
    }
}

/// The prefix of IPv4-mapped IPv6 addresses (`::ffff:0:0/96`).
pub open spec fn mapped_prefix() -> Seq<u8> {
    seq![0u8, 0, 0, 0, 0, 0, 0, 0, 0, 0, 0xff, 0xff]
}

/// The 16-byte form of an address: an IPv4 address is mapped into IPv6.
pub open spec fn as_16(ip: IpView) -> Seq<u8> {
    match ip {
        IpView::V4(o) => mapped_prefix() + o,
        IpView::V6(o) => o,
    }
}

/// The address that is meant: an IPv4-mapped IPv6 address is IPv4.
pub open spec fn canonical(ip: IpView) -> IpView {
    match ip {
        IpView::V6(o) => if o.take(12) == mapped_prefix() {
            IpView::V4(o.skip(12))
        } else {
            ip
        },
        _ => ip,
    }
}

/// An IPv4 address that comes back mapped into IPv6 is recognised.
pub proof fn mapped_address_is_recognised(o: Seq<u8>)
    requires
        o.len() == 4,
    ensures
        canonical(IpView::V6(as_16(IpView::V4(o)))) == IpView::V4(o),
{
    let m = as_16(IpView::V4(o));
    assert(m.take(12) =~= mapped_prefix());
    assert(m.skip(12) =~= o);
}

/// An address and its canonical form have the same 16 bytes.
pub proof fn canonical_keeps_the_address(ip: IpView)
    requires
        match ip {
            IpView::V4(o) => o.len() == 4,
            IpView::V6(o) => o.len() == 16,
        },
    ensures
        as_16(canonical(ip)) == as_16(ip),
{
    if let IpView::V6(o) = ip {
        if o.take(12) == mapped_prefix() {
            assert(o =~= o.take(12) + o.skip(12));
        }
    }
}

/// The 16-byte (v4-mapped for IPv4) form of an address.
pub fn ip_to_16(ip: IpAddr) -> (r: [u8; 16])
    ensures
        r@ == as_16(ip@),
{
    match ip {
        IpAddr::V4(o) => {
            let r: [u8; 16] = [0, 0, 0, 0, 0, 0, 0, 0, 0, 0, 0xff, 0xff, o[0], o[1], o[2], o[3]];
            assert(r@ =~= mapped_prefix() + o@);
            r
        },
        IpAddr::V6(o) => o,
    }
}

/// Canonicalize an address: a dual-stack `[::]` socket delivers IPv4 peers as IPv4-mapped IPv6
/// (`::ffff:a.b.c.d`), so un-map them back to real IPv4. Without this, IPv4 clients are treated as
/// v6: stored in the v6 swarm and banned into the v6 nft set, where the `ip saddr @l7ban4` drop
/// rule never matches them (and `ip6 saddr @l7ban6` can't match a v4 packet either).
pub fn canonical_ip(ip: IpAddr) -> (r: IpAddr)
    ensures
        r@ == canonical(ip@),
{
    match ip {
        IpAddr::V6(o) => {
            let mapped: bool = o[0] == 0 && o[1] == 0 && o[2] == 0 && o[3] == 0 && o[4] == 0 && o[5]
                == 0 && o[6] == 0 && o[7] == 0 && o[8] == 0 && o[9] == 0 && o[10] == 0xff && o[11]
                == 0xff;
            proof {
                if mapped {
                    assert(o@.take(12) =~= mapped_prefix());
                } else if o@.take(12) == mapped_prefix() {
                    assert(forall|i: int| 0 <= i < 12 ==> o@[i] == o@.take(12)[i]);
                    assert(false);
                }
            }
            if mapped {
                let v4: [u8; 4] = [o[12], o[13], o[14], o[15]];
                assert(v4@ =~= o@.skip(12));
                IpAddr::V4(v4)
            } else {
                ip
            }
        },
        IpAddr::V4(_) => ip,
    }
}

/// Whether an IPv4 address is set aside: private, loopback, link-local, unspecified, broadcast or
/// documentation space.
pub open spec fn reserved_v4(o: Seq<u8>) -> bool {
    ||| o[0] == 10
    ||| o[0] == 172 && 16 <= o[1] <= 31
    ||| o[0] == 192 && o[1] == 168
    ||| o[0] == 127
    ||| o[0] == 169 && o[1] == 254
    ||| o[0] == 0 && o[1] == 0 && o[2] == 0 && o[3] == 0
    ||| o[0] == 255 && o[1] == 255 && o[2] == 255 && o[3] == 255
    ||| o[0] == 192 && o[1] == 0 && o[2] == 2
    ||| o[0] == 198 && o[1] == 51 && o[2] == 100
    ||| o[0] == 203 && o[1] == 0 && o[2] == 113
}

/// Whether an IPv6 address is set aside: loopback, unspecified, unique-local (`fc00::/7`) or
/// link-local (`fe80::/10`).
pub open spec fn reserved_v6(o: Seq<u8>) -> bool {
    ||| o.take(15) == Seq::new(15, |i: int| 0u8) && o[15] <= 1
    ||| 0xfc <= o[0] <= 0xfd
    ||| o[0] == 0xfe && 0x80 <= o[1] <= 0xbf
}

/// Whether an address is publicly routable.
pub open spec fn public(ip: IpView) -> bool {
    match ip {
        IpView::V4(o) => !reserved_v4(o),
        IpView::V6(o) => !reserved_v6(o),
    }
}

/// Whether an address is publicly routable. BEP-15's `IP` field is only a legitimate NAT hint from
/// private space, so this decides whether a client setting it is suspicious.
pub fn is_public(ip: IpAddr) -> (r: bool)
    ensures
        r == public(ip@),
{
    match ip {
        IpAddr::V4(o) => {
            !(o[0] == 10 || (o[0] == 172 && 16 <= o[1] && o[1] <= 31) || (o[0] == 192 && o[1]
                == 168) || o[0] == 127 || (o[0] == 169 && o[1] == 254) || (o[0] == 0 && o[1] == 0
                && o[2] == 0 && o[3] == 0) || (o[0] == 255 && o[1] == 255 && o[2] == 255 && o[3]
                == 255) || (o[0] == 192 && o[1] == 0 && o[2] == 2) || (o[0] == 198 && o[1] == 51
                && o[2] == 100) || (o[0] == 203 && o[1] == 0 && o[2] == 113))
        },
        IpAddr::V6(o) => {
            let zeros: bool = zeros_15(&o);
            !((zeros && o[15] <= 1) || (0xfc <= o[0] && o[0] <= 0xfd) || (o[0] == 0xfe && 0x80
                <= o[1] && o[1] <= 0xbf))
        },
    }
}

/// Whether an address is that of the machine itself: `127.0.0.0/8` or `::1`.
pub open spec fn loopback(ip: IpView) -> bool {
    match ip {
        IpView::V4(o) => o[0] == 127,
        IpView::V6(o) => o.take(15) == Seq::new(15, |i: int| 0u8) && o[15] == 1,
    }
}

/// Whether an address is that of the machine itself.
pub fn is_loopback(ip: IpAddr) -> (r: bool)
    ensures
        r == loopback(ip@),
{
    match ip {
        IpAddr::V4(o) => o[0] == 127,
        IpAddr::V6(o) => zeros_15(&o) && o[15] == 1,
    }
}

/// Whether the first 15 bytes are zero.
fn zeros_15(o: &[u8; 16]) -> (r: bool)
    ensures
        r == (o@.take(15) == Seq::new(15, |i: int| 0u8)),
{
    let ghost none = Seq::new(15, |i: int| 0u8);
    let mut i: usize = 0;
    while i < 15
        invariant
            i <= 15,
            none == Seq::new(15, |i: int| 0u8),
            forall|j: int| 0 <= j < i ==> o@[j] == 0,
        decreases 15 - i,
    {
        if o[i] != 0 {
            assert(o@.take(15)[i as int] != none[i as int]);
            return false;
        }
        i = i + 1;
    }
    assert(o@.take(15) =~= none);
    true
}

/// The value of a digit in a radix of 10 or 16.
pub open spec fn digit(c: u8, radix: nat) -> Option<nat> {
    if 48 <= c <= 57 {
        Some((c - 48) as nat)
    } else if radix == 16 && 97 <= c <= 102 {
        Some((c - 97 + 10) as nat)
    } else if radix == 16 && 65 <= c <= 70 {
        Some((c - 65 + 10) as nat)
    } else {
        None
    }
}

/// Whether a given byte stands at a place.
pub open spec fn at(s: Seq<u8>, i: int, c: u8) -> bool {
    0 <= i < s.len() && s[i] == c
}

/// How many digits stand from a place on.
pub open spec fn run(s: Seq<u8>, i: int, radix: nat) -> nat
    decreases s.len() - i,
{
    if 0 <= i < s.len() && digit(s[i], radix) is Some {
        1 + run(s, i + 1, radix)
    } else {
        0
    }
}

/// The number that `n` digits from a place on spell.
pub open spec fn value(s: Seq<u8>, i: int, n: nat, radix: nat) -> nat
    decreases n,
{
    if n == 0 {
        0
    } else {
        value(s, i, (n - 1) as nat, radix) * radix + digit(s[i + n - 1], radix)->0
    }
}

/// The number at a place and where it ends: all digits that stand there, at most `digits` of them
/// and at most `max`; without `zeros`, no leading zero.
pub open spec fn number(
    s: Seq<u8>,
    i: int,
    radix: nat,
    digits: nat,
    zeros: bool,
    max: nat,
) -> Option<(nat, int)> {
    let n = run(s, i, radix);
    if n == 0 || n > digits || (!zeros && n > 1 && s[i] == 48) || value(s, i, n, radix) > max {
        None
    } else {
        Some((value(s, i, n, radix), i + n))
    }
}

/// The first `k` octets of a dotted address at a place, and where they end.
pub open spec fn octets(s: Seq<u8>, i: int, k: nat) -> Option<(Seq<u8>, int)>
    decreases k,
{
    if k == 0 {
        Some((Seq::empty(), i))
    } else {
        match octets(s, i, (k - 1) as nat) {
            Some((o, e)) => {
                if k > 1 && !at(s, e, text::DOT) {
                    None
                } else {
                    match number(
                        s,
                        if k > 1 {
                            e + 1
                        } else {
                            e
                        },
                        10,
                        3,
                        false,
                        255,
                    ) {
                        Some((v, f)) => Some((o.push(v as u8), f)),
                        None => None,
                    }
                }
            },
            None => None,
        }
    }
}

/// IPv6 groups at a place, from index `k` below `limit` on: the groups as bytes, where they end,
/// and whether they ended with an embedded IPv4 address (which takes the room of two groups).
pub open spec fn groups(s: Seq<u8>, i: int, k: int, limit: int) -> (Seq<u8>, int, bool)
    decreases limit - k,
{
    let from = if k > 0 {
        i + 1
    } else {
        i
    };
    if k >= limit || (k > 0 && !at(s, i, text::COLON)) {
        (Seq::empty(), i, false)
    } else if k < limit - 1 && octets(s, from, 4) is Some {
        let (o, e) = octets(s, from, 4).unwrap();
        (o, e, true)
    } else {
        match number(s, from, 16, 4, true, 0xffff) {
            Some((g, e)) => {
                let rest = groups(s, e, k + 1, limit);
                (seq![(g / 256) as u8, (g % 256) as u8] + rest.0, rest.1, rest.2)
            },
            None => (Seq::empty(), i, false),
        }
    }
}

/// The IPv6 address at a place, and where it ends: eight groups, or fewer with one `::` for at
/// least one group of zeros; an embedded IPv4 address stands only at the end.
pub open spec fn v6(s: Seq<u8>, i: int) -> Option<(Seq<u8>, int)> {
    let (head, e, embedded) = groups(s, i, 0, 8);
    if head.len() == 16 {
        Some((head, e))
    } else if embedded || !at(s, e, text::COLON) || !at(s, e + 1, text::COLON) {
        None
    } else {
        let (tail, f, _) = groups(s, e + 2, 0, 7 - head.len() as int / 2);
        Some((head + Seq::new((16 - head.len() - tail.len()) as nat, |j: int| 0u8) + tail, f))
    }
}

/// The address that a text is.
pub open spec fn ip_of(s: Seq<u8>) -> Option<IpView> {
    match octets(s, 0, 4) {
        Some((o, e)) => if e == s.len() {
            Some(IpView::V4(o))
        } else {
            None
        },
        None => match v6(s, 0) {
            Some((o, e)) => if e == s.len() {
                Some(IpView::V6(o))
            } else {
                None
            },
            None => None,
        },
    }
}

/// A colon and a port at a place, and where they end.
pub open spec fn port(s: Seq<u8>, i: int) -> Option<(nat, int)> {
    if at(s, i, text::COLON) {
        number(s, i + 1, 10, s.len(), true, 0xffff)
    } else {
        None
    }
}

/// The scope id at a place and where it ends; none is `0`.
pub open spec fn scope(s: Seq<u8>, i: int) -> (nat, int) {
    if at(s, i, text::PERCENT) {
        match number(s, i + 1, 10, s.len(), true, 0xffff_ffff) {
            Some(r) => r,
            None => (0, i),
        }
    } else {
        (0, i)
    }
}

/// An IPv4 address and a port at the start, and where they end.
pub open spec fn socket_v4(s: Seq<u8>) -> Option<(SocketView, int)> {
    match octets(s, 0, 4) {
        Some((o, e)) => match port(s, e) {
            Some((p, f)) => Some((SocketView::V4 { ip: o, port: p as u16 }, f)),
            None => None,
        },
        None => None,
    }
}

/// A bracketed IPv6 address and a port at the start, and where they end.
pub open spec fn socket_v6(s: Seq<u8>) -> Option<(SocketView, int)> {
    if !at(s, 0, text::OPEN_BRACKET) {
        None
    } else {
        match v6(s, 1) {
            Some((o, e)) => {
                let (id, f) = scope(s, e);
                if !at(s, f, text::CLOSE_BRACKET) {
                    None
                } else {
                    match port(s, f + 1) {
                        Some((p, g)) => Some(
                            (
                                SocketView::V6 { ip: o, port: p as u16, scope_id: id as u32 },
                                g,
                            ),
                        ),
                        None => None,
                    }
                }
            },
            None => None,
        }
    }
}

/// The socket address that a text is.
pub open spec fn socket_of(s: Seq<u8>) -> Option<SocketView> {
    let found = match socket_v4(s) {
        Some(r) => Some(r),
        None => socket_v6(s),
    };
    match found {
        Some((a, e)) => if e == s.len() {
            Some(a)
        } else {
            None
        },
        None => None,
    }
}

/// Digits stand inside the text.
proof fn run_bound(s: Seq<u8>, i: int, radix: nat)
    requires
        0 <= i <= s.len(),
    ensures
        i + run(s, i, radix) <= s.len(),
    decreases s.len() - i,
{
    if i < s.len() && digit(s[i], radix) is Some {
        run_bound(s, i + 1, radix);
    }
}

/// Octets end inside the text.
proof fn octets_bound(s: Seq<u8>, i: int, k: nat)
    requires
        0 <= i <= s.len(),
    ensures
        octets(s, i, k) matches Some((o, e)) ==> i <= e <= s.len() && o.len() == k,
    decreases k,
{
    if k > 0 {
        octets_bound(s, i, (k - 1) as nat);
        if let Some((o, e)) = octets(s, i, (k - 1) as nat) {
            let from = if k > 1 {
                e + 1
            } else {
                e
            };
            if from <= s.len() {
                run_bound(s, from, 10);
            }
        }
    }
}

/// Groups are pairs of bytes, at most as many as there is room for, and end inside the text.
proof fn groups_bound(s: Seq<u8>, i: int, k: int, limit: int)
    requires
        0 <= i <= s.len(),
        0 <= k <= limit,
    ensures
        groups(s, i, k, limit).0.len() <= 2 * (limit - k),
        groups(s, i, k, limit).0.len() % 2 == 0,
        i <= groups(s, i, k, limit).1 <= s.len(),
    decreases limit - k,
{
    let from = if k > 0 {
        i + 1
    } else {
        i
    };
    if k >= limit || (k > 0 && !at(s, i, text::COLON)) {
    } else {
        octets_bound(s, from, 4);
        if k < limit - 1 && octets(s, from, 4) is Some {
        } else {
            run_bound(s, from, 16);
            if let Some((g, e)) = number(s, from, 16, 4, true, 0xffff) {
                groups_bound(s, e, k + 1, limit);
            }
        }
    }
}

/// One more digit.
proof fn value_step(s: Seq<u8>, i: int, n: nat, radix: nat)
    requires
        radix == 10 || radix == 16,
    ensures
        value(s, i, n + 1, radix) == value(s, i, n, radix) * radix + digit(s[i + n], radix)->0,
        value(s, i, n + 1, radix) >= value(s, i, n, radix),
{
    let v = value(s, i, n, radix);
    assert(v * radix >= v) by (nonlinear_arith)
        requires
            radix >= 1,
            v >= 0,
    ;
}

/// The value of a digit.
fn digit_of(c: u8, radix: u64) -> (r: Option<u64>)
    ensures
        match r {
            Some(d) => digit(c, radix as nat) == Some(d as nat) && d < 16,
            None => digit(c, radix as nat) is None,
        },
{
    if 48 <= c && c <= 57 {
        Some((c - 48) as u64)
    } else if radix == 16 && 97 <= c && c <= 102 {
        Some((c - 97 + 10) as u64)
    } else if radix == 16 && 65 <= c && c <= 70 {
        Some((c - 65 + 10) as u64)
    } else {
        None
    }
}

/// Read the number at a place.
fn read_number(s: &[u8], i: usize, radix: u64, digits: usize, zeros: bool, max: u64) -> (r: Option<
    (u64, usize),
>)
    requires
        i <= s@.len(),
        radix == 10 || radix == 16,
        max <= 0xffff_ffff,
    ensures
        match r {
            Some((v, e)) => v <= max && i <= e <= s@.len() && number(
                s@,
                i as int,
                radix as nat,
                digits as nat,
                zeros,
                max as nat,
            ) == Some((v as nat, e as int)),
            None => number(
                s@,
                i as int,
                radix as nat,
                digits as nat,
                zeros,
                max as nat,
            ) is None,
        },
{
    let ghost b = radix as nat;
    let ghost from = i as int;
    let n: usize = s.len();
    let mut v: u64 = 0;
    let mut over: bool = false;
    let mut j: usize = i;
    let mut more: bool = true;
    while more
        invariant
            i <= j <= n,
            n == s@.len(),
            from == i,
            b == radix,
            radix == 10 || radix == 16,
            max <= 0xffff_ffff,
            more ==> run(s@, from, b) == (j - from) + run(s@, j as int, b),
            !more ==> run(s@, from, b) == j - from,
            !over ==> v == value(s@, from, (j - from) as nat, b) && v <= max,
            over ==> value(s@, from, (j - from) as nat, b) > max,
        decreases n - j + (if more {
            1int
        } else {
            0
        }),
    {
        let d: Option<u64> = if j < n {
            digit_of(s[j], radix)
        } else {
            None
        };
        match d {
            Some(d) => {
                proof {
                    value_step(s@, from, (j - from) as nat, b);
                }
                if !over {
                    if radix == 10 {
                        v = v * 10 + d;
                    } else {
                        v = v * 16 + d;
                    }
                    over = v > max;
                }
                j = j + 1;
            },
            None => {
                more = false;
            },
        }
    }
    let count: usize = j - i;
    if count == 0 || count > digits || (!zeros && count > 1 && s[i] == 48) || over {
        None
    } else {
        Some((v, j))
    }
}

/// Read a dotted address at a place.
fn read_v4(s: &[u8], i: usize) -> (r: Option<([u8; 4], usize)>)
    requires
        i <= s@.len(),
    ensures
        match r {
            Some((o, e)) => i <= e <= s@.len() && octets(s@, i as int, 4) == Some((o@, e as int)),
            None => octets(s@, i as int, 4) is None,
        },
{
    let n: usize = s.len();
    let mut o: [u8; 4] = [0; 4];
    let mut e: usize = i;
    let mut k: usize = 0;
    assert(o@.take(0) =~= Seq::<u8>::empty());
    while k < 4
        invariant
            k <= 4,
            n == s@.len(),
            i <= e <= n,
            octets(s@, i as int, k as nat) == Some((o@.take(k as int), e as int)),
        decreases 4 - k,
    {
        let ghost before = o@.take(k as int);
        if k > 0 {
            if e >= n || s[e] != text::DOT {
                proof {
                    octets_fail(s@, i as int, k as nat + 1);
                }
                return None;
            }
            e = e + 1;
        }
        match read_number(s, e, 10, 3, false, 255) {
            Some((v, f)) => {
                o[k] = v as u8;
                assert(o@.take(k + 1) =~= before.push(v as u8));
                e = f;
            },
            None => {
                proof {
                    octets_fail(s@, i as int, k as nat + 1);
                }
                return None;
            },
        }
        k = k + 1;
    }
    assert(o@.take(4) =~= o@);
    Some((o, e))
}

/// Without the first octets there is no address.
proof fn octets_fail(s: Seq<u8>, i: int, k: nat)
    requires
        k <= 4,
        octets(s, i, k) is None,
    ensures
        octets(s, i, 4) is None,
    decreases 4 - k,
{
    if k < 4 {
        octets_fail(s, i, k + 1);
    }
}

/// Read IPv6 groups at a place.
fn read_groups(s: &[u8], i: usize, limit: usize) -> (r: (Vec<u8>, usize, bool))
    requires
        i <= s@.len(),
        limit <= 8,
    ensures
        (r.0@, r.1 as int, r.2) == groups(s@, i as int, 0, limit as int),
        r.0@.len() <= 2 * limit,
        r.0@.len() % 2 == 0,
        i <= r.1 <= s@.len(),
{
    let n: usize = s.len();
    let ghost whole = groups(s@, i as int, 0, limit as int);
    let mut got: Vec<u8> = Vec::new();
    let mut e: usize = i;
    let mut k: usize = 0;
    proof {
        groups_bound(s@, i as int, 0, limit as int);
        assert(got@ + whole.0 =~= whole.0);
    }
    while k < limit
        invariant
            k <= limit <= 8,
            n == s@.len(),
            i <= e <= n,
            whole == groups(s@, i as int, 0, limit as int),
            whole.0.len() <= 2 * limit,
            whole.0.len() % 2 == 0,
            i <= whole.1 <= n,
            whole.0 == got@ + groups(s@, e as int, k as int, limit as int).0,
            whole.1 == groups(s@, e as int, k as int, limit as int).1,
            whole.2 == groups(s@, e as int, k as int, limit as int).2,
        decreases limit - k,
    {
        let ghost here = groups(s@, e as int, k as int, limit as int);
        if k > 0 && (e >= n || s[e] != text::COLON) {
            assert(got@ + Seq::<u8>::empty() =~= got@);
            return (got, e, false);
        }
        let from: usize = if k > 0 {
            e + 1
        } else {
            e
        };
        if k < limit - 1 {
            if let Some((o, f)) = read_v4(s, from) {
                let ghost before = got@;
                got.push(o[0]);
                got.push(o[1]);
                got.push(o[2]);
                got.push(o[3]);
                assert(got@ =~= before + o@);
                return (got, f, true);
            }
        }
        match read_number(s, from, 16, 4, true, 0xffff) {
            Some((g, f)) => {
                let ghost before = got@;
                got.push((g / 256) as u8);
                got.push((g % 256) as u8);
                proof {
                    let rest = groups(s@, f as int, k + 1, limit as int);
                    assert(got@ + rest.0 =~= before + here.0);
                }
                e = f;
            },
            None => {
                assert(got@ + Seq::<u8>::empty() =~= got@);
                return (got, e, false);
            },
        }
        k = k + 1;
    }
    assert(got@ + Seq::<u8>::empty() =~= got@);
    (got, e, false)
}

/// Read an IPv6 address at a place.
fn read_v6(s: &[u8], i: usize) -> (r: Option<([u8; 16], usize)>)
    requires
        i <= s@.len(),
    ensures
        match r {
            Some((o, e)) => i <= e <= s@.len() && v6(s@, i as int) == Some((o@, e as int)),
            None => v6(s@, i as int) is None,
        },
{
    let n: usize = s.len();
    let (head, e, embedded) = read_groups(s, i, 8);
    let mut o: [u8; 16] = [0; 16];
    let h: usize = head.len();
    let mut j: usize = 0;
    while j < h
        invariant
            j <= h <= 16,
            h == head@.len(),
            forall|k: int| 0 <= k < j ==> o@[k] == head@[k],
            forall|k: int| j <= k < 16 ==> o@[k] == 0,
        decreases h - j,
    {
        o[j] = head[j];
        j = j + 1;
    }
    if h == 16 {
        assert(o@ =~= head@);
        return Some((o, e));
    }
    if embedded || e >= n || s[e] != text::COLON || e + 1 >= n || s[e + 1] != text::COLON {
        return None;
    }
    let (tail, f, _) = read_groups(s, e + 2, 7 - h / 2);
    let t: usize = tail.len();
    let mut j: usize = 0;
    while j < t
        invariant
            j <= t,
            t == tail@.len(),
            h == head@.len(),
            h + t <= 14,
            forall|k: int| 0 <= k < h ==> o@[k] == head@[k],
            forall|k: int| h <= k < 16 - t ==> o@[k] == 0,
            forall|k: int| 16 - t <= k < 16 - t + j ==> o@[k] == tail@[k - (16 - t)],
        decreases t - j,
    {
        o[16 - t + j] = tail[j];
        j = j + 1;
    }
    assert(o@ =~= head@ + Seq::new((16 - h - t) as nat, |j: int| 0u8) + tail@);
    Some((o, f))
}

/// Parse an IP address.
pub fn parse_ip(s: &[u8]) -> (r: Option<IpAddr>)
    ensures
        match r {
            Some(a) => ip_of(s@) == Some(a@),
            None => ip_of(s@) is None,
        },
{
    match read_v4(s, 0) {
        Some((o, e)) => {
            if e == s.len() {
                Some(IpAddr::V4(o))
            } else {
                None
            }
        },
        None => match read_v6(s, 0) {
            Some((o, e)) => {
                if e == s.len() {
                    Some(IpAddr::V6(o))
                } else {
                    None
                }
            },
            None => None,
        },
    }
}

/// Read a colon and a port at a place.
fn read_port(s: &[u8], i: usize) -> (r: Option<(u16, usize)>)
    requires
        i <= s@.len(),
    ensures
        match r {
            Some((p, e)) => i <= e <= s@.len() && port(s@, i as int) == Some((p as nat, e as int)),
            None => port(s@, i as int) is None,
        },
{
    if i < s.len() && s[i] == text::COLON {
        match read_number(s, i + 1, 10, s.len(), true, 0xffff) {
            Some((p, e)) => Some((p as u16, e)),
            None => None,
        }
    } else {
        None
    }
}

/// Read a scope id at a place.
fn read_scope(s: &[u8], i: usize) -> (r: (u32, usize))
    requires
        i <= s@.len(),
    ensures
        (r.0 as nat, r.1 as int) == scope(s@, i as int),
        i <= r.1 <= s@.len(),
{
    if i < s.len() && s[i] == text::PERCENT {
        match read_number(s, i + 1, 10, s.len(), true, 0xffff_ffff) {
            Some((id, e)) => (id as u32, e),
            None => (0, i),
        }
    } else {
        (0, i)
    }
}

/// Read a bracketed IPv6 address and a port.
fn read_socket_v6(s: &[u8]) -> (r: Option<(SocketAddr, usize)>)
    ensures
        match r {
            Some((a, e)) => socket_v6(s@) == Some((a@, e as int)),
            None => socket_v6(s@) is None,
        },
{
    if s.len() == 0 || s[0] != text::OPEN_BRACKET {
        return None;
    }
    match read_v6(s, 1) {
        Some((ip, e)) => {
            let (scope_id, f) = read_scope(s, e);
            if f >= s.len() || s[f] != text::CLOSE_BRACKET {
                return None;
            }
            match read_port(s, f + 1) {
                Some((port, g)) => Some((SocketAddr::V6 { ip, port, scope_id }, g)),
                None => None,
            }
        },
        None => None,
    }
}

/// Read an IPv4 address and a port.
fn read_socket_v4(s: &[u8]) -> (r: Option<(SocketAddr, usize)>)
    ensures
        match r {
            Some((a, e)) => socket_v4(s@) == Some((a@, e as int)),
            None => socket_v4(s@) is None,
        },
{
    match read_v4(s, 0) {
        Some((ip, e)) => match read_port(s, e) {
            Some((port, f)) => Some((SocketAddr::V4 { ip, port }, f)),
            None => None,
        },
        None => None,
    }
}

/// Parse a socket address: `ip:port` or `[v6]:port`.
pub fn parse_socket(s: &[u8]) -> (r: Option<SocketAddr>)
    ensures
        match r {
            Some(a) => socket_of(s@) == Some(a@),
            None => socket_of(s@) is None,
        },
{
    let found = match read_socket_v4(s) {
        Some(r) => Some(r),
        None => read_socket_v6(s),
    };
    match found {
        Some((a, e)) => {
            if e == s.len() {
                Some(a)
            } else {
                None
            }
        },
        None => None,
    }
}

} // verus!
