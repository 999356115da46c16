//! What holds of addresses: their ranges and their notations.

use vstd::prelude::*;

use crate::addr;
use crate::addr::{IpView, SocketView};
use crate::decimal;
use crate::text;
use crate::wire;

verus! {

/// An IPv4-mapped IPv6 address is ten zero bytes, two bytes of ones and the IPv4 address. Such an
/// address is taken for the IPv4 one; every other address is taken as it is.
pub proof fn mapped_addresses_are_v4(o: Seq<u8>, four: Seq<u8>)
    requires
        o.len() == 16,
        four.len() == 4,
    ensures
        ({
            let mapped = o[10] == 0xff && o[11] == 0xff && forall|i: int|
                0 <= i < 10 ==> #[trigger] o[i] == 0;
            &&& mapped ==> addr::canonical(IpView::V6(o)) == IpView::V4(o.skip(12))
            &&& !mapped ==> addr::canonical(IpView::V6(o)) == IpView::V6(o)
        }),
        addr::canonical(IpView::V4(four)) == IpView::V4(four),
        ({
            let wide = addr::as_16(IpView::V4(four));
            &&& wide.len() == 16
            &&& forall|i: int| 0 <= i < 10 ==> #[trigger] wide[i] == 0
            &&& wide[10] == 0xff && wide[11] == 0xff
            &&& wide.skip(12) == four
        }),
        addr::as_16(IpView::V6(o)) == o,
{
    let head = o.take(12);
    assert(head == addr::mapped_prefix() <==> (o[10] == 0xff && o[11] == 0xff && forall|i: int|
        0 <= i < 10 ==> #[trigger] o[i] == 0)) by {
        if head == addr::mapped_prefix() {
            assert forall|i: int| 0 <= i < 10 implies #[trigger] o[i] == 0 by {
                assert(o[i] == head[i]);
            }
            assert(o[10] == head[10] && o[11] == head[11]);
        } else if o[10] == 0xff && o[11] == 0xff && forall|i: int|
            0 <= i < 10 ==> #[trigger] o[i] == 0 {
            assert(head =~= addr::mapped_prefix());
        }
    }
    let wide = addr::as_16(IpView::V4(four));
    assert(wide.skip(12) =~= four);
}

/// The IPv4 addresses that are not public are the private, loopback, link-local and
/// documentation ranges, and the two ends of the address space.
pub proof fn reserved_v4_ranges(o: Seq<u8>)
    requires
        o.len() == 4,
    ensures
        ({
            let n = wire::be_nat(o);
            addr::public(IpView::V4(o)) <==> !({
                ||| 0x0a00_0000 <= n <= 0x0aff_ffff
                ||| 0xac10_0000 <= n <= 0xac1f_ffff
                ||| 0xc0a8_0000 <= n <= 0xc0a8_ffff
                ||| 0x7f00_0000 <= n <= 0x7fff_ffff
                ||| 0xa9fe_0000 <= n <= 0xa9fe_ffff
                ||| n == 0
                ||| n == 0xffff_ffff
                ||| 0xc000_0200 <= n <= 0xc000_02ff
                ||| 0xc633_6400 <= n <= 0xc633_64ff
                ||| 0xcb00_7100 <= n <= 0xcb00_71ff
            })
        }),
        addr::loopback(IpView::V4(o)) <==> 0x7f00_0000 <= wire::be_nat(o) <= 0x7fff_ffff,
{
    reveal_with_fuel(wire::be_nat, 5);
    let three = o.drop_last();
    let two = three.drop_last();
    let one = two.drop_last();
    assert(three.last() == o[2] && two.last() == o[1] && one.last() == o[0]);
}

/// The IPv6 addresses that are not public are the unspecified and the loopback address, the
/// unique local and the link-local ones.
pub proof fn reserved_v6_ranges(o: Seq<u8>)
    requires
        o.len() == 16,
    ensures
        ({
            let high = o[0] * 256 + o[1];
            addr::public(IpView::V6(o)) <==> !({
                ||| wire::be_nat(o) <= 1
                ||| 0xfc00 <= high <= 0xfdff
                ||| 0xfe80 <= high <= 0xfebf
            })
        }),
        addr::loopback(IpView::V6(o)) <==> wire::be_nat(o) == 1,
{
    let zeros = Seq::new(15, |i: int| 0u8);
    let front = o.drop_last();
    assert(front =~= o.take(15));
    assert(wire::be_nat(o) == wire::be_nat(front) * 256 + o[15]);
    zeros_spell_zero(zeros);
    if wire::be_nat(front) == 0 {
        wire::be_nat_injective(front, zeros);
    }
}

/// Zeros spell zero.
proof fn zeros_spell_zero(s: Seq<u8>)
    requires
        forall|i: int| 0 <= i < s.len() ==> #[trigger] s[i] == 0,
    ensures
        wire::be_nat(s) == 0,
    decreases s.len(),
{
    if s.len() > 0 {
        assert(s[s.len() - 1] == 0);
        assert forall|i: int| 0 <= i < s.drop_last().len() implies #[trigger] s.drop_last()[i]
            == 0 by {
            assert(s[i] == 0);
        }
        zeros_spell_zero(s.drop_last());
    }
}

/// The decimal notation of a number, as bytes.
pub open spec fn decimal_text(n: nat) -> Seq<u8> {
    text::utf8(decimal::decimal(n))
}

/// Whether a text goes on at `i` with `part`.
pub open spec fn goes_on(s: Seq<u8>, i: int, part: Seq<u8>) -> bool {
    &&& 0 <= i && i + part.len() <= s.len()
    &&& forall|j: int| 0 <= j < part.len() ==> s[i + j] == #[trigger] part[j]
}

/// Whether no digit stands at `i`.
pub open spec fn ends(s: Seq<u8>, i: int, radix: nat) -> bool {
    i < s.len() ==> addr::digit(s[i], radix) is None
}

/// Digits up to something else are a run of that many.
proof fn run_is(s: Seq<u8>, i: int, k: nat, radix: nat)
    requires
        0 <= i,
        i + k <= s.len(),
        forall|j: int| i <= j < i + k ==> addr::digit(#[trigger] s[j], radix) is Some,
        ends(s, i + k, radix),
    ensures
        addr::run(s, i, radix) == k,
    decreases k,
{
    if k > 0 {
        assert(addr::digit(s[i], radix) is Some);
        run_is(s, i + 1, (k - 1) as nat, radix);
    }
}

/// Decimal notation has the value of its number, and no zero in front of another digit.
proof fn value_is(s: Seq<u8>, i: int, n: nat)
    requires
        0 <= i,
        i + decimal::decimal(n).len() <= s.len(),
        forall|j: int|
            0 <= j < decimal::decimal(n).len() ==> s[i + j] == #[trigger] decimal::decimal(
                n,
            )[j] as u8,
    ensures
        addr::value(s, i, decimal::decimal(n).len(), 10) == n,
        n > 0 ==> s[i] != 48,
        n < 10 ==> decimal::decimal(n).len() == 1,
    decreases n,
{
    decimal::decimal_digits(n);
    let d = decimal::decimal(n);
    if n < 10 {
        reveal_with_fuel(addr::value, 2);
        assert(s[i + 0] == d[0] as u8);
    } else {
        let higher = decimal::decimal(n / 10);
        decimal::decimal_digits(n / 10);
        assert forall|j: int| 0 <= j < higher.len() implies s[i + j] == #[trigger] higher[j] as u8 by {
            assert(d[j] == higher[j]);
        }
        value_is(s, i, n / 10);
        assert(s[i + (d.len() - 1)] == d[d.len() - 1] as u8);
        assert(d[d.len() - 1] == decimal::digit(n % 10));
    }
}

/// A number in decimal notation is read up to what is no digit: it is refused exactly where it
/// has too many digits or is too large.
pub proof fn decimal_is_read(s: Seq<u8>, i: int, n: nat, digits: nat, zeros: bool, max: nat)
    requires
        goes_on(s, i, decimal_text(n)),
        ends(s, i + decimal_text(n).len(), 10),
    ensures
        addr::number(s, i, 10, digits, zeros, max) == (if decimal_text(n).len() > digits || n
            > max {
            None
        } else {
            Some((n, i + decimal_text(n).len()))
        }),
{
    decimal::decimal_bytes(n);
    decimal::decimal_digits(n);
    let d = decimal::decimal(n);
    let t = decimal_text(n);
    assert forall|j: int| 0 <= j < d.len() implies s[i + j] == #[trigger] d[j] as u8 by {
        assert(s[i + j] == t[j]);
    }
    assert forall|j: int| i <= j < i + d.len() implies addr::digit(#[trigger] s[j], 10) is Some by {
        assert(s[i + (j - i)] == d[j - i] as u8);
    }
    run_is(s, i, d.len(), 10);
    value_is(s, i, n);
}

/// Where leading zeros are not allowed a zero in front of a decimal notation makes it no number.
pub proof fn leading_zero_is_refused(s: Seq<u8>, i: int, n: nat, digits: nat, max: nat)
    requires
        goes_on(s, i, seq![0x30u8] + decimal_text(n)),
        ends(s, i + 1 + decimal_text(n).len(), 10),
    ensures
        addr::number(s, i, 10, digits, false, max) is None,
{
    decimal::decimal_bytes(n);
    decimal::decimal_digits(n);
    let d = decimal::decimal(n);
    let t = seq![0x30u8] + decimal_text(n);
    assert(s[i + 0] == t[0]);
    assert forall|j: int| i <= j < i + 1 + d.len() implies addr::digit(#[trigger] s[j], 10) is Some by {
        assert(s[i + (j - i)] == t[j - i]);
        if j > i {
            assert(t[j - i] == decimal_text(n)[j - i - 1]);
            assert(d[j - i - 1] as u8 == decimal_text(n)[j - i - 1]);
        }
    }
    run_is(s, i, 1 + d.len(), 10);
}

/// A byte has at most three decimal digits.
proof fn byte_is_short(b: u8)
    ensures
        1 <= decimal_text(b as nat).len() <= 3,
{
    decimal::decimal_bytes(b as nat);
    reveal_with_fuel(decimal::decimal, 4);
}

/// Four bytes in decimal notation, with dots between them.
pub open spec fn dotted(o: Seq<u8>) -> Seq<u8> {
    decimal_text(o[0] as nat) + seq![0x2eu8] + decimal_text(o[1] as nat) + seq![0x2eu8]
        + decimal_text(o[2] as nat) + seq![0x2eu8] + decimal_text(o[3] as nat)
}

/// Four bytes in dotted notation are read up to what is no digit.
proof fn octets_are(s: Seq<u8>, i: int, o: Seq<u8>)
    requires
        o.len() == 4,
        goes_on(s, i, dotted(o)),
        ends(s, i + dotted(o).len(), 10),
    ensures
        addr::octets(s, i, 4) == Some((o, i + dotted(o).len())),
{
    let a = decimal_text(o[0] as nat);
    let b = decimal_text(o[1] as nat);
    let c = decimal_text(o[2] as nat);
    let d = decimal_text(o[3] as nat);
    let t = dotted(o);
    byte_is_short(o[0]);
    byte_is_short(o[1]);
    byte_is_short(o[2]);
    byte_is_short(o[3]);
    let ib: int = i + a.len() + 1;
    let ic: int = ib + b.len() + 1;
    let id: int = ic + c.len() + 1;
    assert forall|j: int| 0 <= j < a.len() implies s[i + j] == #[trigger] a[j] by {
        assert(t[j] == a[j]);
    }
    assert(t[a.len() as int] == 0x2e);
    assert forall|j: int| 0 <= j < b.len() implies s[ib + j] == #[trigger] b[j] by {
        assert(t[ib - i + j] == b[j]);
    }
    assert(t[ib - i + b.len()] == 0x2e);
    assert forall|j: int| 0 <= j < c.len() implies s[ic + j] == #[trigger] c[j] by {
        assert(t[ic - i + j] == c[j]);
    }
    assert(t[ic - i + c.len()] == 0x2e);
    assert forall|j: int| 0 <= j < d.len() implies s[id + j] == #[trigger] d[j] by {
        assert(t[id - i + j] == d[j]);
    }
    assert(s[i + a.len()] == 0x2e && s[ib + b.len()] == 0x2e && s[ic + c.len()] == 0x2e);
    decimal_is_read(s, i, o[0] as nat, 3, false, 255);
    decimal_is_read(s, ib, o[1] as nat, 3, false, 255);
    decimal_is_read(s, ic, o[2] as nat, 3, false, 255);
    decimal_is_read(s, id, o[3] as nat, 3, false, 255);
    reveal_with_fuel(addr::octets, 5);
    assert(o =~= Seq::<u8>::empty().push(o[0]).push(o[1]).push(o[2]).push(o[3]));
}

/// Dotted notation is read as the IPv4 address that it spells, and as no address where something
/// other than a digit follows it.
pub proof fn dotted_notation_is_read(o: Seq<u8>, c: u8)
    requires
        o.len() == 4,
    ensures
        addr::ip_of(dotted(o)) == Some(IpView::V4(o)),
        !(0x30 <= c <= 0x39) ==> addr::ip_of(dotted(o).push(c)) is None,
{
    octets_are(dotted(o), 0, o);
    if !(0x30 <= c <= 0x39) {
        octets_are(dotted(o).push(c), 0, o);
    }
}

/// An IPv4 address in dotted notation, a colon and a port are read as that socket address; no
/// port has more than sixteen bits.
pub proof fn dotted_socket_is_read(o: Seq<u8>, port: nat)
    requires
        o.len() == 4,
    ensures
        addr::socket_of(dotted(o) + seq![0x3au8] + decimal_text(port)) == (if port <= 0xffff {
            Some(SocketView::V4 { ip: o, port: port as u16 })
        } else {
            None
        }),
        addr::socket_of(dotted(o)) is None,
{
    let t = dotted(o);
    let p = decimal_text(port);
    let s = t + seq![0x3au8] + p;
    assert(s[t.len() as int] == 0x3a);
    octets_are(s, 0, o);
    assert forall|j: int| 0 <= j < p.len() implies s[t.len() + 1 + j] == #[trigger] p[j] by {}
    decimal_is_read(s, t.len() as int + 1, port, s.len(), true, 0xffff);
    octets_are(t, 0, o);
    byte_is_short(o[0]);
    decimal::decimal_digits(o[0] as nat);
    decimal::decimal_bytes(o[0] as nat);
    assert(t[0] == decimal_text(o[0] as nat)[0]);
    assert(s[0] == t[0]);
    assert(decimal_text(o[0] as nat)[0] == decimal::decimal(o[0] as nat)[0] as u8);
}

/// The digit `d` of hexadecimal notation.
pub open spec fn hex_digit(d: int) -> u8 {
    if d < 10 {
        (0x30 + d) as u8
    } else {
        (0x61 + d - 10) as u8
    }
}

/// The hexadecimal digits of sixteen bits.
pub open spec fn hextet(g: u16) -> Seq<u8> {
    seq![
        hex_digit(g as int / 4096),
        hex_digit(g as int / 256 % 16),
        hex_digit(g as int / 16 % 16),
        hex_digit(g as int % 16),
    ]
}

/// Groups of sixteen bits in hexadecimal notation, with colons between them.
pub open spec fn written(gs: Seq<u16>) -> Seq<u8> {
    Seq::new(
        if gs.len() == 0 {
            0
        } else {
            (5 * gs.len() - 1) as nat
        },
        |p: int|
            if p % 5 == 4 {
                0x3au8
            } else {
                hextet(gs[p / 5])[p % 5]
            },
    )
}

/// The bytes of groups of sixteen bits.
pub open spec fn bytes(gs: Seq<u16>) -> Seq<u8> {
    Seq::new(
        2 * gs.len(),
        |p: int|
            if p % 2 == 0 {
                (gs[p / 2] / 256) as u8
            } else {
                (gs[p / 2] % 256) as u8
            },
    )
}

/// A group is read as its sixteen bits, and never begins a dotted notation.
proof fn group_is_read(s: Seq<u8>, i: int, g: u16)
    requires
        goes_on(s, i, hextet(g)),
        ends(s, i + 4, 16),
        i + 4 < s.len() ==> s[i + 4] != 0x2e,
    ensures
        addr::number(s, i, 16, 4, true, 0xffff) == Some((g as nat, i + 4)),
        addr::octets(s, i, 4) is None,
{
    let t = hextet(g);
    assert(s[i + 0] == t[0] && s[i + 1] == t[1] && s[i + 2] == t[2] && s[i + 3] == t[3]);
    assert forall|j: int| i <= j < i + 4 implies addr::digit(#[trigger] s[j], 16) is Some by {
        assert(s[i + (j - i)] == t[j - i]);
    }
    run_is(s, i, 4, 16);
    reveal_with_fuel(addr::value, 5);
    let n = g as int;
    assert(n / 4096 * 4096 + n / 256 % 16 * 256 + n / 16 % 16 * 16 + n % 16 == n);
    not_dotted(s, i, 4);
}

/// What has no dot where its digits end is no dotted notation.
proof fn not_dotted(s: Seq<u8>, i: int, k: int)
    requires
        0 <= i,
        0 <= k,
        forall|j: int| i <= j < i + k && j < s.len() ==> #[trigger] s[j] != 0x2e,
        i + k < s.len() ==> addr::digit(s[i + k], 10) is None && s[i + k] != 0x2e,
    ensures
        addr::octets(s, i, 4) is None,
{
    reveal_with_fuel(addr::octets, 5);
    run_stays(s, i, k);
}

/// A run of digits does not go past what is no digit.
proof fn run_stays(s: Seq<u8>, i: int, k: int)
    requires
        0 <= i,
        0 <= k,
        i + k < s.len() ==> addr::digit(s[i + k], 10) is None,
    ensures
        addr::run(s, i, 10) <= k,
    decreases k,
{
    if 0 < k && i < s.len() {
        run_stays(s, i + 1, k - 1);
    }
}

/// Whether the groups `gs` stand at `i` as those after the first `k`: each after a colon, but
/// for the first of all.
spec fn stand(s: Seq<u8>, i: int, k: int, gs: Seq<u16>) -> bool {
    let start = if k > 0 {
        i + 1
    } else {
        i
    };
    forall|j: int|
        #![trigger gs[j]]
        0 <= j < gs.len() ==> goes_on(s, start + 5 * j, hextet(gs[j])) && (j > 0 || k > 0 ==> s[
        start + 5 * j - 1] == 0x3a)
}

/// Where groups that stand at `i` end.
spec fn end_of(i: int, k: int, n: int) -> int {
    if n == 0 {
        i
    } else if k > 0 {
        i + 5 * n
    } else {
        i + 5 * n - 1
    }
}

/// Groups are read up to the limit or to where no group follows.
proof fn groups_are(s: Seq<u8>, i: int, k: int, limit: int, gs: Seq<u16>)
    requires
        0 <= i <= s.len(),
        0 <= k,
        k + gs.len() <= limit,
        stand(s, i, k, gs),
        ({
            let e = end_of(i, k, gs.len() as int);
            let n = k + gs.len();
            &&& e < s.len() ==> addr::digit(s[e], 16) is None && s[e] != 0x2e
            &&& n < limit && n > 0 && e < s.len() && s[e] == 0x3a ==> (e + 1 < s.len()
                ==> addr::digit(s[e + 1], 16) is None && s[e + 1] != 0x2e)
        }),
    ensures
        addr::groups(s, i, k, limit) == (bytes(gs), end_of(i, k, gs.len() as int), false),
    decreases gs.len(),
{
    let from = if k > 0 {
        i + 1
    } else {
        i
    };
    if gs.len() == 0 {
        assert(bytes(gs) =~= Seq::empty());
        if k < limit && !(k > 0 && !addr::at(s, i, text::COLON)) {
            assert(addr::run(s, from, 16) == 0);
            not_dotted(s, from, 0);
        }
    } else {
        let rest = gs.skip(1);
        let next = from + 4;
        assert(goes_on(s, from + 5 * 0, hextet(gs[0])));
        if k > 0 {
            assert(s[from + 5 * 0 - 1] == 0x3a);
        }
        assert forall|j: int| #![trigger rest[j]] 0 <= j < rest.len() implies goes_on(
            s,
            next + 1 + 5 * j,
            hextet(rest[j]),
        ) && s[next + 1 + 5 * j - 1] == 0x3a by {
            assert(rest[j] == gs[j + 1]);
            assert(from + 5 * (j + 1) == next + 1 + 5 * j);
        }
        if rest.len() > 0 {
            assert(s[next + 1 + 5 * 0 - 1] == 0x3a) by {
                assert(rest[0] == gs[1]);
            }
        }
        assert(end_of(next, k + 1, rest.len() as int) == end_of(i, k, gs.len() as int));
        group_is_read(s, from, gs[0]);
        groups_are(s, next, k + 1, limit, rest);
        let g = gs[0] as nat;
        assert(bytes(gs) =~= seq![(g / 256) as u8, (g % 256) as u8] + bytes(rest)) by {
            assert forall|p: int| 2 <= p < 2 * gs.len() implies #[trigger] bytes(gs)[p] == bytes(
                rest,
            )[p - 2] by {
                assert(rest[(p - 2) / 2] == gs[p / 2]);
            }
        }
    }
}

/// Written groups stand where their text goes on.
proof fn written_stand(s: Seq<u8>, i: int, gs: Seq<u16>)
    requires
        goes_on(s, i, written(gs)),
    ensures
        stand(s, i, 0, gs),
{
    let w = written(gs);
    assert forall|j: int| #![trigger gs[j]] 0 <= j < gs.len() implies goes_on(
        s,
        i + 5 * j,
        hextet(gs[j]),
    ) && (j > 0 ==> s[i + 5 * j - 1] == 0x3a) by {
        let h = hextet(gs[j]);
        assert forall|m: int| 0 <= m < h.len() implies s[i + 5 * j + m] == #[trigger] h[m] by {
            let p = 5 * j + m;
            assert(p / 5 == j && p % 5 == m);
            assert(w[p] == h[m]);
            assert(s[i + p] == w[p]);
        }
        if j > 0 {
            let p = 5 * j - 1;
            assert(p % 5 == 4);
            assert(s[i + p] == w[p]);
        }
    }
}

/// Whether an IPv6 address in text may end at `i`.
pub open spec fn stops(s: Seq<u8>, i: int) -> bool {
    i < s.len() ==> addr::digit(s[i], 16) is None && s[i] != 0x2e && s[i] != 0x3a
}

/// Eight groups are an IPv6 address.
proof fn eight_groups_are(s: Seq<u8>, i: int, gs: Seq<u16>)
    requires
        gs.len() == 8,
        goes_on(s, i, written(gs)),
        stops(s, i + 39),
    ensures
        addr::v6(s, i) == Some((bytes(gs), i + 39)),
        addr::octets(s, i, 4) is None,
{
    written_stand(s, i, gs);
    groups_are(s, i, 0, 8, gs);
    assert(goes_on(s, i + 5 * 0, hextet(gs[0])));
    assert(s[i + 4] == written(gs)[4]);
    group_is_read(s, i, gs[0]);
}

/// The text of an IPv6 address with a gap: the groups before it, two colons, the groups after.
pub open spec fn gapped(head: Seq<u16>, tail: Seq<u16>) -> Seq<u8> {
    written(head) + seq![0x3au8, 0x3au8] + written(tail)
}

/// The bytes of an IPv6 address with a gap, which stands for zeros.
pub open spec fn filled(head: Seq<u16>, tail: Seq<u16>) -> Seq<u8> {
    bytes(head) + Seq::new((16 - 2 * head.len() - 2 * tail.len()) as nat, |j: int| 0u8) + bytes(
        tail,
    )
}

/// Groups with a gap are an IPv6 address.
proof fn gapped_groups_are(s: Seq<u8>, i: int, head: Seq<u16>, tail: Seq<u16>)
    requires
        head.len() + tail.len() <= 7,
        goes_on(s, i, gapped(head, tail)),
        stops(s, i + gapped(head, tail).len()),
    ensures
        addr::v6(s, i) == Some((filled(head, tail), i + gapped(head, tail).len())),
        addr::octets(s, i, 4) is None,
{
    let t = gapped(head, tail);
    let h = written(head);
    let e: int = i + h.len();
    assert forall|j: int| 0 <= j < h.len() implies s[i + j] == #[trigger] h[j] by {
        assert(t[j] == h[j]);
    }
    assert(t[h.len() as int] == 0x3a && t[h.len() as int + 1] == 0x3a);
    assert(s[e] == 0x3a && s[e + 1] == 0x3a);
    let w = written(tail);
    assert forall|j: int| 0 <= j < w.len() implies s[e + 2 + j] == #[trigger] w[j] by {
        assert(t[h.len() + 2 + j] == w[j]);
    }
    written_stand(s, i, head);
    written_stand(s, e + 2, tail);
    groups_are(s, i, 0, 8, head);
    groups_are(s, e + 2, 0, 7 - head.len() as int, tail);
    if head.len() > 0 {
        assert(goes_on(s, i + 5 * 0, hextet(head[0])));
        if head.len() > 1 {
            assert(s[i + 4] == h[4]);
        }
        group_is_read(s, i, head[0]);
    } else {
        not_dotted(s, i, 0);
    }
}

/// Eight groups of hexadecimal digits are read as the IPv6 address that they spell. So are fewer
/// of them around two colons, which stand for the zeros left out.
pub proof fn hexadecimal_notation_is_read(gs: Seq<u16>, head: Seq<u16>, tail: Seq<u16>)
    requires
        gs.len() == 8,
        head.len() + tail.len() <= 7,
    ensures
        addr::ip_of(written(gs)) == Some(IpView::V6(bytes(gs))),
        addr::ip_of(gapped(head, tail)) == Some(IpView::V6(filled(head, tail))),
{
    eight_groups_are(written(gs), 0, gs);
    gapped_groups_are(gapped(head, tail), 0, head, tail);
}

/// What follows an IPv6 address in a socket address: a scope id where there is one, the closing
/// bracket, a colon and a port.
proof fn rest_is_read(s: Seq<u8>, e: int, ip: Seq<u8>, scope: Option<u32>, port: u16)
    requires
        addr::at(s, 0, 0x5b),
        addr::v6(s, 1) == Some((ip, e)),
        0 <= e <= s.len(),
        s.skip(e) == scope_text(scope) + seq![0x5du8, 0x3au8] + decimal_text(port as nat),
    ensures
        addr::socket_of(s) == Some(
            SocketView::V6 {
                ip,
                port,
                scope_id: match scope {
                    Some(id) => id,
                    None => 0,
                },
            },
        ),
{
    let z = scope_text(scope);
    let p = decimal_text(port as nat);
    let rest = z + seq![0x5du8, 0x3au8] + p;
    let f: int = e + z.len();
    assert(s.skip(e).len() == rest.len());
    assert forall|j: int| 0 <= j < rest.len() implies s[e + j] == #[trigger] rest[j] by {
        assert(s.skip(e)[j] == rest[j]);
    }
    assert(rest[z.len() as int] == 0x5d && rest[z.len() as int + 1] == 0x3a);
    assert(s[f] == 0x5d && s[f + 1] == 0x3a);
    assert forall|j: int| 0 <= j < p.len() implies s[f + 2 + j] == #[trigger] p[j] by {
        assert(rest[z.len() + 2 + j] == p[j]);
    }
    decimal_is_read(s, f + 2, port as nat, s.len(), true, 0xffff);
    if let Some(id) = scope {
        let d = decimal_text(id as nat);
        assert(rest[0] == 0x25);
        assert forall|j: int| 0 <= j < d.len() implies s[e + 1 + j] == #[trigger] d[j] by {
            assert(rest[1 + j] == d[j]);
        }
        decimal_is_read(s, e + 1, id as nat, s.len(), true, 0xffff_ffff);
    }
    not_dotted(s, 0, 0);
}

/// A scope id in text, where there is one.
pub open spec fn scope_text(scope: Option<u32>) -> Seq<u8> {
    match scope {
        Some(id) => seq![0x25u8] + decimal_text(id as nat),
        None => Seq::empty(),
    }
}

/// An IPv6 socket address is the address in square brackets, with a scope id after a percent sign
/// where there is one, a colon and a port.
pub proof fn bracketed_socket_is_read(
    gs: Seq<u16>,
    head: Seq<u16>,
    tail: Seq<u16>,
    scope: Option<u32>,
    port: u16,
)
    requires
        gs.len() == 8,
        head.len() + tail.len() <= 7,
    ensures
        ({
            let rest = scope_text(scope) + seq![0x5du8, 0x3au8] + decimal_text(port as nat);
            let scope_id = match scope {
                Some(id) => id,
                None => 0,
            };
            &&& addr::socket_of(seq![0x5bu8] + written(gs) + rest) == Some(
                SocketView::V6 { ip: bytes(gs), port, scope_id },
            )
            &&& addr::socket_of(seq![0x5bu8] + gapped(head, tail) + rest) == Some(
                SocketView::V6 { ip: filled(head, tail), port, scope_id },
            )
        }),
{
    let rest = scope_text(scope) + seq![0x5du8, 0x3au8] + decimal_text(port as nat);
    let w = written(gs);
    let s = seq![0x5bu8] + w + rest;
    assert forall|j: int| 0 <= j < w.len() implies s[1 + j] == #[trigger] w[j] by {}
    assert(s[1 + w.len() as int] == rest[0]);
    assert(rest[0] == 0x25 || rest[0] == 0x5d);
    assert(s.skip(40) =~= rest);
    eight_groups_are(s, 1, gs);
    rest_is_read(s, 40, bytes(gs), scope, port);
    let v = gapped(head, tail);
    let q = seq![0x5bu8] + v + rest;
    assert forall|j: int| 0 <= j < v.len() implies q[1 + j] == #[trigger] v[j] by {}
    assert(q[1 + v.len() as int] == rest[0]);
    assert(q.skip(1 + v.len() as int) =~= rest);
    gapped_groups_are(q, 1, head, tail);
    rest_is_read(q, 1 + v.len() as int, filled(head, tail), scope, port);
}

} // verus!
