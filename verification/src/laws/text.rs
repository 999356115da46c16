//! What holds of the small readings of text: splitting, numbers, percent escapes.

use vstd::prelude::*;

use crate::decimal;
use crate::http;
use crate::text;

verus! {

/// A text splits at the first separator, and not at all where there is none.
pub proof fn text_splits_at_the_first(a: Seq<u8>, c: u8, b: Seq<u8>)
    requires
        !a.contains(c),
    ensures
        text::cut(a + seq![c] + b, c) == (a, b),
        text::cut(a, c) == (a, Seq::<u8>::empty()),
{
    let s = a + seq![c] + b;
    text::find_first(s, c);
    text::find_first(a, c);
    assert(s[a.len() as int] == c);
    assert forall|i: int| 0 <= i < a.len() implies s[i] != c by {
        assert(a.contains(a[i]));
    }
    let i = text::find(s, c);
    assert(i == a.len());
    assert(s.take(i) =~= a);
    assert(s.skip(i + 1) =~= b);
    if text::find(a, c) < a.len() {
        assert(a.contains(a[text::find(a, c)]));
    }
}

/// Texts joined by a separator have the parts of the one and then those of the other.
pub proof fn parts_join(a: Seq<u8>, c: u8, b: Seq<u8>)
    ensures
        text::parts(a + seq![c] + b, c) == text::parts(a, c) + text::parts(b, c),
    decreases a.len(),
{
    let s = a + seq![c] + b;
    let i = text::find(a, c);
    text::find_first(a, c);
    if i == a.len() {
        assert(!a.contains(c)) by {
            if a.contains(c) {
                let j = choose|j: int| 0 <= j < a.len() && a[j] == c;
                assert(a[j] != c);
            }
        }
        text_splits_at_the_first(a, c, b);
        text::find_first(s, c);
        assert(s[a.len() as int] == c);
        assert(text::find(s, c) < s.len());
    } else {
        let head = a.take(i);
        let rest = a.skip(i + 1);
        assert(!head.contains(c)) by {
            if head.contains(c) {
                let j = choose|j: int| 0 <= j < head.len() && head[j] == c;
                assert(a[j] == c);
            }
        }
        parts_join(rest, c, b);
        text_splits_at_the_first(head, c, rest);
        text_splits_at_the_first(head, c, rest + seq![c] + b);
        assert(a =~= head + seq![c] + rest);
        assert(s =~= head + seq![c] + (rest + seq![c] + b));
        text::find_first(s, c);
        assert(s[i] == c);
        assert(text::parts(s, c) =~= text::parts(a, c) + text::parts(b, c));
    }
}

/// A text without the separator is its only part.
pub proof fn whole_text_is_one_part(a: Seq<u8>, c: u8)
    requires
        !a.contains(c),
    ensures
        text::parts(a, c) == seq![a],
{
    text::find_first(a, c);
    if text::find(a, c) < a.len() {
        assert(a.contains(a[text::find(a, c)]));
    }
}

/// A number is read from its decimal digits, with or without a plus sign and leading zeros, up to
/// the limit and not beyond it.
pub proof fn numbers_are_read(n: nat, max: nat)
    ensures
        text::number(text::utf8(decimal::decimal(n)), max) == (if n <= max {
            Some(n)
        } else {
            None
        }),
        text::number(seq![0x2bu8] + text::utf8(decimal::decimal(n)), max) == (if n <= max {
            Some(n)
        } else {
            None
        }),
{
    let b = text::utf8(decimal::decimal(n));
    decimal::decimal_bytes(n);
    decimal::decimal_reads_back(n, n + max);
    let signed = seq![0x2bu8] + b;
    assert(text::unsigned(signed) =~= b);
    assert(text::digits_value(text::unsigned(b)) == n);
    assert(text::is_digit(text::unsigned(b)[0]));
    assert(text::unsigned(b) == b) by {
        if b.len() > 0 && b[0] == 0x2b {
            reveal_with_fuel(decimal::decimal, 2);
            first_digit(n);
        }
    }
}

/// Decimal notation begins with a digit.
proof fn first_digit(n: nat)
    ensures
        decimal::decimal(n).len() > 0,
        '0' <= decimal::decimal(n)[0] <= '9',
    decreases n,
{
    if n >= 10 {
        first_digit(n / 10);
    }
}

/// Leading zeros change nothing, and what is not a digit makes no number.
pub proof fn odd_numbers(s: Seq<u8>, max: nat, i: int)
    ensures
        text::number(Seq::empty(), max) is None,
        text::number(seq![0x2bu8], max) is None,
        1 <= i < s.len() && !(48 <= s[i] <= 57) ==> text::number(s, max) is None,
        s.len() > 0 && !(48 <= s[0] <= 57) && s[0] != 0x2b ==> text::number(s, max) is None,
        s.len() > 0 && s[0] != 0x2b ==> text::number(seq![48u8] + s, max) == text::number(s, max),
{
    let d = text::unsigned(s);
    if 1 <= i < s.len() && !(48 <= s[i] <= 57) {
        if s[0] == 0x2b {
            assert(!text::is_digit(d[i - 1]));
        } else {
            assert(!text::is_digit(d[i]));
        }
    }
    if s.len() > 0 && !(48 <= s[0] <= 57) && s[0] != 0x2b {
        assert(!text::is_digit(d[0]));
    }
    assert(text::unsigned(seq![0x2bu8]) =~= Seq::empty());
    if s.len() > 0 && s[0] != 0x2b {
        let z = seq![48u8] + s;
        leading_zero(s);
        assert(text::unsigned(z) == z);
        if forall|j: int| 0 <= j < z.len() ==> text::is_digit(#[trigger] z[j]) {
            assert forall|j: int| 0 <= j < s.len() implies text::is_digit(#[trigger] s[j]) by {
                assert(text::is_digit(z[j + 1]));
            }
        } else {
            let j = choose|j: int| 0 <= j < z.len() && !text::is_digit(#[trigger] z[j]);
            assert(s[j - 1] == z[j]);
        }
    }
}

/// A leading zero adds nothing to a number.
proof fn leading_zero(s: Seq<u8>)
    ensures
        text::digits_value(seq![48u8] + s) == text::digits_value(s),
    decreases s.len(),
{
    let z = seq![48u8] + s;
    if s.len() == 0 {
        assert(z.drop_last() =~= Seq::empty());
        reveal_with_fuel(text::digits_value, 2);
    } else {
        assert(z.drop_last() =~= seq![48u8] + s.drop_last());
        leading_zero(s.drop_last());
    }
}

/// A text begins with what it was made to begin with, and only then.
pub proof fn beginnings(p: Seq<u8>, rest: Seq<u8>, s: Seq<u8>, i: int)
    ensures
        text::begins(p + rest, p),
        text::begins(s, p) && 0 <= i < p.len() ==> s[i] == p[i],
        text::begins(s, p) ==> s.len() >= p.len(),
{
    assert((p + rest).take(p.len() as int) =~= p);
    if text::begins(s, p) && 0 <= i < p.len() {
        assert(s.take(p.len() as int)[i] == s[i]);
    }
}

/// Escaped texts one after another decode one after another, as long as the first is well formed;
/// where it is not, nothing after its fault counts.
pub proof fn decoding_goes_piece_by_piece(a: Seq<u8>, b: Seq<u8>)
    requires
        http::decode(a).1,
    ensures
        http::decode(a + b) == (http::decode(a).0 + http::decode(b).0, http::decode(b).1),
    decreases a.len(),
{
    if a.len() == 0 {
        assert(a + b =~= b);
        assert(Seq::<u8>::empty() + http::decode(b).0 =~= http::decode(b).0);
    } else if a[0] == 0x25 {
        decoding_goes_piece_by_piece(a.skip(3), b);
        assert((a + b).skip(3) =~= a.skip(3) + b);
        assert(http::decode(a + b).0 =~= http::decode(a).0 + http::decode(b).0);
    } else {
        decoding_goes_piece_by_piece(a.skip(1), b);
        assert((a + b).skip(1) =~= a.skip(1) + b);
        assert(http::decode(a + b).0 =~= http::decode(a).0 + http::decode(b).0);
    }
}

/// Any byte but `%` and `+` stands for itself, and `+` for a space.
pub proof fn plain_bytes_decode(c: u8)
    ensures
        c != 0x25 && c != 0x2b ==> http::decode(seq![c]) == (seq![c], true),
        http::decode(seq![0x2bu8]) == (seq![0x20u8], true),
{
    reveal_with_fuel(http::decode, 2);
    assert(seq![c].skip(1) =~= Seq::<u8>::empty());
    assert(seq![0x2bu8].skip(1) =~= Seq::<u8>::empty());
    assert(seq![c] + Seq::<u8>::empty() =~= seq![c]);
    assert(seq![0x20u8] + Seq::<u8>::empty() =~= seq![0x20u8]);
}

/// The value of a hexadecimal digit in either case.
pub open spec fn hex_value(c: u8) -> int {
    if c <= 57 {
        c - 48
    } else if c <= 70 {
        c - 55
    } else {
        c - 87
    }
}

/// Whether a byte is a hexadecimal digit in either case.
pub open spec fn is_hex(c: u8) -> bool {
    48 <= c <= 57 || 65 <= c <= 70 || 97 <= c <= 102
}

/// `%` and two hexadecimal digits, in either case, stand for the byte that they spell; without two
/// such digits the text is malformed, and gives nothing.
pub proof fn escapes_are_read(h: u8, l: u8, rest: Seq<u8>)
    ensures
        is_hex(h) && is_hex(l) ==> http::decode(seq![0x25u8, h, l]) == (
            seq![(16 * hex_value(h) + hex_value(l)) as u8],
            true,
        ),
        !(is_hex(h) && is_hex(l)) ==> http::decode(seq![0x25u8, h, l] + rest) == (
            Seq::<u8>::empty(),
            false,
        ),
        http::decode(seq![0x25u8]) == (Seq::<u8>::empty(), false),
        http::decode(seq![0x25u8, h]) == (Seq::<u8>::empty(), false),
{
    reveal_with_fuel(http::decode, 2);
    let e = seq![0x25u8, h, l];
    assert(e.skip(3) =~= Seq::<u8>::empty());
    assert(seq![(16 * hex_value(h) + hex_value(l)) as u8] + Seq::<u8>::empty() =~= seq![
        (16 * hex_value(h) + hex_value(l)) as u8,
    ]);
    let f = e + rest;
    assert(f[0] == 0x25 && f[1] == h && f[2] == l);
}

/// A raw value is an info-hash exactly if it decodes to twenty bytes, and is those bytes.
pub proof fn hash_is_twenty_bytes(raw: Seq<u8>)
    ensures
        http::hash_of(raw) is Some <==> http::decode(raw).1 && http::decode(raw).0.len() == 20,
        http::hash_of(raw) matches Some(h) ==> h == http::decode(raw).0,
{
}

} // verus!
