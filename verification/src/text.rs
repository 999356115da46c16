//! Small readings of ASCII text held as bytes: comparison, splitting, unsigned integers.

use vstd::prelude::*;

verus! {

/// A space.
pub const SPACE: u8 = 0x20;

/// `%`.
pub const PERCENT: u8 = 0x25;

/// `&`.
pub const AMPERSAND: u8 = 0x26;

/// `+`.
pub const PLUS: u8 = 0x2b;

/// `.`.
pub const DOT: u8 = 0x2e;

/// `:`.
pub const COLON: u8 = 0x3a;

/// `=`.
pub const EQUALS: u8 = 0x3d;

/// `?`.
pub const QUESTION: u8 = 0x3f;

/// `[`.
pub const OPEN_BRACKET: u8 = 0x5b;

/// `]`.
pub const CLOSE_BRACKET: u8 = 0x5d;

/// UTF-8 text as bytes.
pub open spec fn utf8(s: Seq<char>) -> Seq<u8> {
    vstd::utf8::encode_utf8(s)
}

/// Whether two byte strings are the same.
pub fn same(a: &[u8], b: &[u8]) -> (r: bool)
    ensures
        r == (a@ == b@),
{
    if a.len() != b.len() {
        return false;
    }
    let mut i: usize = 0;
    while i < a.len()
        invariant
            i <= a@.len(),
            a@.len() == b@.len(),
            forall|j: int| 0 <= j < i ==> a@[j] == b@[j],
        decreases a@.len() - i,
    {
        if a[i] != b[i] {
            return false;
        }
        i = i + 1;
    }
    assert(a@ =~= b@);
    true
}

/// Whether a byte string is the given text.
pub fn is(a: &[u8], s: &str) -> (r: bool)
    ensures
        r == (a@ == utf8(s@)),
{
    same(a, s.as_bytes())
}

/// Whether `s` begins with `p`.
pub open spec fn begins(s: Seq<u8>, p: Seq<u8>) -> bool {
    p.len() <= s.len() && s.take(p.len() as int) == p
}

/// Whether a byte string begins with another.
pub fn starts_with(s: &[u8], p: &[u8]) -> (r: bool)
    ensures
        r == begins(s@, p@),
{
    if s.len() < p.len() {
        return false;
    }
    let head = &s[0..p.len()];
    assert(head@ =~= s@.take(p@.len() as int));
    same(head, p)
}

/// Where the first `c` stands; the length where there is none.
pub open spec fn find(s: Seq<u8>, c: u8) -> int
    decreases s.len(),
{
    if s.len() == 0 || s[0] == c {
        0
    } else {
        1 + find(s.skip(1), c)
    }
}

/// The first `c` is the first one.
pub proof fn find_first(s: Seq<u8>, c: u8)
    ensures
        0 <= find(s, c) <= s.len(),
        find(s, c) < s.len() ==> s[find(s, c)] == c,
        forall|i: int| 0 <= i < find(s, c) ==> s[i] != c,
    decreases s.len(),
{
    if s.len() > 0 && s[0] != c {
        find_first(s.skip(1), c);
        assert forall|i: int| 0 <= i < find(s, c) implies s[i] != c by {
            if i > 0 {
                assert(s.skip(1)[i - 1] == s[i]);
            }
        }
    }
}

/// A place before which there is no `c`, and which is the end or holds a `c`, is the first.
proof fn find_is(s: Seq<u8>, c: u8, i: int)
    requires
        0 <= i <= s.len(),
        i < s.len() ==> s[i] == c,
        forall|j: int| 0 <= j < i ==> s[j] != c,
    ensures
        find(s, c) == i,
{
    find_first(s, c);
}

/// Where the first `c` stands.
pub fn position(s: &[u8], c: u8) -> (r: usize)
    ensures
        r == find(s@, c),
        r <= s@.len(),
{
    let mut i: usize = 0;
    while i < s.len()
        invariant
            i <= s@.len(),
            forall|j: int| 0 <= j < i ==> s@[j] != c,
        decreases s@.len() - i,
    {
        if s[i] == c {
            proof {
                find_is(s@, c, i as int);
            }
            return i;
        }
        i = i + 1;
    }
    proof {
        find_is(s@, c, i as int);
    }
    i
}

/// What stands before and after the first `c`; all of it and nothing where there is none.
pub open spec fn cut(s: Seq<u8>, c: u8) -> (Seq<u8>, Seq<u8>) {
    let i = find(s, c);
    if i < s.len() {
        (s.take(i), s.skip(i + 1))
    } else {
        (s, Seq::empty())
    }
}

/// Split at the first `c`.
pub fn split_once(s: &[u8], c: u8) -> (r: (&[u8], &[u8]))
    ensures
        (r.0@, r.1@) == cut(s@, c),
{
    let i: usize = position(s, c);
    let n: usize = s.len();
    if i < n {
        let a = &s[0..i];
        let b = &s[i + 1..n];
        assert(a@ =~= s@.take(i as int));
        assert(b@ =~= s@.skip(i + 1));
        (a, b)
    } else {
        let b = &s[n..n];
        assert(b@ =~= Seq::<u8>::empty());
        (s, b)
    }
}

/// The parts between the separators; one empty part where there is nothing.
pub open spec fn parts(s: Seq<u8>, c: u8) -> Seq<Seq<u8>>
    decreases s.len(),
    via parts_decreases
{
    if find(s, c) < s.len() {
        seq![cut(s, c).0] + parts(cut(s, c).1, c)
    } else {
        seq![s]
    }
}

#[via_fn]
proof fn parts_decreases(s: Seq<u8>, c: u8) {
    find_first(s, c);
}

/// Whether a byte is a decimal digit.
pub open spec fn is_digit(c: u8) -> bool {
    48 <= c <= 57
}

/// The number that decimal digits spell.
pub open spec fn digits_value(s: Seq<u8>) -> nat
    decreases s.len(),
{
    if s.len() == 0 {
        0
    } else {
        digits_value(s.drop_last()) * 10 + (s.last() - 48) as nat
    }
}

/// The number without its optional plus sign.
pub open spec fn unsigned(s: Seq<u8>) -> Seq<u8> {
    if s.len() > 0 && s[0] == PLUS {
        s.skip(1)
    } else {
        s
    }
}

/// An unsigned integer in decimal: an optional plus sign and at least one digit, at most `max`.
pub open spec fn number(s: Seq<u8>, max: nat) -> Option<nat> {
    let d = unsigned(s);
    if d.len() > 0 && (forall|i: int| 0 <= i < d.len() ==> is_digit(#[trigger] d[i]))
        && digits_value(d) <= max {
        Some(digits_value(d))
    } else {
        None
    }
}

/// More digits never make a smaller number.
proof fn digits_value_grows(s: Seq<u8>, i: int)
    requires
        0 <= i <= s.len(),
        forall|j: int| 0 <= j < s.len() ==> is_digit(#[trigger] s[j]),
    ensures
        digits_value(s.take(i)) <= digits_value(s),
    decreases s.len(),
{
    if i == s.len() {
        assert(s.take(i) =~= s);
    } else {
        assert(s.drop_last().take(i) =~= s.take(i));
        assert(is_digit(s[s.len() - 1]));
        assert forall|j: int| 0 <= j < s.drop_last().len() implies is_digit(
            #[trigger] s.drop_last()[j],
        ) by {
            assert(is_digit(s[j]));
        }
        digits_value_grows(s.drop_last(), i);
    }
}

/// Parse an unsigned integer of at most `max`.
pub fn parse_number(s: &[u8], max: u64) -> (r: Option<u64>)
    ensures
        match r {
            Some(v) => number(s@, max as nat) == Some(v as nat),
            None => number(s@, max as nat) is None,
        },
{
    let from: usize = if s.len() > 0 && s[0] == PLUS {
        1
    } else {
        0
    };
    let ghost d = unsigned(s@);
    assert(d =~= s@.skip(from as int));
    if from == s.len() {
        return None;
    }
    let mut v: u64 = 0;
    let mut i: usize = from;
    while i < s.len()
        invariant
            from <= i <= s@.len(),
            from < s@.len(),
            d == unsigned(s@),
            d == s@.skip(from as int),
            forall|j: int| 0 <= j < i - from ==> is_digit(#[trigger] d[j]),
            v == digits_value(d.take(i - from)),
            v <= max,
        decreases s@.len() - i,
    {
        let c: u8 = s[i];
        let ghost k = i - from;
        assert(d[k] == c);
        if c < 48 || c > 57 {
            assert(!is_digit(d[k]));
            return None;
        }
        let x: u64 = (c - 48) as u64;
        proof {
            assert(d.take(k + 1).drop_last() =~= d.take(k));
            assert(digits_value(d.take(k + 1)) == v * 10 + x);
            if v * 10 + x > max {
                if forall|j: int| 0 <= j < d.len() ==> is_digit(#[trigger] d[j]) {
                    digits_value_grows(d, k + 1);
                }
            }
        }
        let next: u128 = v as u128 * 10 + x as u128;
        if next > max as u128 {
            return None;
        }
        v = next as u64;
        i = i + 1;
    }
    assert(d.take(d.len() as int) =~= d);
    Some(v)
}

} // verus!
