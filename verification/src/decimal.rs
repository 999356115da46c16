//! Decimal notation of unsigned integers.

use vstd::prelude::*;

use crate::text;

verus! {

/// The decimal digit `d`.
pub open spec fn digit(d: nat) -> char {
    (48 + d) as char
}

/// The decimal notation of `n`, without leading zeros.
pub open spec fn decimal(n: nat) -> Seq<char>
    decreases n,
{
    if n < 10 {
        seq![digit(n)]
    } else {
        decimal(n / 10).push(digit(n % 10))
    }
}

/// Calls `itoa::Buffer::format`, which gives the decimal notation of an integer.
#[verifier::external_body]
pub(crate) fn format_u64(v: u64) -> (r: String)
    ensures
        r@ == decimal(v as nat),
{
    let mut buffer = itoa::Buffer::new();
    String::from(buffer.format(v))
}

/// Decimal notation is made of ASCII digits.
pub proof fn decimal_digits(n: nat)
    ensures
        decimal(n).len() > 0,
        forall|i: int| 0 <= i < decimal(n).len() ==> '0' <= #[trigger] decimal(n)[i] <= '9',
    decreases n,
{
    if n >= 10 {
        decimal_digits(n / 10);
    }
}

/// The bytes of decimal notation: those of the higher digits, then that of the last.
pub proof fn decimal_bytes(n: nat)
    ensures
        text::utf8(decimal(n)).len() == decimal(n).len(),
        forall|i: int|
            0 <= i < decimal(n).len() ==> #[trigger] text::utf8(decimal(n))[i] == decimal(
                n,
            )[i] as u8,
{
    decimal_digits(n);
    assert(vstd::utf8::is_ascii_chars(decimal(n)));
    vstd::utf8::is_ascii_chars_encode_utf8(decimal(n));
}

/// The digits of decimal notation spell the number.
proof fn decimal_value(n: nat)
    ensures
        text::digits_value(text::utf8(decimal(n))) == n,
    decreases n,
{
    let b = text::utf8(decimal(n));
    decimal_bytes(n);
    decimal_digits(n);
    if n < 10 {
        reveal_with_fuel(text::digits_value, 2);
        assert(b.drop_last() =~= Seq::empty());
        assert(b[0] == digit(n) as u8);
        assert(digit(n) as u8 == 48 + n);
    } else {
        let higher = text::utf8(decimal(n / 10));
        decimal_bytes(n / 10);
        decimal_digits(n / 10);
        decimal_value(n / 10);
        assert(b.drop_last() =~= higher) by {
            assert forall|i: int| 0 <= i < higher.len() implies b[i] == higher[i] by {
                assert(decimal(n)[i] == decimal(n / 10)[i]);
                assert(b[i] == decimal(n)[i] as u8);
                assert(higher[i] == decimal(n / 10)[i] as u8);
            }
        }
        assert(decimal(n).last() == digit(n % 10));
        assert(b.last() == digit(n % 10) as u8);
        assert(digit(n % 10) as u8 == 48 + n % 10);
    }
}

/// A number in decimal notation reads back.
pub proof fn decimal_reads_back(n: nat, max: nat)
    requires
        n <= max,
    ensures
        text::number(text::utf8(decimal(n)), max) == Some(n),
{
    let b = text::utf8(decimal(n));
    decimal_bytes(n);
    decimal_digits(n);
    decimal_value(n);
    assert(b[0] == decimal(n)[0] as u8);
    assert(text::unsigned(b) == b);
    assert forall|i: int| 0 <= i < b.len() implies text::is_digit(#[trigger] b[i]) by {
        assert(b[i] == decimal(n)[i] as u8);
        assert('0' <= decimal(n)[i] <= '9');
    }
}

} // verus!
