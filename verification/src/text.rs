//! Decimal digits, as characters, as bytes and as text.

use vstd::arithmetic::div_mod::{lemma_div_denominator, lemma_mod_breakdown, lemma_small_mod};
use vstd::prelude::*;
use vstd::utf8::is_ascii_chars;

verus! {

/// The character of the decimal digit `d` (`d < 10`).
pub open spec fn digit_char(d: nat) -> char {
    ((d + 48) as u32) as char
}

/// Whether `b` is the ASCII byte of a decimal digit.
pub open spec fn is_digit_byte(b: u8) -> bool {
    48 <= b <= 57
}

/// `10` to the power `n`.
pub open spec fn pow10(n: nat) -> nat
    decreases n,
{
    if n == 0 {
        1
    } else {
        10 * pow10((n - 1) as nat)
    }
}

/// The shortest decimal text of `n` (a single `0` for zero).
pub open spec fn decimal(n: nat) -> Seq<char>
    decreases n,
{
    if n < 10 {
        seq![digit_char(n)]
    } else {
        decimal(n / 10) + seq![digit_char(n % 10)]
    }
}

/// The last `width` decimal digits of `n`, padded on the left with zeros.
pub open spec fn padded_decimal(n: nat, width: nat) -> Seq<char>
    decreases width,
{
    if width == 0 {
        Seq::empty()
    } else {
        padded_decimal(n / 10, (width - 1) as nat) + seq![digit_char(n % 10)]
    }
}

/// The number that a sequence of ASCII decimal digit bytes spells.
pub open spec fn digits_value(bytes: Seq<u8>) -> nat
    decreases bytes.len(),
{
    if bytes.len() == 0 {
        0
    } else {
        10 * digits_value(bytes.drop_last()) + (bytes.last() - 48) as nat
    }
}

/// The ASCII bytes of a sequence of ASCII characters.
pub open spec fn ascii_bytes(chars: Seq<char>) -> Seq<u8> {
    chars.map_values(|c: char| c as u8)
}

pub proof fn lemma_pow10_values()
    ensures
        pow10(20) == 100_000_000_000_000_000_000,
{
    reveal_with_fuel(pow10, 21);
}

pub proof fn lemma_pow10_positive(n: nat)
    ensures
        pow10(n) > 0,
    decreases n,
{
    if n > 0 {
        lemma_pow10_positive((n - 1) as nat);
    }
}

/// Padded decimal text is made of `width` ASCII digits.
pub proof fn lemma_padded_decimal_digits(n: nat, width: nat)
    ensures
        padded_decimal(n, width).len() == width,
        forall|i: int|
            0 <= i < width ==> is_digit_byte(#[trigger] ascii_bytes(padded_decimal(n, width))[i]),
        is_ascii_chars(padded_decimal(n, width)),
    decreases width,
{
    if width > 0 {
        lemma_padded_decimal_digits(n / 10, (width - 1) as nat);
        let s = padded_decimal(n, width);
        let prefix = padded_decimal(n / 10, (width - 1) as nat);
        assert(s[width - 1] == digit_char(n % 10));
        assert forall|i: int| 0 <= i < width implies is_digit_byte(
            #[trigger] ascii_bytes(s)[i],
        ) by {
            if i < width - 1 {
                assert(s[i] == prefix[i]);
                assert(ascii_bytes(prefix)[i] == prefix[i] as u8);
            }
        }
    }
}

/// The digits of padded decimal text spell the number, up to its width.
pub proof fn lemma_padded_decimal_value(n: nat, width: nat)
    ensures
        digits_value(ascii_bytes(padded_decimal(n, width))) == n % pow10(width),
    decreases width,
{
    if width == 0 {
        assert(ascii_bytes(padded_decimal(n, width)) =~= Seq::<u8>::empty());
    } else {
        let w1 = (width - 1) as nat;
        lemma_padded_decimal_value(n / 10, w1);
        let bytes = ascii_bytes(padded_decimal(n, width));
        assert(bytes.drop_last() =~= ascii_bytes(padded_decimal(n / 10, w1)));
        assert(bytes.last() == (n % 10 + 48) as u8);
        lemma_pow10_positive(w1);
        lemma_mod_breakdown(n as int, 10, pow10(w1) as int);
    }
}

/// Padded decimal text of a number below `10^width` spells that number.
pub proof fn lemma_padded_decimal_roundtrip(n: nat, width: nat)
    requires
        n < pow10(width),
    ensures
        digits_value(ascii_bytes(padded_decimal(n, width))) == n,
{
    lemma_padded_decimal_value(n, width);
    lemma_small_mod(n, pow10(width));
}

/// The digit characters are `0` to `9`, in order.
pub proof fn lemma_digit_chars()
    ensures
        digit_char(0) == '0',
        digit_char(1) == '1',
        digit_char(2) == '2',
        digit_char(3) == '3',
        digit_char(4) == '4',
        digit_char(5) == '5',
        digit_char(6) == '6',
        digit_char(7) == '7',
        digit_char(8) == '8',
        digit_char(9) == '9',
{
}

/// Character `i` of the padded decimal text of `n` is the decimal digit of
/// `n` for the power `10^(width - 1 - i)`: the most significant digit comes
/// first.
pub proof fn lemma_padded_decimal_positions(n: nat, width: nat, i: int)
    requires
        0 <= i < width,
    ensures
        padded_decimal(n, width).len() == width,
        padded_decimal(n, width)[i] == digit_char((n / pow10((width - 1 - i) as nat)) % 10),
    decreases width,
{
    lemma_padded_decimal_digits(n, width);
    let w1 = (width - 1) as nat;
    let prefix = padded_decimal(n / 10, w1);
    lemma_padded_decimal_digits(n / 10, w1);
    assert(padded_decimal(n, width) == prefix + seq![digit_char(n % 10)]);
    if i < width - 1 {
        lemma_padded_decimal_positions(n / 10, w1, i);
        let k = (width - 2 - i) as nat;
        assert((w1 - 1 - i) as nat == k);
        lemma_pow10_positive(k);
        lemma_div_denominator(n as int, 10, pow10(k) as int);
        assert(pow10((width - 1 - i) as nat) == 10 * pow10(k));
        assert(padded_decimal(n, width)[i] == prefix[i]);
    } else {
        assert(pow10(0) == 1);
        assert(n / 1 == n);
    }
}

/// In a sequence of decimal digit bytes, byte `i` is the digit of the value
/// for the power `10^(len - 1 - i)`, and the value is below `10^len`: the
/// bytes spell the value in ordinary decimal, most significant digit first.
pub proof fn lemma_digits_value_positions(bytes: Seq<u8>)
    requires
        forall|i: int| 0 <= i < bytes.len() ==> is_digit_byte(#[trigger] bytes[i]),
    ensures
        digits_value(bytes) < pow10(bytes.len()),
        forall|i: int|
            0 <= i < bytes.len() ==> (digits_value(bytes) / pow10(
                (bytes.len() - 1 - i) as nat,
            )) % 10 == bytes[i] - 48,
    decreases bytes.len(),
{
    if bytes.len() > 0 {
        let init = bytes.drop_last();
        assert forall|i: int| 0 <= i < init.len() implies is_digit_byte(#[trigger] init[i]) by {
            assert(init[i] == bytes[i]);
        }
        lemma_digits_value_positions(init);
        let v = digits_value(bytes);
        let u = digits_value(init);
        let d = (bytes.last() - 48) as nat;
        assert(is_digit_byte(bytes[bytes.len() - 1]));
        assert(v == 10 * u + d);
        assert(v / 10 == u);
        assert(v % 10 == d);
        assert forall|i: int| 0 <= i < bytes.len() implies (v / pow10(
            (bytes.len() - 1 - i) as nat,
        )) % 10 == bytes[i] - 48 by {
            if i < bytes.len() - 1 {
                let k = (bytes.len() - 2 - i) as nat;
                lemma_pow10_positive(k);
                lemma_div_denominator(v as int, 10, pow10(k) as int);
                assert(pow10((bytes.len() - 1 - i) as nat) == 10 * pow10(k));
                assert(init[i] == bytes[i]);
                assert((init.len() - 1 - i) as nat == k);
            } else {
                assert(pow10(0) == 1);
                assert(v / 1 == v);
            }
        }
    }
}

/// The shortest decimal text of `n` is its padded decimal text at its own
/// length, starts with a non-zero digit unless `n` is zero, and has just
/// enough digits for `n`.
pub proof fn lemma_decimal_is_shortest(n: nat)
    ensures
        decimal(n).len() >= 1,
        decimal(n) == padded_decimal(n, decimal(n).len()),
        n < pow10(decimal(n).len()),
        n >= 10 ==> decimal(n)[0] != '0',
        n >= 10 ==> n >= pow10((decimal(n).len() - 1) as nat),
    decreases n,
{
    if n < 10 {
        assert(padded_decimal(n, 1) == padded_decimal(n / 10, 0) + seq![digit_char(n % 10)]);
        assert(padded_decimal(n, 1) =~= seq![digit_char(n)]);
        assert(pow10(1) == 10 * pow10(0));
    } else {
        lemma_decimal_is_shortest(n / 10);
        let l = decimal(n / 10).len();
        assert(decimal(n) == decimal(n / 10) + seq![digit_char(n % 10)]);
        assert(padded_decimal(n, l + 1) == padded_decimal(n / 10, l) + seq![digit_char(n % 10)]);
        assert(pow10(l + 1) == 10 * pow10(l));
        if n / 10 < 10 {
            assert(decimal(n / 10) =~= seq![digit_char(n / 10)]);
            assert(pow10(0) == 1);
        } else {
            assert(pow10(l) == 10 * pow10((l - 1) as nat));
        }
        assert(decimal(n)[0] == decimal(n / 10)[0]);
    }
}

/// The one-character text of the decimal digit `d`.
fn digit_str(d: u64) -> (s: &'static str)
    requires
        d < 10,
    ensures
        s@ == seq![digit_char(d as nat)],
{
    proof {
        reveal_strlit("0");
        reveal_strlit("1");
        reveal_strlit("2");
        reveal_strlit("3");
        reveal_strlit("4");
        reveal_strlit("5");
        reveal_strlit("6");
        reveal_strlit("7");
        reveal_strlit("8");
        reveal_strlit("9");
    }
    match d {
        0 => "0",
        1 => "1",
        2 => "2",
        3 => "3",
        4 => "4",
        5 => "5",
        6 => "6",
        7 => "7",
        8 => "8",
        _ => "9",
    }
}

/// Appends the shortest decimal text of `n`.
pub fn push_decimal(text: &mut String, n: u64)
    ensures
        final(text)@ == old(text)@ + decimal(n as nat),
    decreases n,
{
    if n >= 10 {
        push_decimal(text, n / 10);
    }
    text.append(digit_str(n % 10));
    assert(final(text)@ =~= old(text)@ + decimal(n as nat));
}

/// Appends the last `width` decimal digits of `n`, zero-padded.
pub fn push_padded_decimal(text: &mut String, n: u64, width: usize)
    ensures
        final(text)@ == old(text)@ + padded_decimal(n as nat, width as nat),
    decreases width,
{
    if width > 0 {
        push_padded_decimal(text, n / 10, width - 1);
        text.append(digit_str(n % 10));
    }
    assert(final(text)@ =~= old(text)@ + padded_decimal(n as nat, width as nat));
}

} // verus!
