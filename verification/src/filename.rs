//! Names of the files in a database directory.

use crate::error::Error;
use crate::text::{
    ascii_bytes, digit_char, digits_value, is_digit_byte, lemma_padded_decimal_digits,
    lemma_digits_value_positions, lemma_padded_decimal_positions, lemma_padded_decimal_roundtrip,
    lemma_pow10_values, padded_decimal, pow10, push_padded_decimal,
};
use vstd::prelude::*;
use vstd::utf8::{encode_utf8, is_ascii_chars, is_ascii_chars_encode_utf8};

verus! {

/// How many decimal digits a file number takes in a file name.
pub const FILE_NUMBER_WIDTH: usize = 20;

/// The bytes of `MANIFEST-`, which starts every manifest file name.
pub open spec fn manifest_prefix_bytes() -> Seq<u8> {
    seq![77u8, 65u8, 78u8, 73u8, 70u8, 69u8, 83u8, 84u8, 45u8]
}

/// The name of the manifest file with number `file_number`.
pub open spec fn manifest_name(file_number: nat) -> Seq<char> {
    "MANIFEST-"@ + padded_decimal(file_number, FILE_NUMBER_WIDTH as nat)
}

/// The file number that a manifest file name (given by its bytes) carries:
/// `MANIFEST-` followed by exactly twenty decimal digits whose value fits in
/// a `u64`.
pub open spec fn manifest_number_of(name: Seq<u8>) -> Option<u64> {
    if name.len() == 29 && name.subrange(0, 9) == manifest_prefix_bytes() && (forall|i: int|
        9 <= i < 29 ==> is_digit_byte(#[trigger] name[i])) && digits_value(name.subrange(9, 29))
        <= u64::MAX {
        Some(digits_value(name.subrange(9, 29)) as u64)
    } else {
        None
    }
}

/// The message of the corruption error for an invalid manifest file name.
pub open spec fn invalid_manifest_message(filename: Seq<char>) -> Seq<char> {
    "invalid manifest filename: "@ + filename
}

proof fn lemma_prefix_chars()
    ensures
        "MANIFEST-"@.len() == 9,
        is_ascii_chars("MANIFEST-"@),
        ascii_bytes("MANIFEST-"@) == manifest_prefix_bytes(),
{
    reveal_strlit("MANIFEST-");
    assert(ascii_bytes("MANIFEST-"@) =~= manifest_prefix_bytes());
}

/// A manifest name is ASCII, so its bytes are its characters.
pub proof fn lemma_manifest_name_bytes(n: nat)
    ensures
        is_ascii_chars(manifest_name(n)),
        encode_utf8(manifest_name(n)) == ascii_bytes(manifest_name(n)),
        ascii_bytes(manifest_name(n)).len() == 29,
        ascii_bytes(manifest_name(n)).subrange(0, 9) == manifest_prefix_bytes(),
        ascii_bytes(manifest_name(n)).subrange(9, 29) == ascii_bytes(padded_decimal(n, 20)),
{
    lemma_prefix_chars();
    lemma_padded_decimal_digits(n, 20);
    let name = manifest_name(n);
    let digits = padded_decimal(n, 20);
    assert(name.subrange(0, 9) =~= "MANIFEST-"@);
    assert(name.subrange(9, 29) =~= digits);
    assert(is_ascii_chars(name)) by {
        assert forall|i: int| 0 <= i < name.len() implies '\0' <= #[trigger] name[i] <= '\u{7f}' by {
            if i < 9 {
                assert(name[i] == "MANIFEST-"@[i]);
            } else {
                assert(name[i] == digits[i - 9]);
            }
        }
    }
    is_ascii_chars_encode_utf8(name);
    assert(encode_utf8(name) =~= ascii_bytes(name));
    assert(ascii_bytes(name).subrange(0, 9) =~= ascii_bytes("MANIFEST-"@));
    assert(ascii_bytes(name).subrange(9, 29) =~= ascii_bytes(digits));
}

/// The file number of the name of manifest `n` is `n`.
pub proof fn lemma_manifest_name_roundtrip(n: u64)
    ensures
        manifest_number_of(encode_utf8(manifest_name(n as nat))) == Some(n),
{
    lemma_manifest_name_bytes(n as nat);
    lemma_padded_decimal_digits(n as nat, 20);
    lemma_pow10_values();
    lemma_padded_decimal_roundtrip(n as nat, 20);
    let bytes = encode_utf8(manifest_name(n as nat));
    assert forall|i: int| 9 <= i < 29 implies is_digit_byte(#[trigger] bytes[i]) by {
        assert(bytes[i] == bytes.subrange(9, 29)[i - 9]);
    }
}

/// Twenty decimal digits are the padded decimal text of the number they spell.
proof fn lemma_digits_canonical(digits: Seq<u8>, width: nat)
    requires
        digits.len() == width,
        forall|i: int| 0 <= i < digits.len() ==> is_digit_byte(#[trigger] digits[i]),
    ensures
        ascii_bytes(padded_decimal(digits_value(digits), width)) == digits,
    decreases width,
{
    let v = digits_value(digits);
    if width == 0 {
        assert(ascii_bytes(padded_decimal(v, width)) =~= digits);
    } else {
        let init = digits.drop_last();
        assert forall|i: int| 0 <= i < init.len() implies is_digit_byte(#[trigger] init[i]) by {
            assert(init[i] == digits[i]);
        }
        lemma_digits_canonical(init, (width - 1) as nat);
        let d = (digits.last() - 48) as nat;
        assert(is_digit_byte(digits[digits.len() - 1]));
        assert(v == 10 * digits_value(init) + d);
        assert(v / 10 == digits_value(init));
        assert(v % 10 == d);
        let p = padded_decimal(v, width);
        let prefix = padded_decimal(v / 10, (width - 1) as nat);
        assert(p == prefix + seq![digit_char(d)]);
        assert(ascii_bytes(p).drop_last() =~= ascii_bytes(prefix));
        assert(ascii_bytes(p).last() == digits.last());
        assert(digits =~= init.push(digits.last()));
        assert(ascii_bytes(p) =~= ascii_bytes(p).drop_last().push(ascii_bytes(p).last()));
    }
}

/// A name that carries a file number is exactly the name of that manifest.
pub proof fn lemma_manifest_number_canonical(name: Seq<u8>)
    requires
        manifest_number_of(name) is Some,
    ensures
        name == encode_utf8(manifest_name(manifest_number_of(name)->0 as nat)),
{
    let digits = name.subrange(9, 29);
    assert forall|i: int| 0 <= i < digits.len() implies is_digit_byte(#[trigger] digits[i]) by {
        assert(digits[i] == name[i + 9]);
    }
    lemma_digits_canonical(digits, 20);
    let n = digits_value(digits);
    lemma_manifest_name_bytes(n);
    let expected = ascii_bytes(manifest_name(n));
    assert(name =~= name.subrange(0, 9) + name.subrange(9, 29));
    assert(expected =~= expected.subrange(0, 9) + expected.subrange(9, 29));
}

/// The name of the file that names the live manifest.
pub fn current_filename() -> (name: &'static str)
    ensures
        name@ == "CURRENT"@,
{
    "CURRENT"
}

/// The name of the file that a new CURRENT is written to before it replaces
/// the old one.
pub fn current_tmp_filename() -> (name: &'static str)
    ensures
        name@ == "CURRENT.tmp"@,
{
    "CURRENT.tmp"
}

/// The name of the file that is locked while a database is open.
pub fn lock_filename() -> (name: &'static str)
    ensures
        name@ == "LOCK"@,
{
    "LOCK"
}

/// The file name of manifest `file_number`: `MANIFEST-` and the number in
/// twenty zero-padded decimal digits.
pub fn manifest(file_number: u64) -> (name: String)
    ensures
        name@ == manifest_name(file_number as nat),
{
    let mut name = String::from_str("MANIFEST-");
    push_padded_decimal(&mut name, file_number, FILE_NUMBER_WIDTH);
    name
}

/// Digits can only grow a number as more are appended.
proof fn lemma_digits_value_prefix(digits: Seq<u8>, k: int)
    requires
        0 <= k <= digits.len(),
        forall|i: int| 0 <= i < digits.len() ==> is_digit_byte(#[trigger] digits[i]),
    ensures
        digits_value(digits.subrange(0, k)) <= digits_value(digits),
    decreases digits.len() - k,
{
    if k < digits.len() {
        let longer = digits.subrange(0, k + 1);
        assert(longer.drop_last() =~= digits.subrange(0, k));
        assert(is_digit_byte(digits[k]));
        assert forall|i: int| 0 <= i < digits.len() implies is_digit_byte(#[trigger] digits[i]) by {}
        lemma_digits_value_prefix(digits, k + 1);
    } else {
        assert(digits.subrange(0, k) =~= digits);
    }
}

/// The file number of a manifest file name, or `None` when `filename` is not
/// `MANIFEST-` followed by twenty decimal digits that fit in a `u64`.
pub fn manifest_number(filename: &str) -> (number: Option<u64>)
    ensures
        number == manifest_number_of(encode_utf8(filename@)),
{
    let bytes = filename.as_bytes();
    assert(bytes@ == encode_utf8(filename@));
    if bytes.len() != 29 {
        return None;
    }
    proof {
        lemma_prefix_chars();
    }
    let prefix: [u8; 9] = [77, 65, 78, 73, 70, 69, 83, 84, 45];
    let mut i: usize = 0;
    while i < 9
        invariant
            i <= 9,
            bytes@.len() == 29,
            bytes@ == encode_utf8(filename@),
            prefix@ == manifest_prefix_bytes(),
            forall|j: int| 0 <= j < i ==> bytes@[j] == manifest_prefix_bytes()[j],
        decreases 9 - i,
    {
        if bytes[i] != prefix[i] {
            assert(bytes@.subrange(0, 9)[i as int] != manifest_prefix_bytes()[i as int]);
            return None;
        }
        i = i + 1;
    }
    assert(bytes@.subrange(0, 9) =~= manifest_prefix_bytes());
    let mut k: usize = 9;
    while k < 29
        invariant
            9 <= k <= 29,
            bytes@.len() == 29,
            bytes@ == encode_utf8(filename@),
            forall|j: int| 9 <= j < k ==> is_digit_byte(#[trigger] bytes@[j]),
        decreases 29 - k,
    {
        if bytes[k] < 48 || bytes[k] > 57 {
            return None;
        }
        k = k + 1;
    }
    let ghost digits = bytes@.subrange(9, 29);
    assert forall|j: int| 0 <= j < digits.len() implies is_digit_byte(#[trigger] digits[j]) by {
        assert(digits[j] == bytes@[j + 9]);
    }
    let mut value: u64 = 0;
    let mut k: usize = 9;
    while k < 29
        invariant
            9 <= k <= 29,
            bytes@.len() == 29,
            bytes@ == encode_utf8(filename@),
            digits == bytes@.subrange(9, 29),
            forall|j: int| 0 <= j < digits.len() ==> is_digit_byte(#[trigger] digits[j]),
            value == digits_value(digits.subrange(0, k - 9)),
        decreases 29 - k,
    {
        let ghost part = digits.subrange(0, k - 8);
        assert(part.drop_last() =~= digits.subrange(0, k - 9));
        assert(part.last() == bytes@[k as int]);
        let d = (bytes[k] - 48) as u64;
        match value.checked_mul(10) {
            Some(tens) => match tens.checked_add(d) {
                Some(next) => {
                    value = next;
                },
                None => {
                    proof {
                        lemma_digits_value_prefix(digits, k - 8);
                    }
                    return None;
                },
            },
            None => {
                proof {
                    lemma_digits_value_prefix(digits, k - 8);
                }
                return None;
            },
        }
        k = k + 1;
    }
    assert(digits.subrange(0, 20) =~= digits);
    Some(value)
}

/// Checks that `filename` names a manifest file.
pub fn validate_manifest(filename: &str) -> (r: Result<(), Error>)
    ensures
        r is Ok <==> manifest_number_of(encode_utf8(filename@)) is Some,
        r matches Err(e) ==> e matches Error::Corruption { message } && message@
            == invalid_manifest_message(filename@),
{
    if manifest_number(filename).is_none() {
        return Err(
            Error::Corruption {
                message: String::from_str("invalid manifest filename: ").concat(filename),
            },
        );
    }
    Ok(())
}

/// The name of manifest `n` is `MANIFEST-` followed by the twenty decimal
/// digits of `n`, most significant first; and the number read from a valid
/// manifest name has exactly the name's digits as its decimal digits.
pub proof fn lemma_manifest_name_digits(n: u64, name: Seq<u8>)
    ensures
        manifest_name(n as nat).len() == 29,
        forall|i: int|
            0 <= i < 20 ==> #[trigger] manifest_name(n as nat)[9 + i] == digit_char(
                (n as nat / pow10((19 - i) as nat)) % 10,
            ),
        manifest_number_of(name) matches Some(v) ==> forall|i: int|
            0 <= i < 20 ==> (v as nat / pow10((19 - i) as nat)) % 10 == #[trigger] name[9 + i] - 48,
{
    lemma_manifest_name_bytes(n as nat);
    let digits = padded_decimal(n as nat, 20);
    assert forall|i: int| 0 <= i < 20 implies #[trigger] manifest_name(n as nat)[9 + i]
        == digit_char((n as nat / pow10((19 - i) as nat)) % 10) by {
        lemma_padded_decimal_positions(n as nat, 20, i);
        assert(manifest_name(n as nat)[9 + i] == digits[i]);
    }
    if manifest_number_of(name) is Some {
        let d = name.subrange(9, 29);
        assert forall|j: int| 0 <= j < d.len() implies is_digit_byte(#[trigger] d[j]) by {
            assert(d[j] == name[j + 9]);
        }
        lemma_digits_value_positions(d);
        assert forall|i: int| 0 <= i < 20 implies (digits_value(d) / pow10((19 - i) as nat)) % 10
            == #[trigger] name[9 + i] - 48 by {
            assert(d[i] == name[9 + i]);
        }
    }
}

} // verus!
