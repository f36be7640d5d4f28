//! Little-endian integers and length-checked byte reads over a buffer with a
//! moving cursor.

use crate::error::Error;
use vstd::arithmetic::div_mod::lemma_div_denominator;
use vstd::prelude::*;

verus! {

/// The number that `bytes` denotes, least significant byte first.
pub open spec fn le_value(bytes: Seq<u8>) -> nat
    decreases bytes.len(),
{
    if bytes.len() == 0 {
        0
    } else {
        bytes[0] as nat + 256 * le_value(bytes.drop_first())
    }
}

/// `256` to the power `n`: one more than the largest value of `n` bytes.
pub open spec fn byte_pow(n: nat) -> nat
    decreases n,
{
    if n == 0 {
        1
    } else {
        256 * byte_pow((n - 1) as nat)
    }
}

/// The `n` bytes that hold `value`, least significant byte first.
pub open spec fn le_bytes(value: nat, n: nat) -> Seq<u8>
    decreases n,
{
    if n == 0 {
        Seq::empty()
    } else {
        seq![(value % 256) as u8] + le_bytes(value / 256, (n - 1) as nat)
    }
}

pub proof fn lemma_byte_pow_values()
    ensures
        byte_pow(0) == 1,
        byte_pow(2) == 0x1_0000,
        byte_pow(4) == 0x1_0000_0000,
        byte_pow(8) == 0x1_0000_0000_0000_0000,
{
    reveal_with_fuel(byte_pow, 9);
}

pub proof fn lemma_byte_pow_monotone(m: nat, n: nat)
    requires
        m <= n,
    ensures
        byte_pow(m) <= byte_pow(n),
    decreases n,
{
    if m < n {
        lemma_byte_pow_monotone(m, (n - 1) as nat);
    }
}

pub proof fn lemma_le_value_bound(bytes: Seq<u8>)
    ensures
        le_value(bytes) < byte_pow(bytes.len()),
    decreases bytes.len(),
{
    if bytes.len() > 0 {
        lemma_le_value_bound(bytes.drop_first());
    }
}

/// Splits off the first byte of a suffix of `bytes`.
pub proof fn lemma_le_value_suffix(bytes: Seq<u8>, i: int)
    requires
        0 <= i < bytes.len(),
    ensures
        le_value(bytes.subrange(i, bytes.len() as int)) == bytes[i] as nat + 256 * le_value(
            bytes.subrange(i + 1, bytes.len() as int),
        ),
{
    assert(bytes.subrange(i, bytes.len() as int).drop_first() =~= bytes.subrange(
        i + 1,
        bytes.len() as int,
    ));
}

/// Encoding a value that fits in `n` bytes and decoding it gives it back.
pub proof fn lemma_le_roundtrip(value: nat, n: nat)
    requires
        value < byte_pow(n),
    ensures
        le_bytes(value, n).len() == n,
        le_value(le_bytes(value, n)) == value,
    decreases n,
{
    if n > 0 {
        lemma_le_roundtrip(value / 256, (n - 1) as nat);
        let s = le_bytes(value, n);
        assert(s.drop_first() =~= le_bytes(value / 256, (n - 1) as nat));
    }
}

/// Byte `j` of the `n`-byte encoding of `value` is digit `j` of `value` in
/// base 256: the least significant byte comes first.
pub proof fn lemma_le_bytes_digits(value: nat, n: nat, j: nat)
    requires
        j < n,
    ensures
        le_bytes(value, n).len() == n,
        le_bytes(value, n)[j as int] == ((value / byte_pow(j)) % 256) as u8,
    decreases n,
{
    lemma_le_bytes_len(value, n);
    let rest = le_bytes(value / 256, (n - 1) as nat);
    assert(le_bytes(value, n) == seq![(value % 256) as u8] + rest);
    if j > 0 {
        lemma_le_bytes_digits(value / 256, (n - 1) as nat, (j - 1) as nat);
        lemma_byte_pow_positive((j - 1) as nat);
        lemma_div_denominator(value as int, 256, byte_pow((j - 1) as nat) as int);
        assert(byte_pow(j) == 256 * byte_pow((j - 1) as nat));
        assert(le_bytes(value, n)[j as int] == rest[j - 1]);
    } else {
        assert(byte_pow(0) == 1);
        assert(value / 1 == value);
    }
}

pub proof fn lemma_le_bytes_len(value: nat, n: nat)
    ensures
        le_bytes(value, n).len() == n,
    decreases n,
{
    if n > 0 {
        lemma_le_bytes_len(value / 256, (n - 1) as nat);
    }
}

proof fn lemma_byte_pow_positive(n: nat)
    ensures
        byte_pow(n) > 0,
    decreases n,
{
    if n > 0 {
        lemma_byte_pow_positive((n - 1) as nat);
    }
}

/// Decodes up to eight little-endian bytes.
fn le_u64(bytes: &[u8]) -> (v: u64)
    requires
        bytes@.len() <= 8,
    ensures
        v == le_value(bytes@),
{
    let len = bytes.len();
    let mut acc: u64 = 0;
    let mut i: usize = len;
    proof {
        lemma_byte_pow_values();
        assert(bytes@.subrange(len as int, len as int) =~= Seq::<u8>::empty());
    }
    while i > 0
        invariant
            i <= len,
            len == bytes@.len(),
            len <= 8,
            acc == le_value(bytes@.subrange(i as int, len as int)),
            acc < byte_pow((len - i) as nat),
            byte_pow(8) == 0x1_0000_0000_0000_0000,
        decreases i,
    {
        proof {
            lemma_le_value_suffix(bytes@, i - 1);
            lemma_byte_pow_monotone((len - i + 1) as nat, 8);
            assert(byte_pow((len - i + 1) as nat) == 256 * byte_pow((len - i) as nat));
        }
        acc = acc * 256 + bytes[i - 1] as u64;
        i = i - 1;
    }
    assert(bytes@.subrange(0, len as int) =~= bytes@);
    acc
}

/// Appends the `n` little-endian bytes of `value`.
pub fn push_le(buf: &mut Vec<u8>, value: u64, n: usize)
    requires
        n <= 8,
        value < byte_pow(n as nat),
    ensures
        final(buf)@ == old(buf)@ + le_bytes(value as nat, n as nat),
{
    let mut v = value;
    let mut i: usize = 0;
    while i < n
        invariant
            i <= n,
            buf@ + le_bytes(v as nat, (n - i) as nat) == old(buf)@ + le_bytes(value as nat, n as nat),
        decreases n - i,
    {
        let ghost before = buf@;
        let ghost rest = le_bytes(v as nat, (n - i) as nat);
        assert(rest =~= seq![(v % 256) as u8] + le_bytes((v / 256) as nat, (n - i - 1) as nat));
        buf.push((v % 256) as u8);
        assert(buf@ + le_bytes((v / 256) as nat, (n - i - 1) as nat) =~= before + rest);
        v = v / 256;
        i = i + 1;
    }
    assert(le_bytes(v as nat, 0) =~= Seq::<u8>::empty());
    assert(buf@ + Seq::<u8>::empty() =~= buf@);
}

/// An integer type that can be read from its little-endian bytes.
pub trait DecodeLe: Sized {
    /// How many bytes hold a value.
    spec fn spec_size() -> nat;

    /// The value that `bytes` (of length `spec_size()`) encodes.
    spec fn spec_from_le(bytes: Seq<u8>) -> Self;

    fn size() -> (n: usize)
        ensures
            n == Self::spec_size(),
            n <= 8,
    ;

    fn from_le_slice(bytes: &[u8]) -> (v: Self)
        requires
            bytes@.len() == Self::spec_size(),
        ensures
            v == Self::spec_from_le(bytes@),
    ;
}

impl DecodeLe for u16 {
    open spec fn spec_size() -> nat {
        2
    }

    open spec fn spec_from_le(bytes: Seq<u8>) -> u16 {
        le_value(bytes) as u16
    }

    fn size() -> (n: usize) {
        2
    }

    fn from_le_slice(bytes: &[u8]) -> (v: u16) {
        let wide = le_u64(bytes);
        proof {
            lemma_le_value_bound(bytes@);
            lemma_byte_pow_values();
        }
        wide as u16
    }
}

impl DecodeLe for u32 {
    open spec fn spec_size() -> nat {
        4
    }

    open spec fn spec_from_le(bytes: Seq<u8>) -> u32 {
        le_value(bytes) as u32
    }

    fn size() -> (n: usize) {
        4
    }

    fn from_le_slice(bytes: &[u8]) -> (v: u32) {
        let wide = le_u64(bytes);
        proof {
            lemma_le_value_bound(bytes@);
            lemma_byte_pow_values();
        }
        wide as u32
    }
}

impl DecodeLe for u64 {
    open spec fn spec_size() -> nat {
        8
    }

    open spec fn spec_from_le(bytes: Seq<u8>) -> u64 {
        le_value(bytes) as u64
    }

    fn size() -> (n: usize) {
        8
    }

    fn from_le_slice(bytes: &[u8]) -> (v: u64) {
        le_u64(bytes)
    }
}

/// The message of the corruption error for a read that ran past the end.
pub open spec fn truncated_message(context: Seq<char>, field: Seq<char>, path: Seq<char>) -> Seq<
    char,
> {
    context + " is truncated while reading "@ + field + ": "@ + path
}

pub fn truncated_error(path: &str, context: &str, field: &str) -> (e: Error)
    ensures
        e matches Error::Corruption { message } && message@ == truncated_message(
            context@,
            field@,
            path@,
        ),
{
    let message = String::from_str(context).concat(" is truncated while reading ").concat(
        field,
    ).concat(": ").concat(path);
    Error::Corruption { message }
}

/// Reads a little-endian integer at `*offset` and moves the offset past it;
/// when fewer bytes are left, reports the truncated `field` of `context`
/// and leaves the offset where it was.
pub fn read_le<T: DecodeLe>(
    bytes: &[u8],
    offset: &mut usize,
    path: &str,
    context: &str,
    field: &str,
) -> (r: Result<T, Error>)
    requires
        *old(offset) <= bytes@.len(),
    ensures
        if *old(offset) + T::spec_size() <= bytes@.len() {
            &&& r matches Ok(v) && v == T::spec_from_le(
                bytes@.subrange(*old(offset) as int, *old(offset) + T::spec_size()),
            )
            &&& le_value(bytes@.subrange(*old(offset) as int, *old(offset) + T::spec_size()))
                < byte_pow(T::spec_size())
            &&& *final(offset) == *old(offset) + T::spec_size()
        } else {
            &&& r matches Err(Error::Corruption { message }) && message@ == truncated_message(
                context@,
                field@,
                path@,
            )
            &&& *final(offset) == *old(offset)
        },
{
    let size = T::size();
    if bytes.len() - *offset < size {
        return Err(truncated_error(path, context, field));
    }
    let start = *offset;
    proof {
        lemma_le_value_bound(bytes@.subrange(start as int, start + T::spec_size()));
    }
    let value = T::from_le_slice(vstd::slice::slice_subrange(bytes, start, start + size));
    *offset = start + size;
    Ok(value)
}

/// Reads `len` bytes at `*offset` and moves the offset past them; when fewer
/// bytes are left, reports the truncated `field` of `context` and leaves the
/// offset where it was.
pub fn read_bytes(
    bytes: &[u8],
    offset: &mut usize,
    len: usize,
    path: &str,
    context: &str,
    field: &str,
) -> (r: Result<Vec<u8>, Error>)
    requires
        *old(offset) <= bytes@.len(),
    ensures
        if *old(offset) + len <= bytes@.len() {
            &&& r matches Ok(v) && v@ == bytes@.subrange(*old(offset) as int, *old(offset) + len)
            &&& *final(offset) == *old(offset) + len
        } else {
            &&& r matches Err(Error::Corruption { message }) && message@ == truncated_message(
                context@,
                field@,
                path@,
            )
            &&& *final(offset) == *old(offset)
        },
{
    if bytes.len() - *offset < len {
        return Err(truncated_error(path, context, field));
    }
    let start = *offset;
    let value = vstd::slice::slice_to_vec(vstd::slice::slice_subrange(bytes, start, start + len));
    *offset = start + len;
    Ok(value)
}

} // verus!
