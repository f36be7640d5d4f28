//! Internal keys: a user key, the sequence number of the write, and whether
//! the write stored a value or a tombstone, with the order in which the
//! engine keeps them.

use crate::sequence::SequenceNumber;
use core::cmp::Ordering;
use vstd::prelude::*;

verus! {

/// What a write did to its user key.
#[derive(Debug, Copy, Clone, PartialEq, Eq, Structural)]
pub enum ValueType {
    Value,
    Tombstone,
}

/// The byte that stands for a value type on disk.
pub open spec fn value_type_byte(value_type: ValueType) -> u8 {
    match value_type {
        ValueType::Value => 1,
        ValueType::Tombstone => 2,
    }
}

/// The value type that a byte stands for, if any.
pub open spec fn value_type_of_byte(byte: u8) -> Option<ValueType> {
    if byte == 1 {
        Some(ValueType::Value)
    } else if byte == 2 {
        Some(ValueType::Tombstone)
    } else {
        None
    }
}

/// Reading back the byte of a value type gives that value type.
pub proof fn lemma_value_type_byte_roundtrip(value_type: ValueType)
    ensures
        value_type_of_byte(value_type_byte(value_type)) == Some(value_type),
{
}

impl ValueType {
    pub fn to_byte(self) -> (byte: u8)
        ensures
            byte == value_type_byte(self),
    {
        match self {
            ValueType::Value => 1,
            ValueType::Tombstone => 2,
        }
    }

    /// The value type stored as `byte`, or `None` for any other byte.
    pub fn from_byte(byte: u8) -> (value_type: Option<ValueType>)
        ensures
            value_type == value_type_of_byte(byte),
    {
        match byte {
            1 => Some(ValueType::Value),
            2 => Some(ValueType::Tombstone),
            _ => None,
        }
    }
}

/// An internal key, as plain values.
pub struct KeyView {
    pub user_key: Seq<u8>,
    pub sequence_number: u64,
    pub value_type: ValueType,
}

/// The byte-lexicographic order of two byte strings: the first differing
/// byte decides, and a proper prefix comes first.
pub open spec fn lex_order(a: Seq<u8>, b: Seq<u8>) -> Ordering
    decreases a.len(),
{
    if a.len() == 0 {
        if b.len() == 0 {
            Ordering::Equal
        } else {
            Ordering::Less
        }
    } else if b.len() == 0 {
        Ordering::Greater
    } else if a[0] < b[0] {
        Ordering::Less
    } else if a[0] > b[0] {
        Ordering::Greater
    } else {
        lex_order(a.drop_first(), b.drop_first())
    }
}

/// The order of sequence numbers.
pub open spec fn u64_order(a: u64, b: u64) -> Ordering {
    if a < b {
        Ordering::Less
    } else if a > b {
        Ordering::Greater
    } else {
        Ordering::Equal
    }
}

/// The order of value-type bytes.
pub open spec fn u8_order(a: u8, b: u8) -> Ordering {
    if a < b {
        Ordering::Less
    } else if a > b {
        Ordering::Greater
    } else {
        Ordering::Equal
    }
}

/// The opposite of an ordering.
pub open spec fn flip(o: Ordering) -> Ordering {
    match o {
        Ordering::Less => Ordering::Greater,
        Ordering::Equal => Ordering::Equal,
        Ordering::Greater => Ordering::Less,
    }
}

/// The order of internal keys: user keys ascending, then sequence numbers
/// descending (newer versions first), then value types ascending.
pub open spec fn key_order(a: KeyView, b: KeyView) -> Ordering {
    match lex_order(a.user_key, b.user_key) {
        Ordering::Equal => match u64_order(b.sequence_number, a.sequence_number) {
            Ordering::Equal => u8_order(value_type_byte(a.value_type), value_type_byte(b.value_type)),
            o => o,
        },
        o => o,
    }
}

/// An owned internal key.
#[derive(Debug, PartialEq, Eq)]
pub struct InternalKey {
    user_key: Vec<u8>,
    sequence_number: SequenceNumber,
    value_type: ValueType,
}

impl View for InternalKey {
    type V = KeyView;

    closed spec fn view(&self) -> KeyView {
        KeyView {
            user_key: self.user_key@,
            sequence_number: self.sequence_number@,
            value_type: self.value_type,
        }
    }
}

impl InternalKey {
    pub fn new(user_key: Vec<u8>, sequence_number: SequenceNumber, value_type: ValueType) -> (k:
        Self)
        ensures
            k@ == (KeyView {
                user_key: user_key@,
                sequence_number: sequence_number@,
                value_type,
            }),
    {
        InternalKey { user_key, sequence_number, value_type }
    }

    pub fn user_key(&self) -> (key: &[u8])
        ensures
            key@ == self@.user_key,
    {
        self.user_key.as_slice()
    }

    pub fn sequence_number(&self) -> (s: SequenceNumber)
        ensures
            s@ == self@.sequence_number,
    {
        self.sequence_number
    }

    pub fn value_type(&self) -> (t: ValueType)
        ensures
            t == self@.value_type,
    {
        self.value_type
    }

    /// A borrowed key with the same parts.
    pub fn as_ref(&self) -> (r: InternalKeyRef<'_>)
        ensures
            r@ == self@,
    {
        InternalKeyRef {
            user_key: self.user_key.as_slice(),
            sequence_number: self.sequence_number,
            value_type: self.value_type,
        }
    }

    /// Compares two keys in the engine's order.
    pub fn cmp(&self, other: &Self) -> (o: Ordering)
        ensures
            o == key_order(self@, other@),
    {
        compare(&self.as_ref(), &other.as_ref())
    }
}

/// A borrowed internal key.
#[derive(Debug, PartialEq, Eq)]
pub struct InternalKeyRef<'a> {
    user_key: &'a [u8],
    sequence_number: SequenceNumber,
    value_type: ValueType,
}

impl<'a> View for InternalKeyRef<'a> {
    type V = KeyView;

    closed spec fn view(&self) -> KeyView {
        KeyView {
            user_key: self.user_key@,
            sequence_number: self.sequence_number@,
            value_type: self.value_type,
        }
    }
}

impl<'a> InternalKeyRef<'a> {
    pub fn new(user_key: &'a [u8], sequence_number: SequenceNumber, value_type: ValueType) -> (k:
        Self)
        ensures
            k@ == (KeyView {
                user_key: user_key@,
                sequence_number: sequence_number@,
                value_type,
            }),
    {
        InternalKeyRef { user_key, sequence_number, value_type }
    }

    pub fn user_key(&self) -> (key: &'a [u8])
        ensures
            key@ == self@.user_key,
    {
        self.user_key
    }

    pub fn sequence_number(&self) -> (s: SequenceNumber)
        ensures
            s@ == self@.sequence_number,
    {
        self.sequence_number
    }

    pub fn value_type(&self) -> (t: ValueType)
        ensures
            t == self@.value_type,
    {
        self.value_type
    }

    /// Compares two keys in the engine's order.
    pub fn cmp(&self, other: &Self) -> (o: Ordering)
        ensures
            o == key_order(self@, other@),
    {
        compare(self, other)
    }
}

/// The length of the longest common prefix of `a` and `b`.
fn common_prefix_len(a: &[u8], b: &[u8]) -> (n: usize)
    ensures
        n <= a@.len(),
        n <= b@.len(),
        a@.take(n as int) == b@.take(n as int),
        n < a@.len() && n < b@.len() ==> a@[n as int] != b@[n as int],
{
    let mut i: usize = 0;
    while i < a.len() && i < b.len() && a[i] == b[i]
        invariant
            i <= a@.len(),
            i <= b@.len(),
            a@.take(i as int) == b@.take(i as int),
        decreases a@.len() - i,
    {
        assert(a@.take(i + 1) =~= a@.take(i as int).push(a@[i as int]));
        assert(b@.take(i + 1) =~= b@.take(i as int).push(b@[i as int]));
        i = i + 1;
    }
    i
}

/// An index as a mathematical integer.
pub open spec fn index_int(n: usize) -> int {
    n as int
}

/// The length of a byte string as a mathematical integer.
pub open spec fn seq_len_int(s: Seq<u8>) -> int {
    s.len() as int
}

/// Past a common prefix, the order of two byte strings is the order of
/// their rests.
proof fn lemma_lex_order_skip(a: Seq<u8>, b: Seq<u8>, n: int)
    requires
        0 <= n <= a.len(),
        n <= b.len(),
        a.take(n) == b.take(n),
    ensures
        lex_order(a, b) == lex_order(a.skip(n), b.skip(n)),
    decreases n,
{
    if n > 0 {
        assert(a[0] == a.take(n)[0]);
        assert(b[0] == b.take(n)[0]);
        assert(a.drop_first().take(n - 1) =~= a.take(n).drop_first());
        assert(b.drop_first().take(n - 1) =~= b.take(n).drop_first());
        lemma_lex_order_skip(a.drop_first(), b.drop_first(), n - 1);
        assert(a.drop_first().skip(n - 1) =~= a.skip(n));
        assert(b.drop_first().skip(n - 1) =~= b.skip(n));
    } else {
        assert(a.skip(0) =~= a);
        assert(b.skip(0) =~= b);
    }
}

/// Compares two byte strings lexicographically.
fn compare_bytes(a: &[u8], b: &[u8]) -> (o: Ordering)
    ensures
        o == lex_order(a@, b@),
{
    let n = common_prefix_len(a, b);
    proof {
        lemma_lex_order_skip(a@, b@, index_int(n));
    }
    if n < a.len() && n < b.len() {
        if a[n] < b[n] {
            Ordering::Less
        } else {
            Ordering::Greater
        }
    } else if n < b.len() {
        Ordering::Less
    } else if n < a.len() {
        Ordering::Greater
    } else {
        Ordering::Equal
    }
}

fn compare_u64(a: u64, b: u64) -> (o: Ordering)
    ensures
        o == u64_order(a, b),
{
    if a < b {
        Ordering::Less
    } else if a > b {
        Ordering::Greater
    } else {
        Ordering::Equal
    }
}

fn compare_u8(a: u8, b: u8) -> (o: Ordering)
    ensures
        o == u8_order(a, b),
{
    if a < b {
        Ordering::Less
    } else if a > b {
        Ordering::Greater
    } else {
        Ordering::Equal
    }
}

/// Compares internal keys by user key ascending, then sequence number
/// descending, then value type ascending.
pub fn compare(lhs: &InternalKeyRef<'_>, rhs: &InternalKeyRef<'_>) -> (o: Ordering)
    ensures
        o == key_order(lhs@, rhs@),
{
    match compare_bytes(lhs.user_key(), rhs.user_key()) {
        Ordering::Equal => match compare_u64(
            rhs.sequence_number().get(),
            lhs.sequence_number().get(),
        ) {
            Ordering::Equal => compare_u8(lhs.value_type().to_byte(), rhs.value_type().to_byte()),
            o => o,
        },
        o => o,
    }
}

/// Swapping two byte strings flips their order.
pub proof fn lemma_lex_order_antisymmetric(a: Seq<u8>, b: Seq<u8>)
    ensures
        lex_order(b, a) == flip(lex_order(a, b)),
    decreases a.len(),
{
    if a.len() > 0 && b.len() > 0 && a[0] == b[0] {
        lemma_lex_order_antisymmetric(a.drop_first(), b.drop_first());
    }
}

/// Two byte strings are equal in the order exactly when they are equal.
pub proof fn lemma_lex_order_equal(a: Seq<u8>, b: Seq<u8>)
    ensures
        (lex_order(a, b) == Ordering::Equal) == (a == b),
    decreases a.len(),
{
    if a.len() > 0 && b.len() > 0 && a[0] == b[0] {
        lemma_lex_order_equal(a.drop_first(), b.drop_first());
        assert(a =~= seq![a[0]] + a.drop_first());
        assert(b =~= seq![b[0]] + b.drop_first());
        if a == b {
            assert(a.drop_first() == b.drop_first());
        }
    } else if a.len() == 0 && b.len() == 0 {
        assert(a =~= b);
    } else if a.len() > 0 && b.len() > 0 {
        assert(a[0] != b[0]);
    }
}

/// The order of byte strings is transitive.
pub proof fn lemma_lex_order_transitive(a: Seq<u8>, b: Seq<u8>, c: Seq<u8>)
    requires
        lex_order(a, b) == Ordering::Less,
        lex_order(b, c) == Ordering::Less,
    ensures
        lex_order(a, c) == Ordering::Less,
    decreases a.len(),
{
    if a.len() > 0 && b.len() > 0 && c.len() > 0 && a[0] == b[0] && b[0] == c[0] {
        lemma_lex_order_transitive(a.drop_first(), b.drop_first(), c.drop_first());
    }
}

/// Swapping two internal keys flips their order.
pub proof fn lemma_key_order_antisymmetric(a: KeyView, b: KeyView)
    ensures
        key_order(b, a) == flip(key_order(a, b)),
{
    lemma_lex_order_antisymmetric(a.user_key, b.user_key);
}

/// Two internal keys are equal in the order exactly when all their parts
/// are equal.
pub proof fn lemma_key_order_equal(a: KeyView, b: KeyView)
    ensures
        (key_order(a, b) == Ordering::Equal) == (a == b),
{
    lemma_lex_order_equal(a.user_key, b.user_key);
}

/// The order of internal keys is transitive.
pub proof fn lemma_key_order_transitive(a: KeyView, b: KeyView, c: KeyView)
    requires
        key_order(a, b) == Ordering::Less,
        key_order(b, c) == Ordering::Less,
    ensures
        key_order(a, c) == Ordering::Less,
{
    lemma_lex_order_equal(a.user_key, b.user_key);
    lemma_lex_order_equal(b.user_key, c.user_key);
    lemma_lex_order_equal(a.user_key, c.user_key);
    if lex_order(a.user_key, b.user_key) == Ordering::Less && lex_order(b.user_key, c.user_key)
        == Ordering::Less {
        lemma_lex_order_transitive(a.user_key, b.user_key, c.user_key);
    }
}

/// Of two versions of one user key, the newer one (higher sequence number)
/// comes first.
pub proof fn lemma_newer_version_first(a: KeyView, b: KeyView)
    requires
        a.user_key == b.user_key,
        a.sequence_number > b.sequence_number,
    ensures
        key_order(a, b) == Ordering::Less,
{
    lemma_lex_order_equal(a.user_key, b.user_key);
}

/// After a common prefix, the first differing byte decides the order of two
/// byte strings, by its unsigned value.
pub proof fn lemma_lex_order_first_difference(p: Seq<u8>, x: u8, s: Seq<u8>, y: u8, t: Seq<u8>)
    requires
        x != y,
    ensures
        lex_order(p + seq![x] + s, p + seq![y] + t) == (if x < y {
            Ordering::Less
        } else {
            Ordering::Greater
        }),
{
    let a = p + seq![x] + s;
    let b = p + seq![y] + t;
    let n = seq_len_int(p);
    assert(a.take(n) =~= p);
    assert(b.take(n) =~= p);
    lemma_lex_order_skip(a, b, n);
    assert(a.skip(n)[0] == x);
    assert(b.skip(n)[0] == y);
}

/// A proper prefix comes before every longer string that starts with it.
pub proof fn lemma_lex_order_prefix_first(p: Seq<u8>, s: Seq<u8>)
    requires
        s.len() > 0,
    ensures
        lex_order(p, p + s) == Ordering::Less,
        lex_order(p + s, p) == Ordering::Greater,
{
    let b = p + s;
    let n = seq_len_int(p);
    assert(b.take(n) =~= p);
    assert(p.take(n) =~= p);
    lemma_lex_order_skip(p, b, n);
    lemma_lex_order_skip(b, p, n);
    assert(p.skip(n).len() == 0);
    assert(b.skip(n).len() > 0);
}

/// The parts of internal keys decide their order in turn: a different user
/// key decides by byte order; for one user key a higher sequence number comes
/// first; for one user key and sequence number a value comes before a
/// tombstone.
pub proof fn lemma_key_order_priorities(a: KeyView, b: KeyView)
    ensures
        a.user_key != b.user_key ==> key_order(a, b) == lex_order(a.user_key, b.user_key),
        a.user_key == b.user_key && a.sequence_number > b.sequence_number ==> key_order(a, b)
            == Ordering::Less,
        a.user_key == b.user_key && a.sequence_number < b.sequence_number ==> key_order(a, b)
            == Ordering::Greater,
        a.user_key == b.user_key && a.sequence_number == b.sequence_number && a.value_type
            == ValueType::Value && b.value_type == ValueType::Tombstone ==> key_order(a, b)
            == Ordering::Less,
        a.user_key == b.user_key && a.sequence_number == b.sequence_number && a.value_type
            == ValueType::Tombstone && b.value_type == ValueType::Value ==> key_order(a, b)
            == Ordering::Greater,
{
    lemma_lex_order_equal(a.user_key, b.user_key);
}

} // verus!
