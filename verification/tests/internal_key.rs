use kura::internal_key::{compare, InternalKey, InternalKeyRef, ValueType};
use kura::SequenceNumber;
use std::cmp::Ordering;

#[test]
fn orders_user_keys_ascending() {
    let lhs_owned = InternalKey::new(b"a".to_vec(), SequenceNumber::new(1), ValueType::Value);
    let rhs_owned = InternalKey::new(b"b".to_vec(), SequenceNumber::new(1), ValueType::Value);

    assert_eq!(lhs_owned.cmp(&rhs_owned), Ordering::Less);
    assert_eq!(lhs_owned.cmp(&lhs_owned), Ordering::Equal);
    assert_eq!(rhs_owned.cmp(&lhs_owned), Ordering::Greater);

    let lhs_borrowed = InternalKeyRef::new(b"a", SequenceNumber::new(1), ValueType::Value);
    let rhs_borrowed = InternalKeyRef::new(b"b", SequenceNumber::new(1), ValueType::Value);

    assert_eq!(lhs_borrowed.cmp(&rhs_borrowed), Ordering::Less);
    assert_eq!(lhs_borrowed.cmp(&lhs_borrowed), Ordering::Equal);
    assert_eq!(rhs_borrowed.cmp(&lhs_borrowed), Ordering::Greater);
}

#[test]
fn orders_sequence_numbers_descending() {
    let lhs_owned = InternalKey::new(b"a".to_vec(), SequenceNumber::new(1), ValueType::Value);
    let rhs_owned = InternalKey::new(b"a".to_vec(), SequenceNumber::new(2), ValueType::Value);

    assert_eq!(lhs_owned.cmp(&rhs_owned), Ordering::Greater);
    assert_eq!(lhs_owned.cmp(&lhs_owned), Ordering::Equal);
    assert_eq!(rhs_owned.cmp(&lhs_owned), Ordering::Less);

    let lhs_borrowed = InternalKeyRef::new(b"a", SequenceNumber::new(1), ValueType::Value);
    let rhs_borrowed = InternalKeyRef::new(b"a", SequenceNumber::new(2), ValueType::Value);

    assert_eq!(lhs_borrowed.cmp(&rhs_borrowed), Ordering::Greater);
    assert_eq!(lhs_borrowed.cmp(&lhs_borrowed), Ordering::Equal);
    assert_eq!(rhs_borrowed.cmp(&lhs_borrowed), Ordering::Less);
}

#[test]
fn orders_value_types_ascending() {
    let lhs_owned = InternalKey::new(b"a".to_vec(), SequenceNumber::new(1), ValueType::Value);
    let rhs_owned =
        InternalKey::new(b"a".to_vec(), SequenceNumber::new(1), ValueType::Tombstone);

    assert_eq!(lhs_owned.cmp(&rhs_owned), Ordering::Less);
    assert_eq!(lhs_owned.cmp(&lhs_owned), Ordering::Equal);
    assert_eq!(rhs_owned.cmp(&lhs_owned), Ordering::Greater);

    let lhs_borrowed = InternalKeyRef::new(b"a", SequenceNumber::new(1), ValueType::Value);
    let rhs_borrowed = InternalKeyRef::new(b"a", SequenceNumber::new(1), ValueType::Tombstone);

    assert_eq!(lhs_borrowed.cmp(&rhs_borrowed), Ordering::Less);
    assert_eq!(lhs_borrowed.cmp(&lhs_borrowed), Ordering::Equal);
    assert_eq!(rhs_borrowed.cmp(&lhs_borrowed), Ordering::Greater);
}

#[test]
fn newest_version_sorts_first_for_the_same_user_key() {
    let mut keys_owned = [
        InternalKey::new(b"a".to_vec(), SequenceNumber::new(1), ValueType::Value),
        InternalKey::new(b"a".to_vec(), SequenceNumber::new(3), ValueType::Value),
        InternalKey::new(b"a".to_vec(), SequenceNumber::new(2), ValueType::Value),
    ];

    keys_owned.sort_by(|a, b| a.cmp(b));

    assert_eq!(keys_owned[0].sequence_number(), SequenceNumber::new(3));
    assert_eq!(keys_owned[1].sequence_number(), SequenceNumber::new(2));
    assert_eq!(keys_owned[2].sequence_number(), SequenceNumber::new(1));

    let mut keys_borrowed = [
        InternalKeyRef::new(b"a", SequenceNumber::new(1), ValueType::Value),
        InternalKeyRef::new(b"a", SequenceNumber::new(3), ValueType::Value),
        InternalKeyRef::new(b"a", SequenceNumber::new(2), ValueType::Value),
    ];

    keys_borrowed.sort_by(|a, b| a.cmp(b));

    assert_eq!(keys_borrowed[0].sequence_number(), SequenceNumber::new(3));
    assert_eq!(keys_borrowed[1].sequence_number(), SequenceNumber::new(2));
    assert_eq!(keys_borrowed[2].sequence_number(), SequenceNumber::new(1));
}

#[test]
fn value_type_byte_mapping_is_stable() {
    assert_eq!(ValueType::Value.to_byte(), 1);
    assert_eq!(ValueType::Tombstone.to_byte(), 2);

    assert_eq!(ValueType::from_byte(1), Some(ValueType::Value));
    assert_eq!(ValueType::from_byte(2), Some(ValueType::Tombstone));
    assert_eq!(ValueType::from_byte(0), None);
    assert_eq!(ValueType::from_byte(255), None);
}

#[test]
fn user_key_order_is_bytewise_and_prefix_first() {
    let key = |k: &'static [u8]| InternalKeyRef::new(k, SequenceNumber::new(5), ValueType::Value);
    assert_eq!(compare(&key(b"ab"), &key(b"abc")), Ordering::Less);
    assert_eq!(compare(&key(b"abc"), &key(b"ab")), Ordering::Greater);
    assert_eq!(compare(&key(b""), &key(b"a")), Ordering::Less);
    assert_eq!(compare(&key(b""), &key(b"")), Ordering::Equal);
    assert_eq!(compare(&key(b"a\xff"), &key(b"b")), Ordering::Less);
    assert_eq!(compare(&key(b"\x80"), &key(b"\x7f")), Ordering::Greater);
}

#[test]
fn user_key_decides_before_sequence_number() {
    let older_b = InternalKeyRef::new(b"b", SequenceNumber::new(1), ValueType::Value);
    let newer_a = InternalKeyRef::new(b"a", SequenceNumber::new(100), ValueType::Tombstone);
    assert_eq!(compare(&newer_a, &older_b), Ordering::Less);
    assert_eq!(compare(&older_b, &newer_a), Ordering::Greater);
}

#[test]
fn owned_and_borrowed_keys_agree() {
    let owned = InternalKey::new(b"key".to_vec(), SequenceNumber::new(7), ValueType::Tombstone);
    let borrowed = owned.as_ref();
    assert_eq!(borrowed.user_key(), b"key");
    assert_eq!(borrowed.sequence_number(), SequenceNumber::new(7));
    assert_eq!(borrowed.value_type(), ValueType::Tombstone);
    assert_eq!(owned.user_key(), b"key");
    assert_eq!(owned.value_type(), ValueType::Tombstone);
    assert_eq!(compare(&borrowed, &owned.as_ref()), Ordering::Equal);
}
