use kura::{Error, SequenceAllocator, SequenceNumber};

const EXPECT: &str = "allocate sequence number";

#[test]
fn allocate_returns_monotonic_sequences() {
    let mut allocator = SequenceAllocator::new();

    assert_eq!(allocator.allocate().expect(EXPECT), SequenceNumber::new(1));
    assert_eq!(allocator.allocate().expect(EXPECT), SequenceNumber::new(2));
    assert_eq!(allocator.allocate().expect(EXPECT), SequenceNumber::new(3));
    assert_eq!(allocator.last_allocated(), SequenceNumber::new(3))
}

#[test]
fn allocate_resumes_after_recovered_sequence() {
    let mut allocator = SequenceAllocator::from_last_allocated(SequenceNumber::new(2));

    assert_eq!(allocator.allocate().expect(EXPECT), SequenceNumber::new(3));
    assert_eq!(allocator.allocate().expect(EXPECT), SequenceNumber::new(4))
}

#[test]
fn allocate_returns_sequence_overflow_at_u64_max() {
    let mut allocator = SequenceAllocator::from_last_allocated(SequenceNumber::new(u64::MAX));

    assert!(matches!(allocator.allocate(), Err(Error::SequenceOverflow)))
}

#[test]
fn observe_recovered_does_not_move_sequence_backwards() {
    let mut allocator = SequenceAllocator::new();

    assert_eq!(allocator.allocate().expect(EXPECT), SequenceNumber::new(1));

    allocator.observe_recovered(SequenceNumber::new(10));
    allocator.observe_recovered(SequenceNumber::new(2));

    assert_eq!(allocator.last_allocated(), SequenceNumber::new(10));
    assert_eq!(allocator.allocate().expect(EXPECT), SequenceNumber::new(11))
}

#[test]
fn failed_allocation_leaves_allocator_unchanged() {
    let mut allocator = SequenceAllocator::from_last_allocated(SequenceNumber::new(u64::MAX - 1));
    assert_eq!(allocator.allocate().expect(EXPECT), SequenceNumber::new(u64::MAX));
    assert!(matches!(allocator.allocate(), Err(Error::SequenceOverflow)));
    assert_eq!(allocator.last_allocated(), SequenceNumber::new(u64::MAX));
}

#[test]
fn default_allocator_starts_at_zero() {
    let mut allocator = SequenceAllocator::default();
    assert_eq!(allocator.last_allocated(), SequenceNumber::new(0));
    assert_eq!(allocator.allocate().expect(EXPECT).get(), 1);
}

#[test]
fn sequence_numbers_order_by_value() {
    assert!(SequenceNumber::new(1) < SequenceNumber::new(2));
    assert_eq!(SequenceNumber::new(7).get(), 7);
}

#[test]
fn zero_sequence_number_is_zero() {
    assert_eq!(SequenceNumber::zero(), SequenceNumber::new(0));
    assert_eq!(SequenceNumber::zero().get(), 0);
}
