//! Sequence numbers and the allocator that hands them out.

use crate::error::Error;
use vstd::prelude::*;

verus! {

/// A write's position in the total order of all writes of a database.
#[derive(Debug, Copy, Clone, PartialEq, Eq, Structural, PartialOrd, Ord)]
pub struct SequenceNumber(u64);

impl View for SequenceNumber {
    type V = u64;

    closed spec fn view(&self) -> u64 {
        self.0
    }
}

impl SequenceNumber {
    /// The sequence number that precedes every write.
    pub fn zero() -> (s: Self)
        ensures
            s@ == 0,
    {
        SequenceNumber(0)
    }

    pub fn new(value: u64) -> (s: Self)
        ensures
            s@ == value,
    {
        SequenceNumber(value)
    }

    pub fn get(self) -> (value: u64)
        ensures
            value == self@,
    {
        self.0
    }
}

/// Hands out strictly increasing sequence numbers, starting after the
/// last one that was allocated (or recovered).
#[derive(Debug)]
pub struct SequenceAllocator {
    last_allocated: u64,
}

impl View for SequenceAllocator {
    type V = u64;

    /// The last sequence number handed out or observed.
    closed spec fn view(&self) -> u64 {
        self.last_allocated
    }
}

/// The sequence number that an allocator whose last number is `last` hands
/// out next, or `None` once `u64::MAX` has been handed out.
pub open spec fn next_sequence(last: u64) -> Option<u64> {
    if last < u64::MAX {
        Some((last + 1) as u64)
    } else {
        None
    }
}

/// The last number of an allocator after it observes a recovered number.
pub open spec fn after_recovery(last: u64, recovered: u64) -> u64 {
    if recovered > last {
        recovered
    } else {
        last
    }
}

/// Each allocation hands out a number greater than every one before it.
pub proof fn lemma_allocations_increase(last: u64)
    ensures
        next_sequence(last) matches Some(s) ==> s > last && (next_sequence(s) matches Some(t)
            ==> t > s),
{
}

/// An allocation hands out the number right after the last one, with no
/// gap, and fails only once `u64::MAX` has been handed out.
pub proof fn lemma_allocation_is_successor(last: u64)
    ensures
        last < u64::MAX ==> next_sequence(last) == Some((last + 1) as u64),
        last == u64::MAX ==> next_sequence(last) is None,
{
}

/// Observing a recovered number moves the allocator to the larger of that
/// number and its last one: it never moves backwards, and a number not above
/// the last one leaves it as it is.
pub proof fn lemma_recovery_takes_maximum(last: u64, recovered: u64)
    ensures
        after_recovery(last, recovered) >= last,
        after_recovery(last, recovered) >= recovered,
        after_recovery(last, recovered) == last || after_recovery(last, recovered) == recovered,
        recovered <= last ==> after_recovery(last, recovered) == last,
{
}

/// Once a recovered number has been observed, no number up to it, and no
/// number up to the last one allocated, is handed out again.
pub proof fn lemma_allocation_follows_recovery(last: u64, recovered: u64)
    ensures
        after_recovery(last, recovered) >= last,
        after_recovery(last, recovered) >= recovered,
        next_sequence(after_recovery(last, recovered)) matches Some(s) ==> s > recovered && s
            > last,
{
}

impl SequenceAllocator {
    pub fn new() -> (a: Self)
        ensures
            a@ == 0,
    {
        Self::from_last_allocated(SequenceNumber::zero())
    }

    pub fn from_last_allocated(last_allocated: SequenceNumber) -> (a: Self)
        ensures
            a@ == last_allocated@,
    {
        SequenceAllocator { last_allocated: last_allocated.get() }
    }

    /// Allocates the sequence number that follows the last one; fails with
    /// `SequenceOverflow`, leaving the allocator unchanged, once `u64::MAX`
    /// has been handed out.
    pub fn allocate(&mut self) -> (r: Result<SequenceNumber, Error>)
        ensures
            match next_sequence(old(self)@) {
                Some(n) => r matches Ok(s) && s@ == n && final(self)@ == n,
                None => r matches Err(e) && e is SequenceOverflow && final(self)@ == old(self)@,
            },
    {
        match self.last_allocated.checked_add(1) {
            Some(next) => {
                self.last_allocated = next;
                Ok(SequenceNumber::new(next))
            },
            None => Err(Error::SequenceOverflow),
        }
    }

    pub fn last_allocated(&self) -> (s: SequenceNumber)
        ensures
            s@ == self@,
    {
        SequenceNumber::new(self.last_allocated)
    }

    /// Makes sure that no number up to `recovered` is handed out again; the
    /// allocator never moves backwards.
    pub fn observe_recovered(&mut self, recovered: SequenceNumber)
        ensures
            final(self)@ == after_recovery(old(self)@, recovered@),
    {
        let value = recovered.get();
        if value > self.last_allocated {
            self.last_allocated = value;
        }
    }
}

impl Default for SequenceAllocator {
    fn default() -> (a: Self)
        ensures
            a@ == 0,
    {
        Self::new()
    }
}

} // verus!
