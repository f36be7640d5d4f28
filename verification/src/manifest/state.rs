//! The database state that a manifest records.

use crate::manifest::INITIAL_FILE_NUMBER;
use crate::sequence::SequenceNumber;
use vstd::prelude::*;

verus! {

/// The contents of a manifest, as plain values.
pub struct ManifestStateView {
    pub next_file_number: u64,
    pub last_sequence: u64,
    pub wal_files: Seq<u64>,
    pub sstables: Seq<SstableDescriptorView>,
}

/// An SSTable descriptor, as plain values.
pub struct SstableDescriptorView {
    pub file_number: u64,
    pub min_user_key: Seq<u8>,
    pub max_user_key: Seq<u8>,
    pub min_sequence: u64,
    pub max_sequence: u64,
}

/// The state of a database that has just been created.
pub open spec fn initial_state_view() -> ManifestStateView {
    ManifestStateView {
        next_file_number: (INITIAL_FILE_NUMBER + 1) as u64,
        last_sequence: 0,
        wal_files: Seq::empty(),
        sstables: Seq::empty(),
    }
}

/// The views of a sequence of descriptors.
pub open spec fn descriptor_views(sstables: Seq<SstableDescriptor>) -> Seq<SstableDescriptorView> {
    sstables.map_values(|d: SstableDescriptor| d@)
}

/// The next file number to hand out, the last sequence number used, the live
/// write-ahead logs and the live SSTables of a database.
#[derive(Debug, PartialEq, Eq)]
pub struct ManifestState {
    next_file_number: u64,
    last_sequence: SequenceNumber,
    wal_files: Vec<u64>,
    sstables: Vec<SstableDescriptor>,
}

impl View for ManifestState {
    type V = ManifestStateView;

    closed spec fn view(&self) -> ManifestStateView {
        ManifestStateView {
            next_file_number: self.next_file_number,
            last_sequence: self.last_sequence@,
            wal_files: self.wal_files@,
            sstables: descriptor_views(self.sstables@),
        }
    }
}

impl ManifestState {
    pub fn new(
        next_file_number: u64,
        last_sequence: SequenceNumber,
        wal_files: Vec<u64>,
        sstables: Vec<SstableDescriptor>,
    ) -> (s: Self)
        ensures
            s@ == (ManifestStateView {
                next_file_number,
                last_sequence: last_sequence@,
                wal_files: wal_files@,
                sstables: descriptor_views(sstables@),
            }),
    {
        ManifestState { next_file_number, last_sequence, wal_files, sstables }
    }

    pub fn initial() -> (s: Self)
        ensures
            s@ == initial_state_view(),
    {
        let s = Self::new(INITIAL_FILE_NUMBER + 1, SequenceNumber::zero(), Vec::new(), Vec::new());
        assert(s@.wal_files =~= Seq::<u64>::empty());
        assert(s@.sstables =~= Seq::<SstableDescriptorView>::empty());
        s
    }

    /// Whether this is the state of a database that has just been created.
    pub fn is_initial(&self) -> (b: bool)
        ensures
            b == (self@ == initial_state_view()),
    {
        let b = self.next_file_number == INITIAL_FILE_NUMBER + 1 && self.last_sequence.get() == 0
            && self.wal_files.len() == 0 && self.sstables.len() == 0;
        proof {
            if b {
                assert(self@.wal_files =~= Seq::<u64>::empty());
                assert(self@.sstables =~= Seq::<SstableDescriptorView>::empty());
            }
            if self@ == initial_state_view() {
                assert(self@.sstables.len() == 0);
            }
        }
        b
    }

    pub fn next_file_number(&self) -> (n: u64)
        ensures
            n == self@.next_file_number,
    {
        self.next_file_number
    }

    pub fn last_sequence(&self) -> (s: SequenceNumber)
        ensures
            s@ == self@.last_sequence,
    {
        self.last_sequence
    }

    pub fn wal_files(&self) -> (files: &[u64])
        ensures
            files@ == self@.wal_files,
    {
        self.wal_files.as_slice()
    }

    pub fn sstables(&self) -> (sstables: &[SstableDescriptor])
        ensures
            descriptor_views(sstables@) == self@.sstables,
    {
        self.sstables.as_slice()
    }
}

/// Where an SSTable file sits in the key space and in the write order.
#[derive(Debug, PartialEq, Eq)]
pub struct SstableDescriptor {
    file_number: u64,
    min_user_key: Vec<u8>,
    max_user_key: Vec<u8>,
    min_sequence: SequenceNumber,
    max_sequence: SequenceNumber,
}

impl View for SstableDescriptor {
    type V = SstableDescriptorView;

    closed spec fn view(&self) -> SstableDescriptorView {
        SstableDescriptorView {
            file_number: self.file_number,
            min_user_key: self.min_user_key@,
            max_user_key: self.max_user_key@,
            min_sequence: self.min_sequence@,
            max_sequence: self.max_sequence@,
        }
    }
}

impl SstableDescriptor {
    pub fn new(
        file_number: u64,
        min_user_key: Vec<u8>,
        max_user_key: Vec<u8>,
        min_sequence: SequenceNumber,
        max_sequence: SequenceNumber,
    ) -> (d: Self)
        ensures
            d@ == (SstableDescriptorView {
                file_number,
                min_user_key: min_user_key@,
                max_user_key: max_user_key@,
                min_sequence: min_sequence@,
                max_sequence: max_sequence@,
            }),
    {
        SstableDescriptor { file_number, min_user_key, max_user_key, min_sequence, max_sequence }
    }

    pub fn file_number(&self) -> (n: u64)
        ensures
            n == self@.file_number,
    {
        self.file_number
    }

    pub fn min_user_key(&self) -> (key: &[u8])
        ensures
            key@ == self@.min_user_key,
    {
        self.min_user_key.as_slice()
    }

    pub fn max_user_key(&self) -> (key: &[u8])
        ensures
            key@ == self@.max_user_key,
    {
        self.max_user_key.as_slice()
    }

    pub fn min_sequence(&self) -> (s: SequenceNumber)
        ensures
            s@ == self@.min_sequence,
    {
        self.min_sequence
    }

    pub fn max_sequence(&self) -> (s: SequenceNumber)
        ensures
            s@ == self@.max_sequence,
    {
        self.max_sequence
    }
}

} // verus!
