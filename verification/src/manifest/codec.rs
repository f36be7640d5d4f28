//! The byte layout of a manifest file: a header (`KURAMNF` and the format
//! version, little-endian `u16`), then a snapshot of the database state.
//!
//! Snapshot: next file number (`u64`), last sequence (`u64`), the count of
//! write-ahead logs (`u32`) and their file numbers (`u64` each), the count of
//! SSTables (`u32`) and their descriptors. A descriptor: file number (`u64`),
//! minimum user key (`u32` length, then the bytes), maximum user key (likewise),
//! minimum and maximum sequence numbers (`u64` each). All integers are
//! little-endian.

use crate::binary::{
    byte_pow, le_bytes, le_value, lemma_byte_pow_values, lemma_le_bytes_digits, lemma_le_bytes_len,
    lemma_le_value_bound, lemma_le_roundtrip, push_le, read_bytes,
    read_le, truncated_message,
};
use crate::error::Error;
use crate::manifest::state::{
    descriptor_views, ManifestState, ManifestStateView, SstableDescriptor, SstableDescriptorView,
};
use crate::sequence::SequenceNumber;
use crate::text::{decimal, push_decimal};
use vstd::prelude::*;

verus! {

/// The format version that this library reads and writes.
pub const MANIFEST_FORMAT_VERSION: u16 = 1;

/// The bytes of `KURAMNF`, which open every manifest file.
pub open spec fn manifest_magic() -> Seq<u8> {
    seq![75u8, 85u8, 82u8, 65u8, 77u8, 78u8, 70u8]
}

/// Why a byte sequence is not a manifest.
pub enum ManifestFailure {
    /// The bytes end before `field` of `context`.
    Truncated { context: Seq<char>, field: Seq<char> },
    InvalidMagic,
    UnsupportedVersion { version: u16 },
}

/// The message of the corruption error for a manifest at `path` that fails
/// with `failure`.
pub open spec fn failure_message(failure: ManifestFailure, path: Seq<char>) -> Seq<char> {
    match failure {
        ManifestFailure::Truncated { context, field } => truncated_message(context, field, path),
        ManifestFailure::InvalidMagic => "invalid manifest magic: "@ + path,
        ManifestFailure::UnsupportedVersion { version } => "unsupported manifest format version "@
            + decimal(version as nat) + " in: "@ + path,
    }
}

/// The `len` bytes at `off`, and the offset after them.
pub open spec fn take_bytes(
    bytes: Seq<u8>,
    off: int,
    len: int,
    context: Seq<char>,
    field: Seq<char>,
) -> Result<(Seq<u8>, int), ManifestFailure> {
    if off + len <= bytes.len() {
        Ok((bytes.subrange(off, off + len), off + len))
    } else {
        Err(ManifestFailure::Truncated { context, field })
    }
}

/// The little-endian integer of `size` bytes at `off`, and the offset after it.
pub open spec fn take_uint(
    bytes: Seq<u8>,
    off: int,
    size: int,
    context: Seq<char>,
    field: Seq<char>,
) -> Result<(nat, int), ManifestFailure> {
    match take_bytes(bytes, off, size, context, field) {
        Ok((b, o)) => Ok((le_value(b), o)),
        Err(f) => Err(f),
    }
}

/// The offset after a valid header at `off`.
pub open spec fn decode_header_spec(bytes: Seq<u8>, off: int) -> Result<int, ManifestFailure> {
    match take_bytes(bytes, off, 7, "manifest header"@, "magic"@) {
        Err(f) => Err(f),
        Ok((magic, o)) => if magic != manifest_magic() {
            Err(ManifestFailure::InvalidMagic)
        } else {
            match take_uint(bytes, o, 2, "manifest header"@, "format version"@) {
                Err(f) => Err(f),
                Ok((version, o2)) => if version != MANIFEST_FORMAT_VERSION {
                    Err(ManifestFailure::UnsupportedVersion { version: version as u16 })
                } else {
                    Ok(o2)
                },
            }
        },
    }
}

/// The first `count` write-ahead log numbers at `off`, and the offset after them.
pub open spec fn decode_wal_files_spec(bytes: Seq<u8>, off: int, count: nat) -> Result<
    (Seq<u64>, int),
    ManifestFailure,
>
    decreases count,
{
    if count == 0 {
        Ok((Seq::empty(), off))
    } else {
        match decode_wal_files_spec(bytes, off, (count - 1) as nat) {
            Err(f) => Err(f),
            Ok((files, o)) => match take_uint(bytes, o, 8, "manifest WAL files"@, "file number"@) {
                Err(f) => Err(f),
                Ok((n, o2)) => Ok((files.push(n as u64), o2)),
            },
        }
    }
}

/// The descriptor at `off`, and the offset after it.
pub open spec fn decode_descriptor_spec(bytes: Seq<u8>, off: int) -> Result<
    (SstableDescriptorView, int),
    ManifestFailure,
> {
    let c = "manifest SSTable descriptor"@;
    match take_uint(bytes, off, 8, c, "file number"@) {
        Err(f) => Err(f),
        Ok((file_number, o1)) => match take_uint(bytes, o1, 4, c, "min user key length"@) {
            Err(f) => Err(f),
            Ok((min_len, o2)) => match take_bytes(bytes, o2, min_len as int, c, "min user key"@) {
                Err(f) => Err(f),
                Ok((min_key, o3)) => match take_uint(bytes, o3, 4, c, "max user key length"@) {
                    Err(f) => Err(f),
                    Ok((max_len, o4)) => match take_bytes(
                        bytes,
                        o4,
                        max_len as int,
                        c,
                        "max user key"@,
                    ) {
                        Err(f) => Err(f),
                        Ok((max_key, o5)) => match take_uint(bytes, o5, 8, c, "min sequence"@) {
                            Err(f) => Err(f),
                            Ok((min_seq, o6)) => match take_uint(
                                bytes,
                                o6,
                                8,
                                c,
                                "max sequence"@,
                            ) {
                                Err(f) => Err(f),
                                Ok((max_seq, o7)) => Ok(
                                    (
                                        SstableDescriptorView {
                                            file_number: file_number as u64,
                                            min_user_key: min_key,
                                            max_user_key: max_key,
                                            min_sequence: min_seq as u64,
                                            max_sequence: max_seq as u64,
                                        },
                                        o7,
                                    ),
                                ),
                            },
                        },
                    },
                },
            },
        },
    }
}

/// The first `count` descriptors at `off`, and the offset after them.
pub open spec fn decode_sstables_spec(bytes: Seq<u8>, off: int, count: nat) -> Result<
    (Seq<SstableDescriptorView>, int),
    ManifestFailure,
>
    decreases count,
{
    if count == 0 {
        Ok((Seq::empty(), off))
    } else {
        match decode_sstables_spec(bytes, off, (count - 1) as nat) {
            Err(f) => Err(f),
            Ok((ds, o)) => match decode_descriptor_spec(bytes, o) {
                Err(f) => Err(f),
                Ok((d, o2)) => Ok((ds.push(d), o2)),
            },
        }
    }
}

/// The snapshot at `off`, and the offset after it.
pub open spec fn decode_snapshot_spec(bytes: Seq<u8>, off: int) -> Result<
    (ManifestStateView, int),
    ManifestFailure,
> {
    let c = "manifest snapshot"@;
    match take_uint(bytes, off, 8, c, "next file number"@) {
        Err(f) => Err(f),
        Ok((next, o1)) => match take_uint(bytes, o1, 8, c, "last sequence"@) {
            Err(f) => Err(f),
            Ok((last, o2)) => match take_uint(bytes, o2, 4, c, "WAL file count"@) {
                Err(f) => Err(f),
                Ok((wal_count, o3)) => match decode_wal_files_spec(bytes, o3, wal_count) {
                    Err(f) => Err(f),
                    Ok((wal_files, o4)) => match take_uint(bytes, o4, 4, c, "SSTable count"@) {
                        Err(f) => Err(f),
                        Ok((sst_count, o5)) => match decode_sstables_spec(bytes, o5, sst_count) {
                            Err(f) => Err(f),
                            Ok((sstables, o6)) => Ok(
                                (
                                    ManifestStateView {
                                        next_file_number: next as u64,
                                        last_sequence: last as u64,
                                        wal_files,
                                        sstables,
                                    },
                                    o6,
                                ),
                            ),
                        },
                    },
                },
            },
        },
    }
}

/// The state that the bytes of a manifest file record. Bytes after the
/// snapshot are ignored.
pub open spec fn decode_file_spec(bytes: Seq<u8>) -> Result<ManifestStateView, ManifestFailure> {
    match decode_header_spec(bytes, 0) {
        Err(f) => Err(f),
        Ok(o) => match decode_snapshot_spec(bytes, o) {
            Err(f) => Err(f),
            Ok((state, _)) => Ok(state),
        },
    }
}

/// Bounds what a successful read gives.
proof fn lemma_take_uint_bound(
    bytes: Seq<u8>,
    off: int,
    size: int,
    context: Seq<char>,
    field: Seq<char>,
)
    requires
        0 <= off,
        0 <= size <= 8,
    ensures
        take_uint(bytes, off, size, context, field) matches Ok((v, o)) ==> v < byte_pow(
            size as nat,
        ) && o == off + size && o <= bytes.len(),
{
    if off + size <= bytes.len() {
        lemma_le_value_bound(bytes.subrange(off, off + size));
    }
}

fn is_manifest_magic(magic: &Vec<u8>) -> (b: bool)
    ensures
        b == (magic@ == manifest_magic()),
{
    let expected: [u8; 7] = [75, 85, 82, 65, 77, 78, 70];
    if magic.len() != 7 {
        return false;
    }
    let mut i: usize = 0;
    while i < 7
        invariant
            i <= 7,
            magic@.len() == 7,
            expected@ == manifest_magic(),
            forall|j: int| 0 <= j < i ==> magic@[j] == manifest_magic()[j],
        decreases 7 - i,
    {
        if magic[i] != expected[i] {
            return false;
        }
        i = i + 1;
    }
    assert(magic@ =~= manifest_magic());
    true
}

/// Checks the magic bytes and the format version at `*offset`.
pub fn decode_header(bytes: &[u8], offset: &mut usize, path: &str) -> (r: Result<(), Error>)
    requires
        *old(offset) <= bytes@.len(),
    ensures
        match decode_header_spec(bytes@, *old(offset) as int) {
            Ok(o) => r is Ok && *final(offset) == o,
            Err(f) => r matches Err(Error::Corruption { message }) && message@ == failure_message(
                f,
                path@,
            ),
        },
        r is Ok ==> *final(offset) <= bytes@.len(),
{
    proof {
        lemma_byte_pow_values();
        lemma_take_uint_bound(bytes@, *old(offset) + 7, 2, "manifest header"@, "format version"@);
    }
    let magic = match read_bytes(bytes, offset, 7, path, "manifest header", "magic") {
        Ok(m) => m,
        Err(e) => return Err(e),
    };
    if !is_manifest_magic(&magic) {
        let message = String::from_str("invalid manifest magic: ").concat(path);
        return Err(Error::Corruption { message });
    }
    let version: u16 = match read_le(bytes, offset, path, "manifest header", "format version") {
        Ok(v) => v,
        Err(e) => return Err(e),
    };
    if version != MANIFEST_FORMAT_VERSION {
        let mut message = String::from_str("unsupported manifest format version ");
        push_decimal(&mut message, version as u64);
        message.append(" in: ");
        message.append(path);
        return Err(Error::Corruption { message });
    }
    Ok(())
}

proof fn lemma_wal_failure_persists(bytes: Seq<u8>, off: int, k: nat, n: nat)
    requires
        k <= n,
        decode_wal_files_spec(bytes, off, k) is Err,
    ensures
        decode_wal_files_spec(bytes, off, n) == decode_wal_files_spec(bytes, off, k),
    decreases n,
{
    if n > k {
        lemma_wal_failure_persists(bytes, off, k, (n - 1) as nat);
    }
}

proof fn lemma_sstables_failure_persists(bytes: Seq<u8>, off: int, k: nat, n: nat)
    requires
        k <= n,
        decode_sstables_spec(bytes, off, k) is Err,
    ensures
        decode_sstables_spec(bytes, off, n) == decode_sstables_spec(bytes, off, k),
    decreases n,
{
    if n > k {
        lemma_sstables_failure_persists(bytes, off, k, (n - 1) as nat);
    }
}

/// Reads `wal_file_count` write-ahead log numbers at `*offset`.
pub fn decode_wal_files(bytes: &[u8], offset: &mut usize, path: &str, wal_file_count: u32) -> (r:
    Result<Vec<u64>, Error>)
    requires
        *old(offset) <= bytes@.len(),
    ensures
        match decode_wal_files_spec(bytes@, *old(offset) as int, wal_file_count as nat) {
            Ok((files, o)) => r matches Ok(v) && v@ == files && *final(offset) == o,
            Err(f) => r matches Err(Error::Corruption { message }) && message@ == failure_message(
                f,
                path@,
            ),
        },
        r is Ok ==> *final(offset) <= bytes@.len(),
{
    let ghost start = *offset as int;
    let mut wal_files: Vec<u64> = Vec::new();
    let mut i: u32 = 0;
    while i < wal_file_count
        invariant
            i <= wal_file_count,
            start == *old(offset),
            *offset <= bytes@.len(),
            decode_wal_files_spec(bytes@, start, i as nat) == Ok::<_, ManifestFailure>(
                (wal_files@, *offset as int),
            ),
        decreases wal_file_count - i,
    {
        match read_le::<u64>(bytes, offset, path, "manifest WAL files", "file number") {
            Ok(n) => {
                wal_files.push(n);
            },
            Err(e) => {
                proof {
                    lemma_wal_failure_persists(
                        bytes@,
                        start,
                        (i + 1) as nat,
                        wal_file_count as nat,
                    );
                }
                return Err(e);
            },
        }
        i = i + 1;
    }
    Ok(wal_files)
}

/// Reads one SSTable descriptor at `*offset`.
pub fn decode_sstable_descriptor(bytes: &[u8], offset: &mut usize, path: &str) -> (r: Result<
    SstableDescriptor,
    Error,
>)
    requires
        *old(offset) <= bytes@.len(),
    ensures
        match decode_descriptor_spec(bytes@, *old(offset) as int) {
            Ok((d, o)) => r matches Ok(v) && v@ == d && *final(offset) == o,
            Err(f) => r matches Err(Error::Corruption { message }) && message@ == failure_message(
                f,
                path@,
            ),
        },
        r is Ok ==> *final(offset) <= bytes@.len(),
{
    proof {
        lemma_byte_pow_values();
    }
    let context = "manifest SSTable descriptor";
    let file_number: u64 = match read_le(bytes, offset, path, context, "file number") {
        Ok(v) => v,
        Err(e) => return Err(e),
    };
    let min_user_key_len: u32 = match read_le(bytes, offset, path, context, "min user key length") {
        Ok(v) => v,
        Err(e) => return Err(e),
    };
    let min_user_key = match read_bytes(
        bytes,
        offset,
        min_user_key_len as usize,
        path,
        context,
        "min user key",
    ) {
        Ok(v) => v,
        Err(e) => return Err(e),
    };
    let max_user_key_len: u32 = match read_le(bytes, offset, path, context, "max user key length") {
        Ok(v) => v,
        Err(e) => return Err(e),
    };
    let max_user_key = match read_bytes(
        bytes,
        offset,
        max_user_key_len as usize,
        path,
        context,
        "max user key",
    ) {
        Ok(v) => v,
        Err(e) => return Err(e),
    };
    let min_sequence: u64 = match read_le(bytes, offset, path, context, "min sequence") {
        Ok(v) => v,
        Err(e) => return Err(e),
    };
    let max_sequence: u64 = match read_le(bytes, offset, path, context, "max sequence") {
        Ok(v) => v,
        Err(e) => return Err(e),
    };
    Ok(
        SstableDescriptor::new(
            file_number,
            min_user_key,
            max_user_key,
            SequenceNumber::new(min_sequence),
            SequenceNumber::new(max_sequence),
        ),
    )
}

/// Reads `sstable_count` SSTable descriptors at `*offset`.
pub fn decode_sstables(bytes: &[u8], offset: &mut usize, path: &str, sstable_count: u32) -> (r:
    Result<Vec<SstableDescriptor>, Error>)
    requires
        *old(offset) <= bytes@.len(),
    ensures
        match decode_sstables_spec(bytes@, *old(offset) as int, sstable_count as nat) {
            Ok((ds, o)) => r matches Ok(v) && descriptor_views(v@) == ds && *final(offset) == o,
            Err(f) => r matches Err(Error::Corruption { message }) && message@ == failure_message(
                f,
                path@,
            ),
        },
        r is Ok ==> *final(offset) <= bytes@.len(),
{
    let ghost start = *offset as int;
    let mut sstables: Vec<SstableDescriptor> = Vec::new();
    let mut i: u32 = 0;
    assert(descriptor_views(sstables@) =~= Seq::<SstableDescriptorView>::empty());
    while i < sstable_count
        invariant
            i <= sstable_count,
            start == *old(offset),
            *offset <= bytes@.len(),
            decode_sstables_spec(bytes@, start, i as nat) == Ok::<_, ManifestFailure>(
                (descriptor_views(sstables@), *offset as int),
            ),
        decreases sstable_count - i,
    {
        match decode_sstable_descriptor(bytes, offset, path) {
            Ok(d) => {
                let ghost before = sstables@;
                sstables.push(d);
                assert(descriptor_views(sstables@) =~= descriptor_views(before).push(d@));
            },
            Err(e) => {
                proof {
                    lemma_sstables_failure_persists(
                        bytes@,
                        start,
                        (i + 1) as nat,
                        sstable_count as nat,
                    );
                }
                return Err(e);
            },
        }
        i = i + 1;
    }
    Ok(sstables)
}

/// Reads the snapshot of the database state at `*offset`.
pub fn decode_snapshot(bytes: &[u8], offset: &mut usize, path: &str) -> (r: Result<
    ManifestState,
    Error,
>)
    requires
        *old(offset) <= bytes@.len(),
    ensures
        match decode_snapshot_spec(bytes@, *old(offset) as int) {
            Ok((m, o)) => r matches Ok(v) && v@ == m && *final(offset) == o,
            Err(f) => r matches Err(Error::Corruption { message }) && message@ == failure_message(
                f,
                path@,
            ),
        },
        r is Ok ==> *final(offset) <= bytes@.len(),
{
    proof {
        lemma_byte_pow_values();
    }
    let context = "manifest snapshot";
    let next_file_number: u64 = match read_le(bytes, offset, path, context, "next file number") {
        Ok(v) => v,
        Err(e) => return Err(e),
    };
    let last_sequence: u64 = match read_le(bytes, offset, path, context, "last sequence") {
        Ok(v) => v,
        Err(e) => return Err(e),
    };
    let wal_file_count: u32 = match read_le(bytes, offset, path, context, "WAL file count") {
        Ok(v) => v,
        Err(e) => return Err(e),
    };
    let wal_files = match decode_wal_files(bytes, offset, path, wal_file_count) {
        Ok(v) => v,
        Err(e) => return Err(e),
    };
    let sstable_count: u32 = match read_le(bytes, offset, path, context, "SSTable count") {
        Ok(v) => v,
        Err(e) => return Err(e),
    };
    let sstables = match decode_sstables(bytes, offset, path, sstable_count) {
        Ok(v) => v,
        Err(e) => return Err(e),
    };
    Ok(ManifestState::new(next_file_number, SequenceNumber::new(last_sequence), wal_files, sstables))
}

/// Decodes the bytes of the manifest file at `path` (named in error messages).
pub fn decode_file(bytes: &[u8], path: &str) -> (r: Result<ManifestState, Error>)
    ensures
        match decode_file_spec(bytes@) {
            Ok(m) => r matches Ok(v) && v@ == m,
            Err(f) => r matches Err(Error::Corruption { message }) && message@ == failure_message(
                f,
                path@,
            ),
        },
{
    let mut offset: usize = 0;
    match decode_header(bytes, &mut offset, path) {
        Ok(()) => {},
        Err(e) => return Err(e),
    }
    decode_snapshot(bytes, &mut offset, path)
}

/// A length that the format cannot record, because it exceeds `u32`.
pub enum EncodingLimit {
    WalFileCount,
    SstableCount,
    MinUserKeyLength,
    MaxUserKeyLength,
}

/// The message of the error for a state that exceeds `limit`.
pub open spec fn limit_message(limit: EncodingLimit) -> Seq<char> {
    match limit {
        EncodingLimit::WalFileCount => "manifest snapshot WAL file count exceeds u32"@,
        EncodingLimit::SstableCount => "manifest snapshot SSTable count exceeds u32"@,
        EncodingLimit::MinUserKeyLength => "manifest SSTable descriptor min user key length exceeds u32"@,
        EncodingLimit::MaxUserKeyLength => "manifest SSTable descriptor max user key length exceeds u32"@,
    }
}

/// The first limit that a descriptor exceeds, if any.
pub open spec fn descriptor_limit(d: SstableDescriptorView) -> Option<EncodingLimit> {
    if d.min_user_key.len() > u32::MAX {
        Some(EncodingLimit::MinUserKeyLength)
    } else if d.max_user_key.len() > u32::MAX {
        Some(EncodingLimit::MaxUserKeyLength)
    } else {
        None
    }
}

/// The first limit that a sequence of descriptors exceeds, in order, if any.
pub open spec fn descriptors_limit(ds: Seq<SstableDescriptorView>) -> Option<EncodingLimit>
    decreases ds.len(),
{
    if ds.len() == 0 {
        None
    } else {
        match descriptors_limit(ds.drop_last()) {
            Some(l) => Some(l),
            None => descriptor_limit(ds.last()),
        }
    }
}

/// The first limit that a state exceeds, in the order the encoder meets them.
pub open spec fn snapshot_limit(m: ManifestStateView) -> Option<EncodingLimit> {
    if m.wal_files.len() > u32::MAX {
        Some(EncodingLimit::WalFileCount)
    } else if m.sstables.len() > u32::MAX {
        Some(EncodingLimit::SstableCount)
    } else {
        descriptors_limit(m.sstables)
    }
}

pub open spec fn encode_wal_files_spec(files: Seq<u64>) -> Seq<u8>
    decreases files.len(),
{
    if files.len() == 0 {
        Seq::empty()
    } else {
        encode_wal_files_spec(files.drop_last()) + le_bytes(files.last() as nat, 8)
    }
}

pub open spec fn encode_descriptor_spec(d: SstableDescriptorView) -> Seq<u8> {
    le_bytes(d.file_number as nat, 8) + le_bytes(d.min_user_key.len(), 4) + d.min_user_key
        + le_bytes(d.max_user_key.len(), 4) + d.max_user_key + le_bytes(d.min_sequence as nat, 8)
        + le_bytes(d.max_sequence as nat, 8)
}

pub open spec fn encode_descriptors_spec(ds: Seq<SstableDescriptorView>) -> Seq<u8>
    decreases ds.len(),
{
    if ds.len() == 0 {
        Seq::empty()
    } else {
        encode_descriptors_spec(ds.drop_last()) + encode_descriptor_spec(ds.last())
    }
}

/// The bytes of a snapshot of the state `m`.
pub open spec fn encode_snapshot_spec(m: ManifestStateView) -> Seq<u8> {
    le_bytes(m.next_file_number as nat, 8) + le_bytes(m.last_sequence as nat, 8) + le_bytes(
        m.wal_files.len(),
        4,
    ) + encode_wal_files_spec(m.wal_files) + le_bytes(m.sstables.len(), 4)
        + encode_descriptors_spec(m.sstables)
}

/// The bytes of a manifest file that records the state `m`.
pub open spec fn encode_file_spec(m: ManifestStateView) -> Seq<u8> {
    manifest_magic() + le_bytes(MANIFEST_FORMAT_VERSION as nat, 2) + encode_snapshot_spec(m)
}

/// Appends the bytes of `src`.
fn push_bytes(buf: &mut Vec<u8>, src: &[u8])
    ensures
        final(buf)@ == old(buf)@ + src@,
{
    let mut i: usize = 0;
    while i < src.len()
        invariant
            i <= src@.len(),
            buf@ == old(buf)@ + src@.subrange(0, i as int),
        decreases src@.len() - i,
    {
        buf.push(src[i]);
        assert(src@.subrange(0, i + 1) =~= src@.subrange(0, i as int).push(src@[i as int]));
        i = i + 1;
    }
    assert(src@.subrange(0, src@.len() as int) =~= src@);
}

/// Appends the bytes of one SSTable descriptor.
pub fn write_sstable_descriptor(buf: &mut Vec<u8>, sstable: &SstableDescriptor) -> (r: Result<
    (),
    Error,
>)
    ensures
        match descriptor_limit(sstable@) {
            None => r is Ok && final(buf)@ == old(buf)@ + encode_descriptor_spec(sstable@),
            Some(l) => r matches Err(Error::EncodingLimitExceeded { message }) && message@
                == limit_message(l),
        },
{
    proof {
        lemma_byte_pow_values();
    }
    let min_user_key = sstable.min_user_key();
    let max_user_key = sstable.max_user_key();
    if min_user_key.len() > 0xFFFF_FFFF {
        let message = String::from_str(
            "manifest SSTable descriptor min user key length exceeds u32",
        );
        return Err(Error::EncodingLimitExceeded { message });
    }
    if max_user_key.len() > 0xFFFF_FFFF {
        let message = String::from_str(
            "manifest SSTable descriptor max user key length exceeds u32",
        );
        return Err(Error::EncodingLimitExceeded { message });
    }
    let ghost start = buf@;
    push_le(buf, sstable.file_number(), 8);
    push_le(buf, min_user_key.len() as u64, 4);
    push_bytes(buf, min_user_key);
    push_le(buf, max_user_key.len() as u64, 4);
    push_bytes(buf, max_user_key);
    push_le(buf, sstable.min_sequence().get(), 8);
    push_le(buf, sstable.max_sequence().get(), 8);
    assert(buf@ =~= start + encode_descriptor_spec(sstable@));
    Ok(())
}

/// Appends the bytes of a snapshot of `state`.
pub fn write_snapshot(buf: &mut Vec<u8>, state: &ManifestState) -> (r: Result<(), Error>)
    ensures
        match snapshot_limit(state@) {
            None => r is Ok && final(buf)@ == old(buf)@ + encode_snapshot_spec(state@),
            Some(l) => r matches Err(Error::EncodingLimitExceeded { message }) && message@
                == limit_message(l),
        },
{
    proof {
        lemma_byte_pow_values();
    }
    let ghost start = buf@;
    let wal_files = state.wal_files();
    let sstables = state.sstables();
    assert(sstables@.len() == state@.sstables.len());
    if wal_files.len() > 0xFFFF_FFFF {
        let message = String::from_str("manifest snapshot WAL file count exceeds u32");
        return Err(Error::EncodingLimitExceeded { message });
    }
    if sstables.len() > 0xFFFF_FFFF {
        let message = String::from_str("manifest snapshot SSTable count exceeds u32");
        return Err(Error::EncodingLimitExceeded { message });
    }
    push_le(buf, state.next_file_number(), 8);
    push_le(buf, state.last_sequence().get(), 8);
    push_le(buf, wal_files.len() as u64, 4);
    let ghost head = buf@;
    let mut i: usize = 0;
    assert(wal_files@.subrange(0, 0) =~= Seq::<u64>::empty());
    while i < wal_files.len()
        invariant
            i <= wal_files@.len(),
            byte_pow(8) == 0x1_0000_0000_0000_0000,
            buf@ == head + encode_wal_files_spec(wal_files@.subrange(0, i as int)),
        decreases wal_files@.len() - i,
    {
        let ghost before = wal_files@.subrange(0, i as int);
        push_le(buf, wal_files[i], 8);
        assert(wal_files@.subrange(0, i + 1).drop_last() =~= before);
        i = i + 1;
    }
    assert(wal_files@.subrange(0, wal_files@.len() as int) =~= wal_files@);
    push_le(buf, sstables.len() as u64, 4);
    let ghost middle = buf@;
    let ghost views = descriptor_views(sstables@);
    let mut k: usize = 0;
    assert(views.subrange(0, 0) =~= Seq::<SstableDescriptorView>::empty());
    while k < sstables.len()
        invariant
            k <= sstables@.len(),
            views == descriptor_views(sstables@),
            views == state@.sstables,
            state@.wal_files.len() <= u32::MAX,
            state@.sstables.len() <= u32::MAX,
            descriptors_limit(views.subrange(0, k as int)) is None,
            buf@ == middle + encode_descriptors_spec(views.subrange(0, k as int)),
        decreases sstables@.len() - k,
    {
        let ghost before = views.subrange(0, k as int);
        assert(views.subrange(0, k + 1).drop_last() =~= before);
        assert(views[k as int] == sstables@[k as int]@);
        match write_sstable_descriptor(buf, &sstables[k]) {
            Ok(()) => {},
            Err(e) => {
                proof {
                    lemma_descriptors_limit_persists(views, k as int + 1);
                }
                return Err(e);
            },
        }
        k = k + 1;
    }
    assert(views.subrange(0, views.len() as int) =~= views);
    assert(buf@ =~= start + encode_snapshot_spec(state@));
    Ok(())
}

/// Once a prefix of descriptors exceeds a limit, the whole sequence exceeds it.
proof fn lemma_descriptors_limit_persists(ds: Seq<SstableDescriptorView>, k: int)
    requires
        0 <= k <= ds.len(),
        descriptors_limit(ds.subrange(0, k)) is Some,
    ensures
        descriptors_limit(ds) == descriptors_limit(ds.subrange(0, k)),
    decreases ds.len() - k,
{
    if k < ds.len() {
        assert(ds.subrange(0, k + 1).drop_last() =~= ds.subrange(0, k));
        lemma_descriptors_limit_persists(ds, k + 1);
    } else {
        assert(ds.subrange(0, k) =~= ds);
    }
}

/// The bytes of a manifest file that records `state`: the header, then the
/// snapshot.
pub fn encode_file(state: &ManifestState) -> (r: Result<Vec<u8>, Error>)
    ensures
        match snapshot_limit(state@) {
            None => r matches Ok(bytes) && bytes@ == encode_file_spec(state@),
            Some(l) => r matches Err(Error::EncodingLimitExceeded { message }) && message@
                == limit_message(l),
        },
{
    proof {
        lemma_byte_pow_values();
    }
    let mut buf: Vec<u8> = vec![75, 85, 82, 65, 77, 78, 70];
    assert(buf@ =~= manifest_magic());
    push_le(&mut buf, MANIFEST_FORMAT_VERSION as u64, 2);
    match write_snapshot(&mut buf, state) {
        Ok(()) => {},
        Err(e) => return Err(e),
    }
    Ok(buf)
}

proof fn lemma_take_concat(
    a: Seq<u8>,
    x: Seq<u8>,
    c: Seq<u8>,
    context: Seq<char>,
    field: Seq<char>,
)
    ensures
        take_bytes(a + x + c, a.len() as int, x.len() as int, context, field) == Ok::<
            _,
            ManifestFailure,
        >((x, (a.len() + x.len()) as int)),
{
    assert((a + x + c).subrange(a.len() as int, (a.len() + x.len()) as int) =~= x);
}

proof fn lemma_take_uint_concat(
    a: Seq<u8>,
    v: nat,
    n: nat,
    c: Seq<u8>,
    context: Seq<char>,
    field: Seq<char>,
)
    requires
        v < byte_pow(n),
    ensures
        le_bytes(v, n).len() == n,
        take_uint(a + le_bytes(v, n) + c, a.len() as int, n as int, context, field) == Ok::<
            _,
            ManifestFailure,
        >((v, (a.len() + n) as int)),
{
    lemma_le_roundtrip(v, n);
    lemma_take_concat(a, le_bytes(v, n), c, context, field);
}

proof fn lemma_wal_files_roundtrip(a: Seq<u8>, files: Seq<u64>, c: Seq<u8>)
    ensures
        decode_wal_files_spec(a + encode_wal_files_spec(files) + c, a.len() as int, files.len())
            == Ok::<_, ManifestFailure>(
            (files, (a.len() + encode_wal_files_spec(files).len()) as int),
        ),
    decreases files.len(),
{
    if files.len() == 0 {
        assert(files =~= Seq::<u64>::empty());
    } else {
        lemma_byte_pow_values();
        let init = files.drop_last();
        let last = files.last();
        let e = encode_wal_files_spec(init);
        let tail = le_bytes(last as nat, 8);
        assert(a + encode_wal_files_spec(files) + c =~= a + e + (tail + c));
        lemma_wal_files_roundtrip(a, init, tail + c);
        assert(a + e + (tail + c) =~= (a + e) + tail + c);
        lemma_take_uint_concat(
            a + e,
            last as nat,
            8,
            c,
            "manifest WAL files"@,
            "file number"@,
        );
        assert(init.push(last) =~= files);
    }
}

#[verifier::rlimit(60)]
proof fn lemma_descriptor_roundtrip(a: Seq<u8>, d: SstableDescriptorView, c: Seq<u8>)
    requires
        descriptor_limit(d) is None,
    ensures
        decode_descriptor_spec(a + encode_descriptor_spec(d) + c, a.len() as int) == Ok::<
            _,
            ManifestFailure,
        >((d, (a.len() + encode_descriptor_spec(d).len()) as int)),
{
    lemma_byte_pow_values();
    let ctx = "manifest SSTable descriptor"@;
    let p1 = le_bytes(d.file_number as nat, 8);
    let p2 = le_bytes(d.min_user_key.len(), 4);
    let p3 = d.min_user_key;
    let p4 = le_bytes(d.max_user_key.len(), 4);
    let p5 = d.max_user_key;
    let p6 = le_bytes(d.min_sequence as nat, 8);
    let p7 = le_bytes(d.max_sequence as nat, 8);
    let b = a + encode_descriptor_spec(d) + c;
    assert(b =~= a + p1 + (p2 + p3 + p4 + p5 + p6 + p7 + c));
    lemma_take_uint_concat(a, d.file_number as nat, 8, p2 + p3 + p4 + p5 + p6 + p7 + c, ctx, "file number"@);
    let a2 = a + p1;
    assert(b =~= a2 + p2 + (p3 + p4 + p5 + p6 + p7 + c));
    lemma_take_uint_concat(a2, d.min_user_key.len(), 4, p3 + p4 + p5 + p6 + p7 + c, ctx, "min user key length"@);
    let a3 = a2 + p2;
    assert(b =~= a3 + p3 + (p4 + p5 + p6 + p7 + c));
    lemma_take_concat(a3, p3, p4 + p5 + p6 + p7 + c, ctx, "min user key"@);
    let a4 = a3 + p3;
    assert(b =~= a4 + p4 + (p5 + p6 + p7 + c));
    lemma_take_uint_concat(a4, d.max_user_key.len(), 4, p5 + p6 + p7 + c, ctx, "max user key length"@);
    let a5 = a4 + p4;
    assert(b =~= a5 + p5 + (p6 + p7 + c));
    lemma_take_concat(a5, p5, p6 + p7 + c, ctx, "max user key"@);
    let a6 = a5 + p5;
    assert(b =~= a6 + p6 + (p7 + c));
    lemma_take_uint_concat(a6, d.min_sequence as nat, 8, p7 + c, ctx, "min sequence"@);
    let a7 = a6 + p6;
    assert(b =~= a7 + p7 + c);
    lemma_take_uint_concat(a7, d.max_sequence as nat, 8, c, ctx, "max sequence"@);
    assert(a7.len() + 8 == a.len() + encode_descriptor_spec(d).len());
}

proof fn lemma_sstables_roundtrip(a: Seq<u8>, ds: Seq<SstableDescriptorView>, c: Seq<u8>)
    requires
        descriptors_limit(ds) is None,
    ensures
        decode_sstables_spec(a + encode_descriptors_spec(ds) + c, a.len() as int, ds.len()) == Ok::<
            _,
            ManifestFailure,
        >((ds, (a.len() + encode_descriptors_spec(ds).len()) as int)),
    decreases ds.len(),
{
    if ds.len() == 0 {
        assert(ds =~= Seq::<SstableDescriptorView>::empty());
    } else {
        let init = ds.drop_last();
        let last = ds.last();
        let e = encode_descriptors_spec(init);
        let tail = encode_descriptor_spec(last);
        assert(a + encode_descriptors_spec(ds) + c =~= a + e + (tail + c));
        lemma_sstables_roundtrip(a, init, tail + c);
        assert(a + e + (tail + c) =~= (a + e) + tail + c);
        lemma_descriptor_roundtrip(a + e, last, c);
        assert(init.push(last) =~= ds);
    }
}

#[verifier::rlimit(60)]
proof fn lemma_snapshot_roundtrip(a: Seq<u8>, m: ManifestStateView, c: Seq<u8>)
    requires
        snapshot_limit(m) is None,
    ensures
        decode_snapshot_spec(a + encode_snapshot_spec(m) + c, a.len() as int) == Ok::<
            _,
            ManifestFailure,
        >((m, (a.len() + encode_snapshot_spec(m).len()) as int)),
{
    lemma_byte_pow_values();
    let ctx = "manifest snapshot"@;
    let p1 = le_bytes(m.next_file_number as nat, 8);
    let p2 = le_bytes(m.last_sequence as nat, 8);
    let p3 = le_bytes(m.wal_files.len(), 4);
    let p4 = encode_wal_files_spec(m.wal_files);
    let p5 = le_bytes(m.sstables.len(), 4);
    let p6 = encode_descriptors_spec(m.sstables);
    let b = a + encode_snapshot_spec(m) + c;
    assert(b =~= a + p1 + (p2 + p3 + p4 + p5 + p6 + c));
    lemma_take_uint_concat(a, m.next_file_number as nat, 8, p2 + p3 + p4 + p5 + p6 + c, ctx, "next file number"@);
    let a2 = a + p1;
    assert(b =~= a2 + p2 + (p3 + p4 + p5 + p6 + c));
    lemma_take_uint_concat(a2, m.last_sequence as nat, 8, p3 + p4 + p5 + p6 + c, ctx, "last sequence"@);
    let a3 = a2 + p2;
    assert(b =~= a3 + p3 + (p4 + p5 + p6 + c));
    lemma_take_uint_concat(a3, m.wal_files.len(), 4, p4 + p5 + p6 + c, ctx, "WAL file count"@);
    let a4 = a3 + p3;
    assert(b =~= a4 + p4 + (p5 + p6 + c));
    lemma_wal_files_roundtrip(a4, m.wal_files, p5 + p6 + c);
    let a5 = a4 + p4;
    assert(b =~= a5 + p5 + (p6 + c));
    lemma_take_uint_concat(a5, m.sstables.len(), 4, p6 + c, ctx, "SSTable count"@);
    let a6 = a5 + p5;
    assert(b =~= a6 + p6 + c);
    lemma_sstables_roundtrip(a6, m.sstables, c);
    assert(a6.len() + p6.len() == a.len() + encode_snapshot_spec(m).len());
}

/// Reading back the bytes written for a state gives that state, whenever
/// its counts and key lengths fit in the format's `u32` fields.
pub proof fn lemma_manifest_roundtrip(m: ManifestStateView)
    requires
        snapshot_limit(m) is None,
    ensures
        decode_file_spec(encode_file_spec(m)) == Ok::<_, ManifestFailure>(m),
{
    lemma_byte_pow_values();
    let magic = manifest_magic();
    let version = le_bytes(MANIFEST_FORMAT_VERSION as nat, 2);
    let snapshot = encode_snapshot_spec(m);
    let b = encode_file_spec(m);
    let empty = Seq::<u8>::empty();
    assert(b =~= empty + magic + (version + snapshot));
    lemma_take_concat(empty, magic, version + snapshot, "manifest header"@, "magic"@);
    assert(b =~= magic + version + snapshot);
    lemma_take_uint_concat(magic, MANIFEST_FORMAT_VERSION as nat, 2, snapshot, "manifest header"@, "format version"@);
    assert(b =~= (magic + version) + snapshot + empty);
    lemma_snapshot_roundtrip(magic + version, m, empty);
}

/// The bytes of `KURAMNF`, spelled out.
pub open spec fn kuramnf() -> Seq<u8> {
    seq![0x4bu8, 0x55u8, 0x52u8, 0x41u8, 0x4du8, 0x4eu8, 0x46u8]
}

/// A manifest starts with `KURAMNF` and the format version 1 (`01 00`):
/// bytes with any other first seven bytes fail as an invalid magic, and
/// any other version fails as unsupported, naming that version.
pub proof fn lemma_manifest_header_required(bytes: Seq<u8>)
    ensures
        decode_file_spec(bytes) is Ok ==> bytes.len() >= 9 && bytes.subrange(0, 7) == kuramnf()
            && bytes[7] == 1 && bytes[8] == 0,
        bytes.len() < 7 ==> decode_file_spec(bytes) == Err::<ManifestStateView, ManifestFailure>(
            ManifestFailure::Truncated { context: "manifest header"@, field: "magic"@ },
        ),
        bytes.len() >= 7 && bytes.subrange(0, 7) != kuramnf() ==> decode_file_spec(bytes) == Err::<
            ManifestStateView,
            ManifestFailure,
        >(ManifestFailure::InvalidMagic),
        bytes.len() >= 9 && bytes.subrange(0, 7) == kuramnf() && !(bytes[7] == 1 && bytes[8] == 0)
            ==> decode_file_spec(bytes) == Err::<ManifestStateView, ManifestFailure>(
            ManifestFailure::UnsupportedVersion { version: (bytes[7] + 256 * bytes[8]) as u16 },
        ),
{
    assert(manifest_magic() =~= kuramnf());
    if bytes.len() >= 9 {
        let v = bytes.subrange(7, 9);
        reveal_with_fuel(le_value, 3);
        assert(v.drop_first().drop_first().len() == 0);
        assert(le_value(v) == bytes[7] + 256 * le_value(v.drop_first()));
        assert(le_value(v.drop_first()) == bytes[8] + 256 * le_value(v.drop_first().drop_first()));
    }
}

/// Write-ahead log numbers are written one after another in list order:
/// appending a number appends its bytes, prepending it prepends them.
pub proof fn lemma_wal_files_in_order(files: Seq<u64>, x: u64)
    ensures
        encode_wal_files_spec(Seq::empty()) == Seq::<u8>::empty(),
        encode_wal_files_spec(files.push(x)) == encode_wal_files_spec(files) + le_bytes(x as nat, 8),
        encode_wal_files_spec(seq![x] + files) == le_bytes(x as nat, 8) + encode_wal_files_spec(
            files,
        ),
    decreases files.len(),
{
    assert(files.push(x).drop_last() =~= files);
    if files.len() > 0 {
        let init = files.drop_last();
        lemma_wal_files_in_order(init, x);
        assert((seq![x] + files).drop_last() =~= seq![x] + init);
        assert((seq![x] + files).last() == files.last());
        let tail = le_bytes(files.last() as nat, 8);
        assert(encode_wal_files_spec(seq![x] + files) == encode_wal_files_spec(seq![x] + init)
            + tail);
        assert(encode_wal_files_spec(files) == encode_wal_files_spec(init) + tail);
        assert(encode_wal_files_spec(seq![x] + files) =~= le_bytes(x as nat, 8)
            + encode_wal_files_spec(files));
    } else {
        let sx = seq![x] + files;
        assert(sx.drop_last() =~= Seq::<u64>::empty());
        assert(sx.last() == x);
        assert(files =~= Seq::<u64>::empty());
        assert(encode_wal_files_spec(sx) == encode_wal_files_spec(Seq::<u64>::empty()) + le_bytes(
            x as nat,
            8,
        ));
        assert(encode_wal_files_spec(sx) =~= le_bytes(x as nat, 8) + encode_wal_files_spec(files));
    }
}

/// Write-ahead log number `i` takes bytes `8 * i` to `8 * i + 8`.
pub proof fn lemma_wal_files_layout(files: Seq<u64>)
    ensures
        encode_wal_files_spec(files).len() == 8 * files.len(),
        forall|i: int|
            0 <= i < files.len() ==> #[trigger] encode_wal_files_spec(files).subrange(
                8 * i,
                8 * i + 8,
            ) == le_bytes(files[i] as nat, 8),
    decreases files.len(),
{
    if files.len() > 0 {
        let init = files.drop_last();
        lemma_wal_files_layout(init);
        lemma_le_bytes_len(files.last() as nat, 8);
        let e = encode_wal_files_spec(init);
        let all = encode_wal_files_spec(files);
        assert forall|i: int| 0 <= i < files.len() implies #[trigger] all.subrange(
            8 * i,
            8 * i + 8,
        ) == le_bytes(files[i] as nat, 8) by {
            if i < files.len() - 1 {
                assert(all.subrange(8 * i, 8 * i + 8) =~= e.subrange(8 * i, 8 * i + 8));
                assert(init[i] == files[i]);
            } else {
                assert(all.subrange(8 * i, 8 * i + 8) =~= le_bytes(files.last() as nat, 8));
            }
        }
    }
}

/// SSTable descriptors are written one after another in list order:
/// appending a descriptor appends its bytes, prepending it prepends them.
pub proof fn lemma_descriptors_in_order(ds: Seq<SstableDescriptorView>, d: SstableDescriptorView)
    ensures
        encode_descriptors_spec(Seq::empty()) == Seq::<u8>::empty(),
        encode_descriptors_spec(ds.push(d)) == encode_descriptors_spec(ds) + encode_descriptor_spec(
            d,
        ),
        encode_descriptors_spec(seq![d] + ds) == encode_descriptor_spec(d) + encode_descriptors_spec(
            ds,
        ),
    decreases ds.len(),
{
    assert(ds.push(d).drop_last() =~= ds);
    if ds.len() > 0 {
        let init = ds.drop_last();
        lemma_descriptors_in_order(init, d);
        assert((seq![d] + ds).drop_last() =~= seq![d] + init);
        assert((seq![d] + ds).last() == ds.last());
        let tail = encode_descriptor_spec(ds.last());
        assert(encode_descriptors_spec(seq![d] + ds) == encode_descriptors_spec(seq![d] + init)
            + tail);
        assert(encode_descriptors_spec(ds) == encode_descriptors_spec(init) + tail);
        assert(encode_descriptors_spec(seq![d] + ds) =~= encode_descriptor_spec(d)
            + encode_descriptors_spec(ds));
    } else {
        let sd = seq![d] + ds;
        assert(sd.drop_last() =~= Seq::<SstableDescriptorView>::empty());
        assert(sd.last() == d);
        assert(ds =~= Seq::<SstableDescriptorView>::empty());
        assert(encode_descriptors_spec(sd) == encode_descriptors_spec(
            Seq::<SstableDescriptorView>::empty(),
        ) + encode_descriptor_spec(d));
        assert(encode_descriptors_spec(sd) =~= encode_descriptor_spec(d) + encode_descriptors_spec(
            ds,
        ));
    }
}

/// Where each field of an SSTable descriptor sits in its bytes: the file
/// number, the minimum key's length and bytes, the maximum key's length and
/// bytes, then the minimum and maximum sequence numbers.
pub proof fn lemma_descriptor_layout(d: SstableDescriptorView)
    ensures
        ({
            let b = encode_descriptor_spec(d);
            let l1 = d.min_user_key.len() as int;
            let l2 = d.max_user_key.len() as int;
            &&& b.len() == 32 + l1 + l2
            &&& b.subrange(0, 8) == le_bytes(d.file_number as nat, 8)
            &&& b.subrange(8, 12) == le_bytes(d.min_user_key.len(), 4)
            &&& b.subrange(12, 12 + l1) == d.min_user_key
            &&& b.subrange(12 + l1, 16 + l1) == le_bytes(d.max_user_key.len(), 4)
            &&& b.subrange(16 + l1, 16 + l1 + l2) == d.max_user_key
            &&& b.subrange(16 + l1 + l2, 24 + l1 + l2) == le_bytes(d.min_sequence as nat, 8)
            &&& b.subrange(24 + l1 + l2, 32 + l1 + l2) == le_bytes(d.max_sequence as nat, 8)
        }),
{
    let p1 = le_bytes(d.file_number as nat, 8);
    let p2 = le_bytes(d.min_user_key.len(), 4);
    let p4 = le_bytes(d.max_user_key.len(), 4);
    let p6 = le_bytes(d.min_sequence as nat, 8);
    let p7 = le_bytes(d.max_sequence as nat, 8);
    lemma_le_bytes_len(d.file_number as nat, 8);
    lemma_le_bytes_len(d.min_user_key.len(), 4);
    lemma_le_bytes_len(d.max_user_key.len(), 4);
    lemma_le_bytes_len(d.min_sequence as nat, 8);
    lemma_le_bytes_len(d.max_sequence as nat, 8);
    let b = encode_descriptor_spec(d);
    let l1 = d.min_user_key.len() as int;
    let l2 = d.max_user_key.len() as int;
    assert(b.subrange(0, 8) =~= p1);
    assert(b.subrange(8, 12) =~= p2);
    assert(b.subrange(12, 12 + l1) =~= d.min_user_key);
    assert(b.subrange(12 + l1, 16 + l1) =~= p4);
    assert(b.subrange(16 + l1, 16 + l1 + l2) =~= d.max_user_key);
    assert(b.subrange(16 + l1 + l2, 24 + l1 + l2) =~= p6);
    assert(b.subrange(24 + l1 + l2, 32 + l1 + l2) =~= p7);
}

/// Where each field sits in the bytes of a manifest file: `KURAMNF`, the
/// version `01 00`, the next file number, the last sequence number, the
/// count of write-ahead logs and their numbers in list order, the count of
/// SSTables, then their descriptors.
pub proof fn lemma_manifest_file_layout(m: ManifestStateView)
    ensures
        ({
            let b = encode_file_spec(m);
            let k = m.wal_files.len() as int;
            &&& b.subrange(0, 7) == kuramnf()
            &&& b[7] == 1
            &&& b[8] == 0
            &&& b.subrange(9, 17) == le_bytes(m.next_file_number as nat, 8)
            &&& b.subrange(17, 25) == le_bytes(m.last_sequence as nat, 8)
            &&& b.subrange(25, 29) == le_bytes(m.wal_files.len(), 4)
            &&& forall|i: int|
                0 <= i < k ==> #[trigger] b.subrange(29 + 8 * i, 37 + 8 * i) == le_bytes(
                    m.wal_files[i] as nat,
                    8,
                )
            &&& b.subrange(29 + 8 * k, 33 + 8 * k) == le_bytes(m.sstables.len(), 4)
            &&& b.subrange(33 + 8 * k, b.len() as int) == encode_descriptors_spec(m.sstables)
        }),
{
    let magic = manifest_magic();
    let version = le_bytes(MANIFEST_FORMAT_VERSION as nat, 2);
    let p1 = le_bytes(m.next_file_number as nat, 8);
    let p2 = le_bytes(m.last_sequence as nat, 8);
    let p3 = le_bytes(m.wal_files.len(), 4);
    let p4 = encode_wal_files_spec(m.wal_files);
    let p5 = le_bytes(m.sstables.len(), 4);
    let p6 = encode_descriptors_spec(m.sstables);
    lemma_le_bytes_len(MANIFEST_FORMAT_VERSION as nat, 2);
    lemma_le_bytes_len(m.next_file_number as nat, 8);
    lemma_le_bytes_len(m.last_sequence as nat, 8);
    lemma_le_bytes_len(m.wal_files.len(), 4);
    lemma_le_bytes_len(m.sstables.len(), 4);
    lemma_wal_files_layout(m.wal_files);
    lemma_le_bytes_digits(MANIFEST_FORMAT_VERSION as nat, 2, 0);
    lemma_le_bytes_digits(MANIFEST_FORMAT_VERSION as nat, 2, 1);
    lemma_byte_pow_values();
    reveal_with_fuel(byte_pow, 2);
    let b = encode_file_spec(m);
    let k = m.wal_files.len() as int;
    assert(b =~= magic + version + p1 + p2 + p3 + p4 + p5 + p6);
    assert(b.subrange(0, 7) =~= kuramnf());
    assert(b[7] == version[0]);
    assert(b[8] == version[1]);
    assert(b.subrange(9, 17) =~= p1);
    assert(b.subrange(17, 25) =~= p2);
    assert(b.subrange(25, 29) =~= p3);
    assert forall|i: int| 0 <= i < k implies #[trigger] b.subrange(29 + 8 * i, 37 + 8 * i)
        == le_bytes(m.wal_files[i] as nat, 8) by {
        assert(b.subrange(29 + 8 * i, 37 + 8 * i) =~= p4.subrange(8 * i, 8 * i + 8));
    }
    assert(b.subrange(29 + 8 * k, 33 + 8 * k) =~= p5);
    assert(b.subrange(33 + 8 * k, b.len() as int) =~= p6);
}

} // verus!
