//! Checks on the directory layout of a database: the database directory and
//! its `wal`, `sst` and `tmp` subdirectories, and the `LOCK` file.
//!
//! The filesystem is probed by the caller; these functions decide what each
//! probe means.

use crate::error::Error;
use vstd::prelude::*;

verus! {

/// What probing a path in the filesystem found.
#[derive(Debug)]
pub enum PathStatus {
    File,
    Directory,
    /// Something that is neither a regular file nor a directory.
    Other,
    Missing,
    /// The probe itself failed.
    Failed(std::io::Error),
}

/// The kind of entry that a path must hold.
pub enum EntryType {
    File,
    Directory,
}

/// Whether a path may be absent.
pub enum ExistenceMode {
    AllowMissing,
    MustExist,
}

/// The outcome of checking `status`, found at `path`, against an entry type
/// and an existence mode.
pub open spec fn entry_checked(
    r: Result<(), Error>,
    path: Seq<char>,
    status: PathStatus,
    entry_type: EntryType,
    mode: ExistenceMode,
) -> bool {
    match status {
        PathStatus::Failed(e) => r == Err::<(), Error>(Error::Io(e)),
        PathStatus::Missing => match mode {
            ExistenceMode::AllowMissing => r is Ok,
            ExistenceMode::MustExist => r matches Err(Error::InvalidLayout { message })
                && message@ == "path not found: "@ + path,
        },
        PathStatus::File => match entry_type {
            EntryType::File => r is Ok,
            EntryType::Directory => r matches Err(Error::InvalidLayout { message }) && message@
                == "expected directory, found different type: "@ + path,
        },
        PathStatus::Directory => match entry_type {
            EntryType::Directory => r is Ok,
            EntryType::File => r matches Err(Error::InvalidLayout { message }) && message@
                == "expected file, found different type: "@ + path,
        },
        PathStatus::Other => match entry_type {
            EntryType::File => r matches Err(Error::InvalidLayout { message }) && message@
                == "expected file, found different type: "@ + path,
            EntryType::Directory => r matches Err(Error::InvalidLayout { message }) && message@
                == "expected directory, found different type: "@ + path,
        },
    }
}

fn invalid_layout(prefix: &str, path: &str) -> (e: Error)
    ensures
        e matches Error::InvalidLayout { message } && message@ == prefix@ + path@,
{
    Error::InvalidLayout { message: String::from_str(prefix).concat(path) }
}

/// Checks that `path` holds an entry of the given type, or (with
/// `AllowMissing`) nothing at all.
pub fn validate_entry(path: &str, status: PathStatus, entry_type: EntryType, mode: ExistenceMode) -> (r:
    Result<(), Error>)
    ensures
        entry_checked(r, path@, status, entry_type, mode),
{
    match status {
        PathStatus::Failed(e) => Err(Error::Io(e)),
        PathStatus::Missing => match mode {
            ExistenceMode::AllowMissing => Ok(()),
            ExistenceMode::MustExist => Err(invalid_layout("path not found: ", path)),
        },
        PathStatus::File => match entry_type {
            EntryType::File => Ok(()),
            EntryType::Directory => Err(
                invalid_layout("expected directory, found different type: ", path),
            ),
        },
        PathStatus::Directory => match entry_type {
            EntryType::Directory => Ok(()),
            EntryType::File => Err(invalid_layout("expected file, found different type: ", path)),
        },
        PathStatus::Other => match entry_type {
            EntryType::File => Err(invalid_layout("expected file, found different type: ", path)),
            EntryType::Directory => Err(
                invalid_layout("expected directory, found different type: ", path),
            ),
        },
    }
}

/// Checks that `path` is a regular file or absent.
pub fn validate_optional_file(path: &str, status: PathStatus) -> (r: Result<(), Error>)
    ensures
        entry_checked(r, path@, status, EntryType::File, ExistenceMode::AllowMissing),
{
    validate_entry(path, status, EntryType::File, ExistenceMode::AllowMissing)
}

/// Checks that `path` is an existing directory.
pub fn validate_dir(path: &str, status: PathStatus) -> (r: Result<(), Error>)
    ensures
        entry_checked(r, path@, status, EntryType::Directory, ExistenceMode::MustExist),
{
    validate_entry(path, status, EntryType::Directory, ExistenceMode::MustExist)
}

/// Decides what making sure that `path` is a directory takes: `Ok(true)`
/// when nothing is there and the directory must be created (and then checked
/// again), `Ok(false)` when a directory is already there, and the error of
/// `validate_dir` otherwise.
pub fn ensure_dir(path: &str, status: PathStatus) -> (r: Result<bool, Error>)
    ensures
        status is Missing ==> r == Ok::<bool, Error>(true),
        !(status is Missing) ==> entry_checked(
            match r {
                Ok(_) => Ok(()),
                Err(e) => Err(e),
            },
            path@,
            status,
            EntryType::Directory,
            ExistenceMode::MustExist,
        ) && (r is Ok ==> r == Ok::<bool, Error>(false)),
{
    if let PathStatus::Missing = status {
        return Ok(true);
    }
    match validate_dir(path, status) {
        Ok(()) => Ok(false),
        Err(e) => Err(e),
    }
}

/// The subdirectories of a database directory, in the order they are
/// checked and created: write-ahead logs, SSTables, temporary files.
pub fn layout_subdirectories() -> (names: Vec<String>)
    ensures
        names@.len() == 3,
        names@[0]@ == "wal"@,
        names@[1]@ == "sst"@,
        names@[2]@ == "tmp"@,
{
    vec![String::from_str("wal"), String::from_str("sst"), String::from_str("tmp")]
}

/// A path of the layout, and what probing it found.
pub struct LayoutEntry {
    pub path: String,
    pub status: PathStatus,
}

/// Checks that every entry of a database layout (the database directory,
/// then `wal`, `sst` and `tmp`) is an existing directory, and reports the
/// first one that is not.
pub fn validate_layout(entries: Vec<LayoutEntry>) -> (r: Result<(), Error>)
    ensures
        (forall|i: int| 0 <= i < entries@.len() ==> #[trigger] entries@[i].status is Directory)
            ==> r is Ok,
        r is Err ==> exists|k: int|
            0 <= k < entries@.len() && (forall|i: int|
                0 <= i < k ==> #[trigger] entries@[i].status is Directory) && entry_checked(
                r,
                entries@[k].path@,
                entries@[k].status,
                EntryType::Directory,
                ExistenceMode::MustExist,
            ),
        r is Ok ==> forall|i: int| 0 <= i < entries@.len() ==> #[trigger] entries@[i].status is Directory,
{
    let ghost all = entries@;
    for entry in it: entries
        invariant
            it.seq() == all,
            forall|i: int| 0 <= i < it.index() ==> #[trigger] all[i].status is Directory,
    {
        let LayoutEntry { path, status } = entry;
        match validate_dir(path.as_str(), status) {
            Ok(()) => {},
            Err(e) => {
                assert(entry_checked(
                    Err::<(), Error>(e),
                    all[it.index()].path@,
                    all[it.index()].status,
                    EntryType::Directory,
                    ExistenceMode::MustExist,
                ));
                return Err(e);
            },
        }
    }
    Ok(())
}

} // verus!
