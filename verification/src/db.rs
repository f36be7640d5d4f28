//! The decisions of opening a database: which state its directory is in.

use crate::error::Error;
use crate::filename::{manifest_number, manifest_number_of};
use crate::manifest::INITIAL_FILE_NUMBER;
use vstd::prelude::*;
use vstd::utf8::encode_utf8;

verus! {

/// A key and its value, as returned by a prefix scan.
pub struct PrefixEntry {
    pub key: Vec<u8>,
    pub value: Vec<u8>,
}

/// The state that a database directory is found in when it is opened.
#[derive(Debug, PartialEq, Eq, Structural)]
pub enum DbState {
    /// No CURRENT file and no manifest: nothing has been created yet.
    New,
    /// No CURRENT file, only the initial manifest: creation stopped before
    /// CURRENT was published.
    IncompleteBootstrap,
    /// A CURRENT file names the live manifest.
    Existing,
}

/// What a scan of the manifest files of a directory has seen so far.
#[derive(Debug, Copy, Clone, PartialEq, Eq, Structural)]
pub struct ManifestScan {
    /// How many manifest files were seen (saturating).
    pub count: u8,
    /// Whether one of them is the initial manifest.
    pub has_initial: bool,
}

impl ManifestScan {
    pub fn new() -> (scan: Self)
        ensures
            scan.count == 0,
            !scan.has_initial,
    {
        ManifestScan { count: 0, has_initial: false }
    }

    /// Takes one directory entry into account: a manifest file name counts,
    /// anything else is skipped.
    pub fn observe(&mut self, filename: &str)
        ensures
            match manifest_number_of(encode_utf8(filename@)) {
                Some(n) => {
                    &&& final(self).count == (if old(self).count == 255 {
                        255
                    } else {
                        old(self).count + 1
                    })
                    &&& final(self).has_initial == (old(self).has_initial || n
                        == INITIAL_FILE_NUMBER)
                },
                None => *final(self) == *old(self),
            },
    {
        if let Some(number) = manifest_number(filename) {
            self.count = self.count.saturating_add(1);
            self.has_initial = self.has_initial || number == INITIAL_FILE_NUMBER;
        }
    }

    /// Whether the scan has seen enough to decide: two manifests are already
    /// too many for a directory without CURRENT.
    pub fn is_complete(&self) -> (b: bool)
        ensures
            b == (self.count >= 2),
    {
        self.count >= 2
    }
}

/// What reading the CURRENT file of a database directory gave.
#[derive(Debug)]
pub enum CurrentRead {
    /// CURRENT was read.
    Found,
    /// There is no CURRENT file; the scan of the directory's manifest files.
    Missing(ManifestScan),
    /// Reading CURRENT failed for another reason.
    Failed(std::io::Error),
}

/// Decides the state of a database directory from what reading its CURRENT
/// file gave: a readable CURRENT means an existing database, a missing one
/// leaves the decision to the manifests found, and any other failure is
/// reported as it is.
pub fn classify(db_path: &str, current: CurrentRead) -> (r: Result<DbState, Error>)
    ensures
        match current {
            CurrentRead::Found => r == Ok::<DbState, Error>(DbState::Existing),
            CurrentRead::Failed(e) => r == Err::<DbState, Error>(Error::Io(e)),
            CurrentRead::Missing(scan) => classified_without_current(r, db_path@, scan),
        },
{
    match current {
        CurrentRead::Found => Ok(DbState::Existing),
        CurrentRead::Failed(e) => Err(Error::Io(e)),
        CurrentRead::Missing(scan) => classify_without_current(db_path, &scan),
    }
}

/// The state of a directory without CURRENT, given the manifests found in it.
pub open spec fn classified_without_current(
    r: Result<DbState, Error>,
    db_path: Seq<char>,
    scan: ManifestScan,
) -> bool {
    if scan.count == 0 {
        r == Ok::<DbState, Error>(DbState::New)
    } else if scan.count == 1 && scan.has_initial {
        r == Ok::<DbState, Error>(DbState::IncompleteBootstrap)
    } else {
        r matches Err(Error::Corruption { message }) && message@
            == "invalid manifest bootstrap state: "@ + db_path
    }
}

/// Decides the state of a database directory that has no CURRENT file, from
/// the manifests found in it: none means a new database, the initial one
/// alone means an interrupted creation, and anything else is corruption.
pub fn classify_without_current(db_path: &str, scan: &ManifestScan) -> (r: Result<DbState, Error>)
    ensures
        classified_without_current(r, db_path@, *scan),
{
    if scan.count == 0 {
        Ok(DbState::New)
    } else if scan.count == 1 && scan.has_initial {
        Ok(DbState::IncompleteBootstrap)
    } else {
        Err(
            Error::Corruption {
                message: String::from_str("invalid manifest bootstrap state: ").concat(db_path),
            },
        )
    }
}

} // verus!
