//! The manifest: the file that records which files make up a database, and
//! the CURRENT file that names the live manifest.

pub mod codec;
pub mod current;
pub mod state;

use crate::error::Error;
use crate::manifest::state::{initial_state_view, ManifestState};
use vstd::prelude::*;

verus! {

/// The file number of the manifest that a new database starts with.
pub const INITIAL_FILE_NUMBER: u64 = 1;

/// The error for a manifest file that does not exist: the database is
/// corrupt, since CURRENT or the bootstrap state said it would be there.
pub fn missing_manifest_error(manifest_path: &str) -> (e: Error)
    ensures
        e matches Error::Corruption { message } && message@ == "manifest not found: "@
            + manifest_path@,
{
    Error::Corruption { message: String::from_str("manifest not found: ").concat(manifest_path) }
}

/// Accepts the state read from the initial manifest of an interrupted
/// creation only when it is the state of a new database.
pub fn check_initial_state(state: ManifestState, manifest_path: &str) -> (r: Result<
    ManifestState,
    Error,
>)
    ensures
        state@ == initial_state_view() ==> (r matches Ok(s) && s@ == state@),
        state@ != initial_state_view() ==> (r matches Err(Error::Corruption { message })
            && message@ == "initial manifest contains non-initial state: "@ + manifest_path@),
{
    if !state.is_initial() {
        return Err(
            Error::Corruption {
                message: String::from_str("initial manifest contains non-initial state: ").concat(
                    manifest_path,
                ),
            },
        );
    }
    Ok(state)
}

} // verus!
