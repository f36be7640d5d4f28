//! Options that tune a database.

use vstd::prelude::*;

verus! {

/// When writes are made durable.
#[derive(Debug, Copy, Clone, PartialEq, Eq, Structural)]
pub enum SyncMode {
    /// Every write is synced before it returns.
    Always,
    /// Writes are synced when the caller asks for it.
    Manual,
}

/// The tunable settings of a database.
#[derive(Debug, Clone)]
pub struct Options {
    pub sync_mode: SyncMode,
    pub memtable_bytes: usize,
    pub compaction_trigger_tables: usize,
}

impl Default for Options {
    /// Sync every write, a 4 MiB memtable, and compaction once four tables
    /// have piled up.
    fn default() -> (options: Self)
        ensures
            options.sync_mode == SyncMode::Always,
            options.memtable_bytes == 4 * 1024 * 1024,
            options.compaction_trigger_tables == 4,
    {
        Options { sync_mode: SyncMode::Always, memtable_bytes: 4 * 1024 * 1024, compaction_trigger_tables: 4 }
    }
}

} // verus!
