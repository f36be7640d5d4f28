//! Kura: the verified core of a single-node embedded LSM storage engine.
//!
//! The library holds the engine's formats and decisions: little-endian
//! decoding, manifest file names, the manifest and CURRENT file formats, the
//! order of internal keys, sequence number allocation, and the checks that
//! opening a database directory makes. Reading and writing files is left to
//! the caller, which hands the library plain values.

pub mod binary;
pub mod bootstrap;
pub mod db;
pub mod error;
pub mod filename;
pub mod internal_key;
pub mod manifest;
pub mod options;
pub mod sequence;
pub mod text;

pub use db::PrefixEntry;
pub use error::{Error, Result};
pub use options::{Options, SyncMode};
pub use sequence::{SequenceAllocator, SequenceNumber};
