//! Core of a versioned page-storage engine for a PostgreSQL-compatible
//! disaggregated database.
//!
//! Every historical version of every page is stored under a compound
//! `(key, lsn)` address. Point-in-time reads reconstruct the state as of any
//! requested log sequence number (LSN). The crate covers the keyspace and
//! page-directory mapping, the immutable image-layer file format, the write
//! transaction buffer, and the decision logic of the per-tenant background
//! loops.

use vstd::prelude::*;

pub mod codec;
pub mod directory;
pub mod image_layer;
pub mod key;
pub mod keyspace;
pub mod models;
pub mod pgdatadir_mapping;
pub mod relish;
pub mod repository;
pub mod tenant_threads;

verus! {

/// Errors surfaced by the storage core.
#[derive(Clone, Copy, Debug, PartialEq, Eq, Structural)]
pub enum PageError {
    /// The timeline holds no value for the requested key at the requested LSN.
    KeyNotFound,
    /// A directory insert hit an entry that is already present, or an image
    /// writer received a key twice.
    AlreadyExists,
    /// A stored blob, chapter, summary or filename failed to decode or did not
    /// match what was expected.
    Corrupt,
    /// A key's tag byte was not recognized by a decoder.
    InvalidKey,
    /// A read through the transaction buffer hit a buffered WAL record.
    PendingWalRecord,
    /// The value at this key and LSN is a WAL record; materializing it needs
    /// the external redo machinery.
    WalRedoNeeded,
    /// The requested LSN lies below the garbage-collection cutoff.
    LsnOutOfScope,
}

impl PageError {
    /// A short stable name for the error, for messages assembled outside the
    /// core.
    pub fn as_str(&self) -> (r: &'static str)
        ensures
            self is KeyNotFound ==> r@ == "key not found"@,
            self is AlreadyExists ==> r@ == "already exists"@,
            self is Corrupt ==> r@ == "corrupt data"@,
            self is InvalidKey ==> r@ == "invalid key"@,
            self is PendingWalRecord ==> r@ == "unexpected pending WAL record"@,
            self is WalRedoNeeded ==> r@ == "WAL redo needed"@,
            self is LsnOutOfScope ==> r@ == "LSN out of scope"@,
    {
        match self {
            PageError::KeyNotFound => "key not found",
            PageError::AlreadyExists => "already exists",
            PageError::Corrupt => "corrupt data",
            PageError::InvalidKey => "invalid key",
            PageError::PendingWalRecord => "unexpected pending WAL record",
            PageError::WalRedoNeeded => "WAL redo needed",
            PageError::LsnOutOfScope => "LSN out of scope",
        }
    }
}

} // verus!
