//! PostgreSQL-level names for the objects stored in the key space: relations
//! with their forks, SLRU segments, and the identifiers that address tenants
//! and timelines.

use vstd::prelude::*;

verus! {

/// PostgreSQL object identifier.
pub type Oid = u32;

/// PostgreSQL transaction identifier.
pub type TransactionId = u32;

/// Block number within a relation or SLRU segment. This matches PostgreSQL's
/// BlockNumber type.
pub type BlockNumber = u32;

/// Fork number of a relation's main data file.
pub const MAIN_FORKNUM: u8 = 0;

/// Fork number of the free-space-map fork.
pub const FSM_FORKNUM: u8 = 1;

/// Fork number of the visibility-map fork.
pub const VISIBILITYMAP_FORKNUM: u8 = 2;

/// Fork number of the init fork.
pub const INIT_FORKNUM: u8 = 3;

/// Identifies one fork of one PostgreSQL relation.
#[derive(Clone, Copy, Debug, PartialEq, Eq, Structural, Hash)]
pub struct RelTag {
    pub spcnode: Oid,
    pub dbnode: Oid,
    pub relnode: Oid,
    pub forknum: u8,
}

/// The simple-LRU metadata stores kept by PostgreSQL.
#[derive(Clone, Copy, Debug, PartialEq, Eq, Structural, Hash)]
pub enum SlruKind {
    Clog,
    MultiXactMembers,
    MultiXactOffsets,
}

/// Anything blocky addressed through the key space: a relation fork or an
/// SLRU segment.
#[derive(Clone, Copy, Debug, PartialEq, Eq, Structural, Hash)]
pub enum RelishTag {
    Relation(RelTag),
    Slru { slru: SlruKind, segno: u32 },
}

/// Identifies a tenant: 16 bytes, shown as 32 hex digits.
#[derive(Clone, Copy, Debug, PartialEq, Eq, Structural, Hash)]
pub struct ZTenantId {
    pub hi: u64,
    pub lo: u64,
}

/// Identifies a timeline: 16 bytes, shown as 32 hex digits.
#[derive(Clone, Copy, Debug, PartialEq, Eq, Structural, Hash)]
pub struct ZTimelineId {
    pub hi: u64,
    pub lo: u64,
}

} // verus!
