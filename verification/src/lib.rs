//! A secondary-indexing and cursor-pagination engine for a registry of
//! externally identified contracts.
//!
//! Each registered contract has a fixed bank of typed, slot-addressed
//! attribute values; the registry maintains sorted indices over those
//! values so that range and equality queries can be answered in order,
//! resumed via cursors, and kept consistent as values change.
#![verifier::loop_isolation(false)]

use vstd::prelude::*;

pub mod client;
pub mod error;
pub mod execute;
pub mod keys;
pub mod laws;
pub mod maps;
pub mod models;
pub mod msg;
pub mod query;
pub mod state;
pub mod table;

verus! {

/// Number of custom slots available per value kind.
pub const SLOT_COUNT: u8 = 5;

/// Smallest page size a query may request.
pub const MIN_LIMIT: u32 = 1;

/// Largest page size a query may request.
pub const MAX_LIMIT: u32 = 50;

/// Page size used when a query names none.
pub const DEFAULT_LIMIT: u32 = 25;

} // verus!
