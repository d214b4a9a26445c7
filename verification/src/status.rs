//! Status codes reported by store operations.
//!
//! The engine reports every operation outcome through one of these small
//! integer codes; nothing in this layer swallows a non-`OK`, non-`PENDING`
//! status.

use vstd::prelude::*;

verus! {

/// The operation completed successfully.
pub const OK: u8 = 0;

/// The operation was accepted but will complete later, through a
/// completion callback observed via `complete_pending`.
pub const PENDING: u8 = 1;

/// The requested key has no stored value.
pub const NOT_FOUND: u8 = 2;

/// The engine ran out of memory.
pub const OUT_OF_MEMORY: u8 = 3;

/// An input/output failure was reported.
pub const IO_ERROR: u8 = 4;

/// Stored bytes were malformed and could not be interpreted.
pub const CORRUPTION: u8 = 5;

/// The operation was aborted.
pub const ABORTED: u8 = 6;

} // verus!
