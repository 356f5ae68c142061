//! Sizing constants shared by the three structures.

use vstd::prelude::*;

verus! {

/// Largest rank a sketch register may hold. A register is four bits wide.
pub const HLL_MAX_RHO: u8 = 15;

/// Cap on the number of active side-list entries.
pub const MRT_MAX_BYPASS: u8 = 8;

/// Number of slots in the ring of recent callers.
pub const RING_BUFFER_SIZE: usize = 64;

/// Number of time slots that the ring spans: the base slot is never more
/// than this behind the slot of the latest push.
pub const RING_SLOT_SPAN: u64 = 64;

/// Number of slots in the fingerprint side-list.
pub const BYPASS_FP_SIZE: usize = 16;

/// The 56 low bits of a word: the width of a caller fingerprint.
pub const FP_MASK: u64 = 0x00FF_FFFF_FFFF_FFFF;

/// Largest reputation score.
pub const SCORE_MAX: u8 = 100;

} // verus!
