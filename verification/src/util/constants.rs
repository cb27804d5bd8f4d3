use vstd::prelude::*;

verus! {

/// Protocol version advertised by newly built messages.
pub const PROTOCOL_VERSION: u32 = 70001;

/// Largest number of block headers a single message may carry.
pub const MAX_BLOCK_HEADERS_PER_MSG: u32 = 2000;

/// Largest number of blocks a single message may carry.
pub const MAX_BLOCKS_PER_MSG: u32 = 500;

/// Largest element count a decoded sequence may claim; a larger count is
/// rejected before any allocation is attempted.
pub const MAX_VECTOR_SIZE: usize = 4000000;

/// Default service bitmask of this node.
pub const SERVICES: u64 = 0;

} // verus!
