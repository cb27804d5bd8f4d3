//! Shared protocol-level type names.

use vstd::prelude::*;

verus! {

/// A bitmask identifying the services a peer supports.
pub type ServiceFlag = u64;

/// A 128-bit network address: eight 16-bit groups, covering IPv4-mapped
/// and native IPv6 forms plus the reserved Tor onion prefix range.
pub type IPAddress = Vec<u16>;

} // verus!
