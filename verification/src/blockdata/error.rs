//! Errors related to block data.

use vstd::prelude::*;

verus! {

/// Errors of block-header validation.
#[derive(Clone, Copy, Debug, PartialEq, Eq, Structural)]
pub enum Error {
    /// The hash value inside the block header is not below the target.
    BlockProofOfWorkError,
    /// The target field inside the block header did not match the
    /// expected one.
    BlockTargetError,
}

impl Error {
    /// A fixed description of the error, usable by callers for logging.
    pub fn description(&self) -> (r: &'static str)
        ensures
            *self is BlockProofOfWorkError ==> r@ == "block hash not below the target"@,
            *self is BlockTargetError ==> r@ == "incorrect block target"@,
    {
        match *self {
            Error::BlockProofOfWorkError => "block hash not below the target",
            Error::BlockTargetError => "incorrect block target",
        }
    }
}

} // verus!
