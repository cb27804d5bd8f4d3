//! Errors raised by the wire layer outside the codec itself.

use vstd::prelude::*;

verus! {

/// Errors of the wire layer: address handling and message construction.
#[derive(Clone, Copy, Debug, PartialEq, Eq, Structural)]
pub enum Error {
    /// The address is a Tor hidden-service address, not directly
    /// connectable as a socket endpoint.
    ErrorTORAddress,
    /// The address does not hold the expected number of 16-bit groups.
    ErrorAddressLength,
    /// A headers message was given more block headers than the protocol
    /// allows in one message.
    ErrorBlockHeaderInvalidLength,
}

impl Error {
    /// A fixed description of the error, usable by callers for logging.
    pub fn description(&self) -> (r: &'static str)
        ensures
            *self is ErrorTORAddress ==> r@ == "message contains TOR address"@,
            *self is ErrorAddressLength ==> r@ == "wrong address length"@,
            *self is ErrorBlockHeaderInvalidLength ==> r@ == "block header of invalid length"@,
    {
        match *self {
            Error::ErrorTORAddress => "message contains TOR address",
            Error::ErrorAddressLength => "wrong address length",
            Error::ErrorBlockHeaderInvalidLength => "block header of invalid length",
        }
    }
}

} // verus!
