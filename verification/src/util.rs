//! Protocol-wide constants.

pub mod constants;
