//! Consensus-consistent encoding and decoding of wire data.

pub mod encode;
