//! Peer-to-peer message types and the network-address codec.

pub mod error;
pub mod msg;
pub mod msgblock;
pub mod msgreject;
pub mod msgver;
pub mod netaddress;
pub mod protocol;
