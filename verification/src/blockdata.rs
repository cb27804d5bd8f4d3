//! Block-data checks and their errors.

pub mod block;
pub mod error;
