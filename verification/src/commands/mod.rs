//! What is listed: the records of a directory and where their parts come from.

pub mod git;
pub mod ls;

pub use ls::DEntry;
