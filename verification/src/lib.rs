//! A directory listing as a styled table: entries of a directory are enriched
//! into records, and the records are laid out as rows of coloured cells.

pub mod cli;
pub mod commands;
pub mod style;
pub mod text;
