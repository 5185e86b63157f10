//! How records are shown: colours, styled text and the table itself.

pub mod ansi;
pub mod color;
pub mod table;

pub use color::RGB;
pub use table::DisplayTable;
