//! The arguments of the command line.

use std::path::PathBuf;
use vstd::prelude::*;

verus! {

/// `PathBuf` of the standard library, a path of the file system. Nothing
/// inside it is seen here; it is carried through as it is.
#[verifier::external_type_specification]
#[verifier::external_body]
pub struct ExPathBuf(PathBuf);

/// What the command line asks for.
#[derive(Debug, Clone, PartialEq, Eq)]
pub struct Cli {
    /// The directory to list; `None` stands for the current one.
    pub path: Option<PathBuf>,
}

} // verus!
