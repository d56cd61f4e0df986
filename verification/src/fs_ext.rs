//! What a path is, as far as the workspace checks care.
use vstd::prelude::*;

verus! {

/// Whether a path is a directory (following symlinks), missing, or
/// something else.
#[derive(Debug, Clone, Copy, PartialEq, Eq, Structural)]
pub enum DirectoryStatus {
    Directory,
    Missing,
    NotDirectory,
}

} // verus!
