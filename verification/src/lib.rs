use vstd::prelude::*;

pub mod cmds;
pub mod fstree;
pub mod grep;
pub mod listing;
pub mod perm;

verus! {

/// The error taxonomy of the library: malformed arguments or expressions,
/// an absent source path, a metadata read failure, and an underlying
/// filesystem failure.
#[derive(Clone, Copy, PartialEq, Eq, Structural, Debug)]
pub enum UtilError {
    Validation,
    NotFound,
    Lookup,
    Io,
}

} // verus!
