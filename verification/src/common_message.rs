//! Requests to the database actor.
use vstd::prelude::*;

verus! {

/// Removes every row of a table.
#[derive(Debug, PartialEq, Eq)]
pub enum RemoveAll {
    FsChangeLog,
}

} // verus!
