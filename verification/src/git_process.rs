//! Why a Git command's result could not be used.
use vstd::prelude::*;

verus! {

#[derive(Clone, Debug, PartialEq, Eq)]
pub enum GitProcessError {
    Cancelled,
    TimedOut,
    InvalidPath,
    InvalidIdentity,
    OutputTooLarge,
    BinaryContent,
    SpawnFailed(String),
    CommandFailed(String),
    ParseFailed,
}

} // verus!
