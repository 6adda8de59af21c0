//! The ways in which a fact can fail to be given.
use vstd::prelude::*;

verus! {

/// Why a fact could not be given.
#[derive(Clone, Copy, Debug, PartialEq, Eq, Structural)]
pub enum FactError {
    /// The source of the fact could not be read or queried.
    Unavailable,
    /// The source was read, but does not have the expected shape.
    Malformed,
}

/// A result that holds a string says what a result that holds a text says:
/// the same characters, or the same error.
pub open spec fn reads_as(r: Result<String, FactError>, expected: Result<Seq<char>, FactError>) -> bool {
    match (r, expected) {
        (Ok(s), Ok(t)) => s@ == t,
        (Err(e), Err(f)) => e == f,
        _ => false,
    }
}

} // verus!
