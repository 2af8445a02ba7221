//! Boundary error enums for core logic and repositories.

use vstd::prelude::*;

verus! {

/// Errors that can be raised by pure core logic (no I/O).
#[derive(Debug, Clone, PartialEq, Eq)]
pub enum CoreError {
    InvalidArgument(&'static str),
    Invariant(&'static str),
    NotFound,
}

/// Errors that occur at repository boundaries: absence is always `NotFound`
/// and never a panic; `Conflict` is reserved; `Ser` is corruption or version
/// skew in a stored payload; `Backend` is an I/O, connection or driver
/// failure.
#[derive(Debug, Clone, PartialEq, Eq)]
pub enum RepoError {
    Conflict,
    NotFound,
    Ser(String),
    Backend(String),
}

} // verus!
