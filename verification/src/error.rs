//! The ways in which a sample can fail.

use vstd::prelude::*;

verus! {

/// Why a sample or a merge yields nothing.
#[derive(Clone, Copy, Debug, PartialEq, Eq, Structural)]
pub enum Error {
    /// The text lacks a token or a line that is needed, or a token that must be a
    /// number is none.
    MalformedContent,
    /// A rate has a denominator of zero.
    DegenerateComputation,
    /// The pattern for the names of process directories was not accepted.
    PatternRejected,
}

} // verus!
