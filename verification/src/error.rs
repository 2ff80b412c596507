//! The ways in which the solver fails.

use vstd::prelude::*;

verus! {

/// A failure of the solver.
#[derive(Clone, Copy, Debug, PartialEq, Eq, Structural)]
pub enum SolverError {
    /// The annotated text has more characters than a word has letters.
    InvalidFeedback,
    /// No word agrees with the feedback given: there is nothing left to guess.
    EmptyCandidateSet,
}

} // verus!
