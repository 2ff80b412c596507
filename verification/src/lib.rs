//! A constraint-based solver for a word-guessing game with five-letter words.
//!
//! After each guess the game tells, for every letter of the guess, whether it
//! stands in its place, is in the hidden word at another place, or is absent.
//! The solver gathers what these verdicts tell, keeps the words of its list
//! that agree with it, and proposes as its next guess the word whose letters
//! are the most frequent, place by place, among the words kept.
//!
//! - [`letters`]: the case encoding of a letter's status in typed feedback.
//! - [`words`]: words and word lists.
//! - [`feedback`]: the verdicts on a guess, worked out or read from text.
//! - [`knowledge`]: the knowledge gathered, how a round changes it, and
//!   which words agree with it.
//! - [`filter`]: the candidate filter on plain lists of what is known.
//! - [`ranker`]: letter frequencies, the score of a word, the best guess.
//! - [`reading_order`]: why a round may be read in any order.
//! - [`solver`]: the rounds of a game, played step by step or as a whole.
//! - [`soundness`]: why the hidden word is never filtered out.
//! - [`letter_set`], [`letter_counts`]: sets and counts of letters.
//! - [`error`]: the ways in which the solver fails.
//!
//! Executable functions carry contracts over mathematical models: a word is a
//! sequence of letters, a set of letters is a `Set<char>`, the knowledge is a
//! [`knowledge::Knowledge`], and a game is a [`solver::Game`].

pub mod error;
pub mod feedback;
pub mod filter;
pub mod knowledge;
pub mod letter_counts;
pub mod letter_set;
pub mod letters;
pub mod ranker;
pub mod reading_order;
pub mod solver;
pub mod soundness;
pub mod words;
