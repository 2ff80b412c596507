//! The rounds of a game: guess, take in the verdicts, narrow the candidates.

use crate::error::SolverError;
use crate::feedback::{translate, verdicts, Verdict};
use crate::knowledge::{Knowledge, KnowledgeState};
use crate::ranker::{best_index, frequencies, pick_word};
use crate::soundness::{lemma_on_course_never_stuck, lemma_start_is_on_course};
use crate::words::{same_word, spellings, WORD_LEN};
use vstd::prelude::*;

verus! {

/// The number of rounds after which the solver gives up.
pub const MAX_ROUNDS: usize = 20;

/// How a game against a known hidden word ends, as mathematical data.
pub enum Ending {
    /// The guess of round `rounds` was the hidden word.
    Solved { guess: Seq<char>, rounds: nat },
    /// The hidden word was not found within `MAX_ROUNDS` rounds.
    Exhausted,
    /// No candidate was left to guess.
    Stuck,
}

/// The state of a game, as mathematical data.
pub struct Game {
    /// The words that are still possible, in the order of the word list.
    pub candidates: Seq<Seq<char>>,
    /// What the rounds played have told.
    pub knowledge: Knowledge,
    /// The number of rounds played.
    pub rounds: nat,
}

impl Game {
    /// The game before the first round: nothing is known, and the candidates
    /// are the words of the list that have `WORD_LEN` letters or more.
    pub open spec fn start(words: Seq<Seq<char>>) -> Game {
        Game {
            candidates: Knowledge::nothing().surviving(words),
            knowledge: Knowledge::nothing(),
            rounds: 0,
        }
    }

    /// The next guess: the first of the candidates with the greatest score by
    /// the letter frequencies of the candidates.
    pub open spec fn guess(self) -> Seq<char> {
        self.candidates[best_index(self.candidates, frequencies(self.candidates))]
    }

    /// The game after a round in which `guess` got `verdicts`: the verdicts
    /// are taken in, and the candidates that disagree with them leave.
    pub open spec fn after(self, guess: Seq<char>, verdicts: Seq<Verdict>) -> Game {
        let knowledge = self.knowledge.updated(verdicts, guess);
        Game {
            candidates: knowledge.surviving(self.candidates),
            knowledge,
            rounds: self.rounds + 1,
        }
    }

    /// How the game ends when it is played on against the hidden word
    /// `target`: each round guesses, stops if the guess is the hidden word,
    /// and else goes on with what the verdicts leave.
    pub open spec fn play(self, target: Seq<char>) -> Ending
        decreases MAX_ROUNDS - self.rounds,
    {
        if self.rounds >= MAX_ROUNDS {
            Ending::Exhausted
        } else if self.candidates.len() == 0 {
            Ending::Stuck
        } else if self.guess() == target {
            Ending::Solved { guess: self.guess(), rounds: self.rounds + 1 }
        } else {
            self.after(self.guess(), verdicts(self.guess(), target)).play(target)
        }
    }
}

/// How an automated game ended.
#[derive(Clone, Copy, Debug, PartialEq, Eq)]
pub enum Outcome<'a> {
    /// The guess of round `rounds` was the hidden word.
    Solved { guess: &'a str, rounds: usize },
    /// The hidden word was not found within `MAX_ROUNDS` rounds.
    Exhausted,
}

/// A game in progress: the candidates left, the knowledge gathered, and the
/// number of rounds played.
pub struct Solver<'a> {
    candidates: Vec<&'a str>,
    knowledge: KnowledgeState,
    rounds: usize,
}

impl<'a> View for Solver<'a> {
    type V = Game;

    closed spec fn view(&self) -> Game {
        Game {
            candidates: spellings(self.candidates@),
            knowledge: self.knowledge@,
            rounds: self.rounds as nat,
        }
    }
}

impl<'a> Solver<'a> {
    #[verifier::type_invariant]
    spec fn playable(self) -> bool {
        &&& self.rounds <= MAX_ROUNDS
        &&& forall|n: int|
            0 <= n < self.candidates@.len() ==> (#[trigger] self.candidates@[n])@.len() >= WORD_LEN
    }

    /// Starts a game on a word list. The words with fewer than `WORD_LEN`
    /// letters are left out.
    pub fn new(words: Vec<&'a str>) -> (solver: Self)
        ensures
            solver@ == Game::start(spellings(words@)),
    {
        let knowledge = KnowledgeState::new();
        let candidates = knowledge.filter(words);
        Solver { candidates, knowledge, rounds: 0 }
    }

    /// The number of rounds played.
    pub fn rounds_played(&self) -> (rounds: usize)
        ensures
            rounds == self@.rounds,
            rounds <= MAX_ROUNDS,
    {
        proof {
            use_type_invariant(self);
        }
        self.rounds
    }

    /// Whether the rounds have run out.
    pub fn is_exhausted(&self) -> (exhausted: bool)
        ensures
            exhausted == (self@.rounds >= MAX_ROUNDS),
    {
        self.rounds >= MAX_ROUNDS
    }

    /// The number of words that are still possible.
    pub fn candidate_count(&self) -> (count: usize)
        ensures
            count == self@.candidates.len(),
    {
        self.candidates.len()
    }

    /// The next guess, or `EmptyCandidateSet` where no word is left.
    pub fn next_guess(&self) -> (picked: Result<&'a str, SolverError>)
        ensures
            self@.candidates.len() == 0 <==> picked == Err::<&str, SolverError>(
                SolverError::EmptyCandidateSet,
            ),
            self@.candidates.len() > 0 <==> picked is Ok,
            picked matches Ok(word) ==> word@ == self@.guess() && word@.len() >= WORD_LEN,
    {
        proof {
            use_type_invariant(self);
        }
        pick_word(&self.candidates)
    }

    /// Plays a round: takes in the verdicts that `guess` got, and keeps the
    /// candidates that agree with them.
    pub fn record(self, guess: &str, verdicts: &[Verdict; 5]) -> (next: Self)
        requires
            guess@.len() >= WORD_LEN,
            self@.rounds < MAX_ROUNDS,
        ensures
            next@ == self@.after(guess@, verdicts@),
            next@.rounds == self@.rounds + 1,
            next@.candidates.len() <= self@.candidates.len(),
    {
        proof {
            use_type_invariant(&self);
        }
        let Solver { candidates, mut knowledge, rounds } = self;
        knowledge.apply(verdicts, guess);
        let candidates = knowledge.filter(candidates);
        Solver { candidates, knowledge, rounds: rounds + 1 }
    }
}

/// Plays a whole game against the known hidden word `target`.
///
/// Gives the winning guess and its round, `Exhausted` where `MAX_ROUNDS`
/// rounds did not find the word, and `EmptyCandidateSet` where the candidates
/// ran out. A winning guess is the hidden word, and a hidden word that is in
/// the list is never lost: the candidates run out only for a word that the
/// list does not hold.
pub fn solve<'a>(words: Vec<&'a str>, target: &str) -> (result: Result<Outcome<'a>, SolverError>)
    requires
        target@.len() >= WORD_LEN,
    ensures
        match Game::start(spellings(words@)).play(target@) {
            Ending::Solved { guess, rounds } => result matches Ok(
                Outcome::Solved { guess: found, rounds: taken },
            ) && found@ == guess && taken == rounds,
            Ending::Exhausted => result == Ok::<Outcome, SolverError>(Outcome::Exhausted),
            Ending::Stuck => result == Err::<Outcome, SolverError>(SolverError::EmptyCandidateSet),
        },
        result matches Ok(Outcome::Solved { guess, rounds }) ==> guess@ == target@ && 1 <= rounds
            <= MAX_ROUNDS,
        spellings(words@).contains(target@) ==> result is Ok,
{
    let ghost ending = Game::start(spellings(words@)).play(target@);
    proof {
        lemma_solved_on_target(Game::start(spellings(words@)), target@);
        if spellings(words@).contains(target@) {
            lemma_start_is_on_course(spellings(words@), target@);
            lemma_on_course_never_stuck(Game::start(spellings(words@)), target@);
        }
    }
    let mut solver = Solver::new(words);
    loop
        invariant
            target@.len() >= WORD_LEN,
            solver@.rounds <= MAX_ROUNDS,
            ending == Game::start(spellings(words@)).play(target@),
            solver@.play(target@) == ending,
            ending matches Ending::Solved { guess, rounds } ==> guess == target@ && 1 <= rounds
                <= MAX_ROUNDS,
            spellings(words@).contains(target@) ==> !(ending is Stuck),
        decreases MAX_ROUNDS - solver@.rounds,
    {
        if solver.is_exhausted() {
            return Ok(Outcome::Exhausted);
        }
        let guess = match solver.next_guess() {
            Ok(guess) => guess,
            Err(error) => {
                return Err(error);
            },
        };
        let rounds = solver.rounds_played();
        if same_word(guess, target) {
            return Ok(Outcome::Solved { guess, rounds: rounds + 1 });
        }
        let verdicts = translate(guess, target);
        solver = solver.record(guess, &verdicts);
    }
}

/// A game that is solved ends on the hidden word, within `MAX_ROUNDS` rounds.
pub proof fn lemma_solved_on_target(game: Game, target: Seq<char>)
    ensures
        game.play(target) matches Ending::Solved { guess, rounds } ==> guess == target
            && game.rounds < rounds <= MAX_ROUNDS,
    decreases MAX_ROUNDS - game.rounds,
{
    if game.rounds < MAX_ROUNDS && game.candidates.len() > 0 && game.guess() != target {
        lemma_solved_on_target(game.after(game.guess(), verdicts(game.guess(), target)), target);
    }
}

} // verus!
