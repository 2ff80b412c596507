//! Why the solver never loses the hidden word: knowledge gathered from
//! verdicts worked out against a word is true of that word, and a word agrees
//! with all that is true of it.

use crate::feedback::{unmatched, verdict_at, verdicts, Verdict};
use crate::filter::lemma_fitting_words_survive;
use crate::knowledge::{
    confirmed_below, credited_elsewhere, lemma_updated_consistent, misplaced_at, rules_out,
    ruled_out_below, Knowledge,
};
use crate::solver::{Game, MAX_ROUNDS};
use crate::words::WORD_LEN;
use vstd::prelude::*;

verus! {

/// Whether `word` holds `letter` at one of its first `WORD_LEN` positions.
pub open spec fn occurs(word: Seq<char>, letter: char) -> bool {
    exists|p: int| 0 <= p < WORD_LEN && word[p] == letter
}

/// Whether the knowledge is true of `target`: each confirmed letter stands at
/// its position, no globally excluded letter is in the word, and each letter
/// excluded at a position is in the word but not at that position.
pub open spec fn true_of(knowledge: Knowledge, target: Seq<char>) -> bool {
    &&& knowledge.shaped()
    &&& knowledge.consistent()
    &&& forall|i: int|
        0 <= i < WORD_LEN ==> (#[trigger] knowledge.confirmed[i] matches Some(c) ==> target[i]
            == c)
    &&& forall|c: char| #[trigger] knowledge.excluded_global.contains(c) ==> !occurs(target, c)
    &&& forall|j: int, c: char|
        0 <= j < WORD_LEN && #[trigger] knowledge.excluded_at_position[j].contains(c)
            ==> target[j] != c && occurs(target, c)
}

/// Where some position below `n` is unmatched, the first such position has no
/// unmatched position before it.
proof fn lemma_first_unmatched(here: Seq<char>, there: Seq<char>, letter: char, n: int)
    requires
        unmatched(here, there, letter, n) > 0,
    ensures
        exists|k: int|
            0 <= k < n && here[k] == letter && there[k] != letter && #[trigger] unmatched(
                here,
                there,
                letter,
                k,
            ) == 0,
    decreases n,
{
    if n > 0 {
        if unmatched(here, there, letter, n - 1) > 0 {
            lemma_first_unmatched(here, there, letter, n - 1);
            let k = choose|k: int|
                0 <= k < n - 1 && here[k] == letter && there[k] != letter && #[trigger] unmatched(
                    here,
                    there,
                    letter,
                    k,
                ) == 0;
            assert(0 <= k < n && unmatched(here, there, letter, k) == 0);
        } else {
            assert(unmatched(here, there, letter, n - 1) == 0);
        }
    }
}

/// An unmatched position below `n` is counted.
proof fn lemma_unmatched_counted(here: Seq<char>, there: Seq<char>, letter: char, n: int, p: int)
    requires
        0 <= p < n,
        here[p] == letter,
        there[p] != letter,
    ensures
        unmatched(here, there, letter, n) > 0,
    decreases n,
{
    if p < n - 1 {
        lemma_unmatched_counted(here, there, letter, n - 1, p);
    }
}

/// A letter that the verdicts against `target` call misplaced is in `target`,
/// and not where it was guessed.
proof fn lemma_misplaced_is_present(guess: Seq<char>, target: Seq<char>, j: int, letter: char)
    requires
        0 <= j < WORD_LEN,
        verdicts(guess, target)[j] == Verdict::Misplaced(letter),
    ensures
        target[j] != letter,
        occurs(target, letter),
{
    assert(verdict_at(guess, target, j) == Verdict::Misplaced(letter));
    lemma_first_unmatched(target, guess, letter, WORD_LEN as int);
}

/// A letter that the verdicts against `target` rule out is not in `target`.
proof fn lemma_ruled_out_is_absent(guess: Seq<char>, target: Seq<char>, i: int)
    requires
        0 <= i < WORD_LEN,
        rules_out(verdicts(guess, target), i),
    ensures
        !occurs(target, guess[i]),
{
    let given = verdicts(guess, target);
    let letter = guess[i];
    assert(given[i] == verdict_at(guess, target, i));
    assert(given[i].letter() == letter);
    if occurs(target, letter) {
        let p = choose|p: int| 0 <= p < WORD_LEN && target[p] == letter;
        if guess[p] == letter {
            assert(given[p] == verdict_at(guess, target, p));
            assert(given[p] == Verdict::Correct(letter));
            assert(credited_elsewhere(given, letter, i));
        } else {
            lemma_unmatched_counted(target, guess, letter, WORD_LEN as int, p);
            assert(unmatched(guess, target, letter, i) > 0);
            lemma_first_unmatched(guess, target, letter, i);
            let k = choose|k: int|
                0 <= k < i && guess[k] == letter && target[k] != letter && #[trigger] unmatched(
                    guess,
                    target,
                    letter,
                    k,
                ) == 0;
            assert(given[k] == verdict_at(guess, target, k));
            assert(given[k] == Verdict::Misplaced(letter));
            assert(credited_elsewhere(given, letter, i));
        }
    }
}

/// Before the first round, the knowledge is true of every word.
pub proof fn lemma_nothing_is_true(target: Seq<char>)
    ensures
        true_of(Knowledge::nothing(), target),
{
    let nothing = Knowledge::nothing();
    assert forall|c: char| nothing.confirmed_letters().contains(c) implies !#[trigger]
        nothing.misplaced_letters().contains(c) by {
        if nothing.misplaced_letters().contains(c) {
            let j = choose|j: int|
                0 <= j < WORD_LEN && nothing.excluded_at_position[j].contains(c);
            assert(false);
        }
    }
}

/// Knowledge that is true of the hidden word stays true of it when the
/// verdicts on any guess against that word are taken in.
pub proof fn lemma_truth_is_kept(knowledge: Knowledge, guess: Seq<char>, target: Seq<char>)
    requires
        true_of(knowledge, target),
    ensures
        true_of(knowledge.updated(verdicts(guess, target), guess), target),
{
    let given = verdicts(guess, target);
    let after = knowledge.updated(given, guess);
    lemma_updated_consistent(knowledge, given, guess);
    assert forall|i: int| 0 <= i < WORD_LEN implies (#[trigger] after.confirmed[i] matches Some(
        c,
    ) ==> target[i] == c) by {
        assert(given[i] == verdict_at(guess, target, i));
        if !(given[i] is Correct) {
            assert(after.confirmed[i] == knowledge.confirmed[i]);
        }
    }
    assert forall|c: char| #[trigger] after.excluded_global.contains(c) implies !occurs(
        target,
        c,
    ) by {
        if !knowledge.excluded_global.contains(c) {
            assert(ruled_out_below(given, guess, WORD_LEN as int).contains(c));
            let i = choose|i: int| 0 <= i < WORD_LEN && rules_out(given, i) && guess[i] == c;
            lemma_ruled_out_is_absent(guess, target, i);
        }
    }
    assert forall|j: int, c: char|
        0 <= j < WORD_LEN && #[trigger] after.excluded_at_position[j].contains(c) implies target[j]
        != c && occurs(target, c) by {
        if knowledge.excluded_at_position[j].contains(c) {
        } else {
            assert(misplaced_at(given, j).contains(c));
            lemma_misplaced_is_present(guess, target, j, c);
        }
    }
}

/// A word agrees with all knowledge that is true of it.
pub proof fn lemma_true_knowledge_fits(knowledge: Knowledge, target: Seq<char>)
    requires
        target.len() >= WORD_LEN,
        true_of(knowledge, target),
    ensures
        knowledge.fits(target),
{
    assert forall|i: int| 0 <= i < WORD_LEN implies knowledge.slot_fits(target, i) by {
        match knowledge.confirmed[i] {
            Some(c) => {},
            None => {
                if knowledge.excluded_at_position[i].contains(target[i]) {
                    assert(false);
                }
                if knowledge.excluded_global.contains(target[i]) {
                    assert(occurs(target, target[i]));
                    assert(false);
                }
            },
        }
    }
    assert forall|c: char| knowledge.misplaced_letters().contains(c) implies knowledge.placed(
        target,
        c,
    ) by {
        let j = choose|j: int| 0 <= j < WORD_LEN && knowledge.excluded_at_position[j].contains(c);
        assert(occurs(target, c));
        let p = choose|p: int| 0 <= p < WORD_LEN && target[p] == c;
        if knowledge.confirmed[p] is Some {
            let held = knowledge.confirmed[p]->0;
            assert(knowledge.confirmed[p] == Some(held));
            assert(held == c);
            assert(confirmed_below(knowledge.confirmed, WORD_LEN as int).contains(c));
            assert(knowledge.confirmed_letters().contains(c));
            assert(false);
        }
        if knowledge.excluded_at_position[p].contains(c) {
            assert(false);
        }
        assert(knowledge.free_place(target, c, p));
    }
}

/// Whether a game against `target` is on course: its knowledge is true of
/// `target`, and `target` is still a candidate.
pub open spec fn on_course(game: Game, target: Seq<char>) -> bool {
    &&& true_of(game.knowledge, target)
    &&& game.candidates.contains(target)
}

/// A game on a list that holds the hidden word starts on course.
pub proof fn lemma_start_is_on_course(words: Seq<Seq<char>>, target: Seq<char>)
    requires
        target.len() >= WORD_LEN,
        words.contains(target),
    ensures
        on_course(Game::start(words), target),
{
    lemma_nothing_is_true(target);
    lemma_true_knowledge_fits(Knowledge::nothing(), target);
    let n = choose|n: int| 0 <= n < words.len() && words[n] == target;
    lemma_fitting_words_survive(Knowledge::nothing(), words, n);
}

/// A round with the verdicts against the hidden word keeps a game on course:
/// the hidden word is never filtered out.
pub proof fn lemma_round_stays_on_course(game: Game, guess: Seq<char>, target: Seq<char>)
    requires
        target.len() >= WORD_LEN,
        on_course(game, target),
    ensures
        on_course(game.after(guess, verdicts(guess, target)), target),
{
    let next = game.after(guess, verdicts(guess, target));
    lemma_truth_is_kept(game.knowledge, guess, target);
    lemma_true_knowledge_fits(next.knowledge, target);
    let n = choose|n: int| 0 <= n < game.candidates.len() && game.candidates[n] == target;
    lemma_fitting_words_survive(next.knowledge, game.candidates, n);
}

/// A game that is on course never runs out of candidates: it ends with the
/// hidden word found, or with the rounds used up.
pub proof fn lemma_on_course_never_stuck(game: Game, target: Seq<char>)
    requires
        target.len() >= WORD_LEN,
        on_course(game, target),
    ensures
        !(game.play(target) is Stuck),
    decreases MAX_ROUNDS - game.rounds,
{
    if game.rounds < MAX_ROUNDS && game.guess() != target {
        let n = choose|n: int| 0 <= n < game.candidates.len() && game.candidates[n] == target;
        lemma_round_stays_on_course(game, game.guess(), target);
        lemma_on_course_never_stuck(
            game.after(game.guess(), verdicts(game.guess(), target)),
            target,
        );
    }
}

} // verus!
