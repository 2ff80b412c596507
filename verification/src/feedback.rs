//! The verdict on each letter of a guess, worked out against the hidden word
//! or read from a player's annotated text.

use crate::error::SolverError;
use crate::letters::{is_uppercase, to_uppercase, upper_of, uppercase};
use crate::words::{first_letters, WORD_LEN};
use vstd::prelude::*;
use vstd::string::*;

verus! {

/// What a round tells about one position of the guess.
#[derive(Clone, Copy, Debug, PartialEq, Eq, Structural)]
pub enum Verdict {
    /// The letter stands at this position of the hidden word.
    Correct(char),
    /// The letter is in the hidden word, but not at this position.
    Misplaced(char),
    /// The hidden word holds no further occurrence of the letter.
    Absent(char),
}

impl Verdict {
    /// The letter that the verdict is about.
    pub open spec fn letter(self) -> char {
        match self {
            Verdict::Correct(c) => c,
            Verdict::Misplaced(c) => c,
            Verdict::Absent(c) => c,
        }
    }
}

/// The character that marks an absent letter in annotated text.
pub const ABSENT_MARK: char = '.';

/// The blank, which marks an absent letter as well.
pub const BLANK: char = ' ';

/// The number of positions below `n` at which `here` holds `letter` and
/// `there` does not.
pub open spec fn unmatched(here: Seq<char>, there: Seq<char>, letter: char, n: int) -> nat
    decreases n,
{
    if n <= 0 {
        0
    } else if here[n - 1] == letter && there[n - 1] != letter {
        unmatched(here, there, letter, n - 1) + 1
    } else {
        unmatched(here, there, letter, n - 1)
    }
}

/// The number of positions below `n` at which `here` holds `letter`.
pub open spec fn occurrences(here: Seq<char>, letter: char, n: int) -> nat
    decreases n,
{
    if n <= 0 {
        0
    } else if here[n - 1] == letter {
        occurrences(here, letter, n - 1) + 1
    } else {
        occurrences(here, letter, n - 1)
    }
}

/// The verdict on position `i` of `guess` against `target`.
///
/// A letter in its place is correct. Any other letter is misplaced as long as
/// the target has an occurrence of it left to credit: one that the guess does
/// not match in place, and that no earlier position of the guess has taken.
pub open spec fn verdict_at(guess: Seq<char>, target: Seq<char>, i: int) -> Verdict {
    let letter = guess[i];
    if target[i] == letter {
        Verdict::Correct(letter)
    } else if unmatched(guess, target, letter, i) < unmatched(
        target,
        guess,
        letter,
        WORD_LEN as int,
    ) {
        Verdict::Misplaced(letter)
    } else {
        Verdict::Absent(letter)
    }
}

/// The verdicts on the `WORD_LEN` positions of `guess` against `target`.
pub open spec fn verdicts(guess: Seq<char>, target: Seq<char>) -> Seq<Verdict> {
    Seq::new(WORD_LEN as nat, |i: int| verdict_at(guess, target, i))
}

/// The count of unmatched positions depends on the letters below `n` only.
proof fn lemma_unmatched_agrees(
    here: Seq<char>,
    there: Seq<char>,
    here2: Seq<char>,
    there2: Seq<char>,
    letter: char,
    n: int,
)
    requires
        forall|j: int| 0 <= j < n ==> here[j] == here2[j] && there[j] == there2[j],
    ensures
        unmatched(here, there, letter, n) == unmatched(here2, there2, letter, n),
    decreases n,
{
    if n > 0 {
        lemma_unmatched_agrees(here, there, here2, there2, letter, n - 1);
    }
}

/// Counts the positions below `n` at which `here` holds `letter` and `there`
/// does not.
fn count_unmatched(here: &[char; 5], there: &[char; 5], letter: char, n: usize) -> (count: usize)
    requires
        n <= WORD_LEN,
    ensures
        count == unmatched(here@, there@, letter, n as int),
{
    let mut count: usize = 0;
    let mut j: usize = 0;
    while j < n
        invariant
            j <= n <= WORD_LEN,
            count <= j,
            count == unmatched(here@, there@, letter, j as int),
        decreases n - j,
    {
        if here[j] == letter && there[j] != letter {
            count += 1;
        }
        j += 1;
    }
    count
}

/// Works out the verdicts on a guess against the hidden word.
pub fn translate(guess: &str, ground_truth: &str) -> (result: [Verdict; 5])
    requires
        guess@.len() >= WORD_LEN,
        ground_truth@.len() >= WORD_LEN,
    ensures
        result@ == verdicts(guess@, ground_truth@),
{
    let tried = first_letters(guess).unwrap();
    let hidden = first_letters(ground_truth).unwrap();
    let mut result = [Verdict::Absent(tried[0]); 5];
    let mut i: usize = 0;
    while i < WORD_LEN
        invariant
            i <= WORD_LEN,
            guess@.len() >= WORD_LEN,
            ground_truth@.len() >= WORD_LEN,
            tried@ == guess@.take(WORD_LEN as int),
            hidden@ == ground_truth@.take(WORD_LEN as int),
            forall|k: int| 0 <= k < i ==> result@[k] == verdict_at(guess@, ground_truth@, k),
        decreases WORD_LEN - i,
    {
        let letter = tried[i];
        assert(letter == guess@[i as int]);
        assert(hidden[i as int] == ground_truth@[i as int]);
        let verdict = if hidden[i] == letter {
            Verdict::Correct(letter)
        } else {
            let taken = count_unmatched(&tried, &hidden, letter, i);
            let left = count_unmatched(&hidden, &tried, letter, WORD_LEN);
            proof {
                lemma_unmatched_agrees(tried@, hidden@, guess@, ground_truth@, letter, i as int);
                lemma_unmatched_agrees(
                    hidden@,
                    tried@,
                    ground_truth@,
                    guess@,
                    letter,
                    WORD_LEN as int,
                );
            }
            if taken < left {
                Verdict::Misplaced(letter)
            } else {
                Verdict::Absent(letter)
            }
        };
        result[i] = verdict;
        i += 1;
    }
    assert(result@ =~= verdicts(guess@, ground_truth@));
    result
}

/// What the character `mark`, typed at a position where the guess holds
/// `guessed`, says of that position: the marks of absence say that `guessed`
/// is absent, an upper-case character names a correct letter, and any other
/// character names, in lower case, a misplaced letter.
pub open spec fn decoded_mark(mark: char, guessed: char) -> Verdict {
    if mark == ABSENT_MARK || mark == BLANK {
        Verdict::Absent(guessed)
    } else if uppercase(mark) {
        Verdict::Correct(mark)
    } else {
        Verdict::Misplaced(upper_of(mark))
    }
}

/// The verdict that the annotated text `feedback` gives on position `i` of
/// `guess`: what its mark there says, and absence where the text has ended.
pub open spec fn decoded_at(guess: Seq<char>, feedback: Seq<char>, i: int) -> Verdict {
    if i < feedback.len() {
        decoded_mark(feedback[i], guess[i])
    } else {
        Verdict::Absent(guess[i])
    }
}

/// The verdicts that the annotated text `feedback` gives on `guess`.
pub open spec fn decoded(guess: Seq<char>, feedback: Seq<char>) -> Seq<Verdict> {
    Seq::new(WORD_LEN as nat, |i: int| decoded_at(guess, feedback, i))
}

/// Reads the verdicts on `guess` from a player's annotated text.
///
/// A text of more than `WORD_LEN` characters is refused.
pub fn decode_feedback(guess: &str, feedback: &str) -> (result: Result<[Verdict; 5], SolverError>)
    requires
        guess@.len() >= WORD_LEN,
    ensures
        feedback@.len() > WORD_LEN <==> result == Err::<[Verdict; 5], SolverError>(
            SolverError::InvalidFeedback,
        ),
        feedback@.len() <= WORD_LEN <==> result is Ok,
        result matches Ok(found) ==> found@ == decoded(guess@, feedback@),
{
    let marks = feedback.unicode_len();
    if marks > WORD_LEN {
        return Err(SolverError::InvalidFeedback);
    }
    let tried = first_letters(guess).unwrap();
    let mut found = [Verdict::Absent(tried[0]); 5];
    let mut i: usize = 0;
    while i < WORD_LEN
        invariant
            i <= WORD_LEN,
            marks == feedback@.len(),
            marks <= WORD_LEN,
            guess@.len() >= WORD_LEN,
            tried@ == guess@.take(WORD_LEN as int),
            forall|k: int| 0 <= k < i ==> found@[k] == decoded_at(guess@, feedback@, k),
        decreases WORD_LEN - i,
    {
        assert(tried[i as int] == guess@[i as int]);
        let verdict = if i < marks {
            let mark = feedback.get_char(i);
            if mark == ABSENT_MARK || mark == BLANK {
                Verdict::Absent(tried[i])
            } else if is_uppercase(mark) {
                Verdict::Correct(mark)
            } else {
                Verdict::Misplaced(to_uppercase(mark))
            }
        } else {
            Verdict::Absent(tried[i])
        };
        found[i] = verdict;
        i += 1;
    }
    assert(found@ =~= decoded(guess@, feedback@));
    Ok(found)
}

/// The number of positions below `n` at which `given` credits `letter`, as
/// correct or as misplaced.
pub open spec fn credited(given: Seq<Verdict>, letter: char, n: int) -> nat
    decreases n,
{
    if n <= 0 {
        0
    } else if given[n - 1] == Verdict::Correct(letter) || given[n - 1] == Verdict::Misplaced(
        letter,
    ) {
        credited(given, letter, n - 1) + 1
    } else {
        credited(given, letter, n - 1)
    }
}

/// The number of positions below `n` at which both words hold `letter`.
spec fn matched(guess: Seq<char>, target: Seq<char>, letter: char, n: int) -> nat
    decreases n,
{
    if n <= 0 {
        0
    } else if guess[n - 1] == letter && target[n - 1] == letter {
        matched(guess, target, letter, n - 1) + 1
    } else {
        matched(guess, target, letter, n - 1)
    }
}

/// The smaller of two numbers.
spec fn lesser(a: nat, b: nat) -> nat {
    if a < b {
        a
    } else {
        b
    }
}

/// Below `n`, a letter is credited where it is matched in place, and at
/// unmatched positions of the guess as far as the target's unmatched
/// occurrences reach.
proof fn lemma_credited_below(guess: Seq<char>, target: Seq<char>, letter: char, n: int)
    requires
        0 <= n <= WORD_LEN,
    ensures
        credited(verdicts(guess, target), letter, n) == matched(guess, target, letter, n) + lesser(
            unmatched(guess, target, letter, n),
            unmatched(target, guess, letter, WORD_LEN as int),
        ),
    decreases n,
{
    if n > 0 {
        lemma_credited_below(guess, target, letter, n - 1);
        assert(verdicts(guess, target)[n - 1] == verdict_at(guess, target, n - 1));
    }
}

/// The occurrences of a letter in the target are those that the guess matches
/// in place and those that it does not.
proof fn lemma_occurrences_split(guess: Seq<char>, target: Seq<char>, letter: char, n: int)
    ensures
        occurrences(target, letter, n) == matched(guess, target, letter, n) + unmatched(
            target,
            guess,
            letter,
            n,
        ),
    decreases n,
{
    if n > 0 {
        lemma_occurrences_split(guess, target, letter, n - 1);
    }
}

/// A letter is credited, as correct or as misplaced, at most as many times as
/// the hidden word holds it.
pub proof fn lemma_credit_is_bounded(guess: Seq<char>, target: Seq<char>, letter: char)
    ensures
        credited(verdicts(guess, target), letter, WORD_LEN as int) <= occurrences(
            target,
            letter,
            WORD_LEN as int,
        ),
{
    lemma_credited_below(guess, target, letter, WORD_LEN as int);
    lemma_occurrences_split(guess, target, letter, WORD_LEN as int);
}

/// A guess that is the hidden word gets the verdict "correct" at every
/// position.
pub proof fn lemma_own_word_all_correct(word: Seq<char>)
    ensures
        forall|i: int|
            0 <= i < WORD_LEN ==> #[trigger] verdicts(word, word)[i] == Verdict::Correct(word[i]),
{
}

} // verus!
