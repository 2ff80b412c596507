//! The guess ranker: letter frequencies by position, the score of a word, and
//! the choice of the next guess.

use crate::error::SolverError;
use crate::letter_counts::{tally, LetterCounts};
use crate::words::{lemma_spellings_take, spellings, WORD_LEN};
use vstd::prelude::*;
use vstd::string::*;

verus! {

/// Whether `word` holds `letter` at position `pos`.
pub open spec fn holds_at(word: Seq<char>, pos: int, letter: char) -> bool {
    0 <= pos < word.len() && word[pos] == letter
}

/// The number of words of `words` that hold `letter` at position `pos`.
pub open spec fn letter_count(words: Seq<Seq<char>>, pos: int, letter: char) -> nat
    decreases words.len(),
{
    if words.len() == 0 {
        0
    } else if holds_at(words.last(), pos, letter) {
        letter_count(words.drop_last(), pos, letter) + 1
    } else {
        letter_count(words.drop_last(), pos, letter)
    }
}

/// The letters that stand at position `pos` of some word of `words`, each with
/// the number of words that hold it there.
pub open spec fn position_frequencies(words: Seq<Seq<char>>, pos: int) -> Map<char, nat> {
    Map::new(
        |c: char| letter_count(words, pos, c) > 0,
        |c: char| letter_count(words, pos, c),
    )
}

/// The letter frequencies of `words` at each of the first `WORD_LEN` positions.
pub open spec fn frequencies(words: Seq<Seq<char>>) -> Seq<Map<char, nat>> {
    Seq::new(WORD_LEN as nat, |pos: int| position_frequencies(words, pos))
}

/// No letter is counted more often than there are words.
pub proof fn lemma_letter_count_bounded(words: Seq<Seq<char>>, pos: int, letter: char)
    ensures
        letter_count(words, pos, letter) <= words.len(),
    decreases words.len(),
{
    if words.len() > 0 {
        lemma_letter_count_bounded(words.drop_last(), pos, letter);
    }
}

/// The number of positions of `word` that are scored: all of them, up to
/// `WORD_LEN`.
pub open spec fn scored_len(word: Seq<char>) -> int {
    if word.len() < WORD_LEN {
        word.len() as int
    } else {
        WORD_LEN as int
    }
}

/// Whether the letter at position `i` of `word` occurs at no earlier position.
pub open spec fn first_occurrence(word: Seq<char>, i: int) -> bool {
    forall|j: int| 0 <= j < i ==> word[j] != word[i]
}

/// What position `i` of `word` adds to its score: the frequency of its letter
/// at that position where the letter occurs for the first time, and nothing
/// where it is a repetition.
pub open spec fn position_score(word: Seq<char>, frequency: Seq<Map<char, nat>>, i: int) -> nat {
    if first_occurrence(word, i) {
        tally(frequency[i], word[i])
    } else {
        0
    }
}

/// What the positions below `n` of `word` add to its score.
pub open spec fn score_below(word: Seq<char>, frequency: Seq<Map<char, nat>>, n: int) -> nat
    decreases n,
{
    if n <= 0 {
        0
    } else {
        score_below(word, frequency, n - 1) + position_score(word, frequency, n - 1)
    }
}

/// The score of `word`: the sum, over its scored positions, of the frequency
/// of the letter at that position, each distinct letter counting once.
pub open spec fn score(word: Seq<char>, frequency: Seq<Map<char, nat>>) -> nat {
    score_below(word, frequency, scored_len(word))
}

/// Whether `words[k]` is the first word of `words` with the greatest score.
pub open spec fn is_best(words: Seq<Seq<char>>, frequency: Seq<Map<char, nat>>, k: int) -> bool {
    &&& 0 <= k < words.len()
    &&& forall|j: int|
        0 <= j < words.len() ==> score(#[trigger] words[j], frequency) <= score(
            words[k],
            frequency,
        )
    &&& forall|j: int|
        0 <= j < k ==> score(#[trigger] words[j], frequency) < score(words[k], frequency)
}

/// The index of the first word of `words` with the greatest score.
pub open spec fn best_index(words: Seq<Seq<char>>, frequency: Seq<Map<char, nat>>) -> int {
    choose|k: int| is_best(words, frequency, k)
}

/// There is one first word with the greatest score, and no other.
pub proof fn lemma_best_is_unique(words: Seq<Seq<char>>, frequency: Seq<Map<char, nat>>, k: int)
    requires
        is_best(words, frequency, k),
    ensures
        best_index(words, frequency) == k,
{
    let other = best_index(words, frequency);
    assert(is_best(words, frequency, other));
    if other < k {
        assert(score(words[other], frequency) < score(words[k], frequency));
        assert(score(words[k], frequency) <= score(words[other], frequency));
    } else if k < other {
        assert(score(words[k], frequency) < score(words[other], frequency));
        assert(score(words[other], frequency) <= score(words[k], frequency));
    }
}

/// The letter frequencies of a word list, position by position.
pub struct FrequencyMap {
    /// For each position, the count of each letter that stands there.
    pub tables: [LetterCounts; 5],
}

impl View for FrequencyMap {
    type V = Seq<Map<char, nat>>;

    open spec fn view(&self) -> Seq<Map<char, nat>> {
        Seq::new(WORD_LEN as nat, |pos: int| self.tables[pos]@)
    }
}

impl FrequencyMap {
    /// How many words hold `letter` at position `pos`.
    pub fn count(&self, pos: usize, letter: char) -> (count: usize)
        requires
            pos < WORD_LEN,
        ensures
            count == tally(self@[pos as int], letter),
    {
        self.tables[pos].get(letter)
    }
}

/// Counts the letters that stand at position `pos` of the words.
fn count_position(words: &Vec<&str>, pos: usize) -> (table: LetterCounts)
    ensures
        table@ == position_frequencies(spellings(words@), pos as int),
{
    let mut table = LetterCounts::new();
    let mut n: usize = 0;
    proof {
        assert(table@ =~= position_frequencies(spellings(words@.take(0)), pos as int));
    }
    while n < words.len()
        invariant
            n <= words.len(),
            table@ == position_frequencies(spellings(words@.take(n as int)), pos as int),
        decreases words.len() - n,
    {
        let word = words[n];
        let ghost seen = spellings(words@.take(n as int));
        let ghost more = spellings(words@.take(n + 1));
        proof {
            lemma_spellings_take(words@, n as int);
            lemma_spellings_take(words@, n + 1);
            assert(more.drop_last() =~= seen);
            assert(more.last() == word@);
        }
        if pos < word.unicode_len() {
            let letter = word.get_char(pos);
            proof {
                lemma_letter_count_bounded(seen, pos as int, letter);
            }
            table.add_one(letter);
            assert(table@ =~= position_frequencies(more, pos as int));
        } else {
            assert(table@ =~= position_frequencies(more, pos as int));
        }
        n += 1;
    }
    assert(words@.take(words.len() as int) =~= words@);
    table
}

/// Finds the total count of each letter in each place.
pub fn create_frequency_map(words: &Vec<&str>) -> (frequency_map: FrequencyMap)
    ensures
        frequency_map@ == frequencies(spellings(words@)),
{
    let frequency_map = FrequencyMap {
        tables: [
            count_position(words, 0),
            count_position(words, 1),
            count_position(words, 2),
            count_position(words, 3),
            count_position(words, 4),
        ],
    };
    assert(frequency_map@ =~= frequencies(spellings(words@)));
    frequency_map
}

/// Whether the letter at position `i` of `word` occurs at no earlier position.
fn is_first_occurrence(word: &str, i: usize) -> (first: bool)
    requires
        i < word@.len(),
    ensures
        first == first_occurrence(word@, i as int),
{
    let letter = word.get_char(i);
    let mut j: usize = 0;
    while j < i
        invariant
            j <= i < word@.len(),
            letter == word@[i as int],
            forall|k: int| 0 <= k < j ==> word@[k] != letter,
        decreases i - j,
    {
        if word.get_char(j) == letter {
            return false;
        }
        j += 1;
    }
    true
}

/// Scores a word by the frequency of its letters in their places; a letter
/// that the word repeats counts at its first occurrence only.
pub fn get_word_score(word: &str, frequency_map: &FrequencyMap) -> (total: u128)
    ensures
        total == score(word@, frequency_map@),
{
    let len = word.unicode_len();
    let scored = if len < WORD_LEN {
        len
    } else {
        WORD_LEN
    };
    let mut total: u128 = 0;
    let mut i: usize = 0;
    while i < scored
        invariant
            i <= scored <= WORD_LEN,
            scored == scored_len(word@),
            total == score_below(word@, frequency_map@, i as int),
            total <= i * usize::MAX,
        decreases scored - i,
    {
        if is_first_occurrence(word, i) {
            let count = frequency_map.count(i, word.get_char(i));
            assert((i + 1) * usize::MAX == i * usize::MAX + usize::MAX) by (nonlinear_arith);
            assert(i * usize::MAX + usize::MAX <= 5 * usize::MAX) by (nonlinear_arith)
                requires
                    i < 5,
            ;
            total = total + count as u128;
        } else {
            assert(i * usize::MAX <= (i + 1) * usize::MAX) by (nonlinear_arith);
        }
        i += 1;
    }
    total
}

/// Picks the first of the words with the greatest score by `frequency_map`.
///
/// An empty list has no best word.
pub fn pick_best<'a>(words: &Vec<&'a str>, frequency_map: &FrequencyMap) -> (picked: Result<
    &'a str,
    SolverError,
>)
    ensures
        words@.len() == 0 <==> picked == Err::<&str, SolverError>(SolverError::EmptyCandidateSet),
        words@.len() > 0 <==> picked is Ok,
        picked matches Ok(word) ==> {
            &&& is_best(
                spellings(words@),
                frequency_map@,
                best_index(spellings(words@), frequency_map@),
            )
            &&& word == words@[best_index(spellings(words@), frequency_map@)]
        },
{
    if words.len() == 0 {
        return Err(SolverError::EmptyCandidateSet);
    }
    let ghost list = spellings(words@);
    let mut best: usize = 0;
    let mut best_score: u128 = get_word_score(words[0], frequency_map);
    let mut n: usize = 1;
    while n < words.len()
        invariant
            1 <= n <= words.len(),
            list == spellings(words@),
            best < n,
            best_score == score(list[best as int], frequency_map@),
            forall|j: int|
                0 <= j < n ==> score(#[trigger] list[j], frequency_map@) <= best_score,
            forall|j: int|
                0 <= j < best ==> score(#[trigger] list[j], frequency_map@) < best_score,
        decreases words.len() - n,
    {
        let new_score = get_word_score(words[n], frequency_map);
        assert(list[n as int] == words@[n as int]@);
        if new_score > best_score {
            best = n;
            best_score = new_score;
        }
        n += 1;
    }
    proof {
        assert(is_best(list, frequency_map@, best as int));
        lemma_best_is_unique(list, frequency_map@, best as int);
    }
    Ok(words[best])
}

/// Picks the best word: the first of those with the greatest score by the
/// letter frequencies of the list itself.
pub fn pick_word<'a>(words: &Vec<&'a str>) -> (picked: Result<&'a str, SolverError>)
    ensures
        words@.len() == 0 <==> picked == Err::<&str, SolverError>(SolverError::EmptyCandidateSet),
        words@.len() > 0 <==> picked is Ok,
        picked matches Ok(word) ==> {
            let list = spellings(words@);
            &&& is_best(list, frequencies(list), best_index(list, frequencies(list)))
            &&& word == words@[best_index(list, frequencies(list))]
        },
{
    let frequency_map = create_frequency_map(words);
    pick_best(words, &frequency_map)
}

} // verus!
