//! The candidate filter: which words of a list are still possible.

use crate::knowledge::{Knowledge, KnowledgeState};
use crate::letter_set::LetterSet;
use crate::words::{spellings, WORD_LEN};
use vstd::prelude::*;

verus! {

/// The character that stands in a list of known letters where none is known.
pub const UNKNOWN: char = ' ';

/// What a list of known letters confirms: at each position its letter, and
/// nothing where it holds `UNKNOWN`.
pub open spec fn known_slots(known_letters: Seq<char>) -> Seq<Option<char>> {
    Seq::new(
        WORD_LEN as nat,
        |i: int|
            if known_letters[i] == UNKNOWN {
                None
            } else {
                Some(known_letters[i])
            },
    )
}

/// The sets of letters that `sets` holds, position by position.
pub open spec fn position_sets(sets: [LetterSet; 5]) -> Seq<Set<char>> {
    Seq::new(WORD_LEN as nat, |j: int| sets[j]@)
}

/// The knowledge made of the letters known in their places, the letters known
/// to be absent, and the letters known to be out of place at each position.
pub open spec fn knowledge_of(
    known_letters: Seq<char>,
    known_wrong_letters: Set<char>,
    known_wrong_locations: Seq<Set<char>>,
) -> Knowledge {
    Knowledge {
        confirmed: known_slots(known_letters),
        excluded_global: known_wrong_letters,
        excluded_at_position: known_wrong_locations,
    }
}

/// Filtering twice by one predicate is filtering once.
proof fn lemma_filter_twice<A>(list: Seq<A>, keep: spec_fn(A) -> bool)
    ensures
        list.filter(keep).filter(keep) == list.filter(keep),
    decreases list.len(),
{
    reveal(Seq::filter);
    if list.len() > 0 {
        let front = list.drop_last();
        lemma_filter_twice(front, keep);
        if keep(list.last()) {
            front.filter(keep).lemma_filter_push(list.last(), keep);
        }
    }
}

/// Filtering is idempotent: the words that survive all survive a second
/// filtering by the same knowledge, in the same order.
pub proof fn lemma_filter_idempotent(knowledge: Knowledge, words: Seq<Seq<char>>)
    ensures
        knowledge.surviving(knowledge.surviving(words)) == knowledge.surviving(words),
{
    lemma_filter_twice(words, |word: Seq<char>| knowledge.fits(word));
}

/// Filtering never grows the list.
pub proof fn lemma_filter_never_grows(knowledge: Knowledge, words: Seq<Seq<char>>)
    ensures
        knowledge.surviving(words).len() <= words.len(),
{
    words.lemma_filter_len(|word: Seq<char>| knowledge.fits(word));
}

/// Every surviving word agrees with the knowledge and comes from the list.
pub proof fn lemma_survivors_fit(knowledge: Knowledge, words: Seq<Seq<char>>, n: int)
    requires
        0 <= n < knowledge.surviving(words).len(),
    ensures
        knowledge.fits(knowledge.surviving(words)[n]),
        words.contains(knowledge.surviving(words)[n]),
{
    let keep = |word: Seq<char>| knowledge.fits(word);
    words.lemma_filter_pred(keep, n);
    let survivor = words.filter(keep)[n];
    assert(words.filter(keep).contains(survivor));
    words.lemma_filter_contains_rev(keep, survivor);
}

/// Every word of the list that agrees with the knowledge survives.
pub proof fn lemma_fitting_words_survive(knowledge: Knowledge, words: Seq<Seq<char>>, n: int)
    requires
        0 <= n < words.len(),
        knowledge.fits(words[n]),
    ensures
        knowledge.surviving(words).contains(words[n]),
{
    words.lemma_filter_contains(|word: Seq<char>| knowledge.fits(word), n);
}

/// Where a letter is confirmed at a position, every surviving word holds that
/// letter at that position.
pub proof fn lemma_survivors_hold_confirmed(
    knowledge: Knowledge,
    words: Seq<Seq<char>>,
    n: int,
    i: int,
    letter: char,
)
    requires
        0 <= n < knowledge.surviving(words).len(),
        0 <= i < WORD_LEN,
        knowledge.confirmed[i] == Some(letter),
    ensures
        knowledge.surviving(words)[n][i] == letter,
{
    lemma_survivors_fit(knowledge, words, n);
    assert(knowledge.slot_fits(knowledge.surviving(words)[n], i));
}

impl KnowledgeState {
    /// The state made of the letters known in their places, with `UNKNOWN`
    /// where none is known, the letters known to be absent, and the letters
    /// known to be out of place at each position.
    pub fn from_known(
        known_letters: [char; 5],
        known_wrong_letters: LetterSet,
        known_wrong_locations: [LetterSet; 5],
    ) -> (state: Self)
        ensures
            state@ == knowledge_of(
                known_letters@,
                known_wrong_letters@,
                position_sets(known_wrong_locations),
            ),
    {
        let mut confirmed: [Option<char>; 5] = [None; 5];
        let mut i: usize = 0;
        while i < WORD_LEN
            invariant
                i <= WORD_LEN,
                forall|k: int| 0 <= k < i ==> confirmed@[k] == known_slots(known_letters@)[k],
                forall|k: int| i <= k < WORD_LEN ==> confirmed@[k] is None,
            decreases WORD_LEN - i,
        {
            if known_letters[i] != UNKNOWN {
                confirmed[i] = Some(known_letters[i]);
            }
            i += 1;
        }
        let state = KnowledgeState {
            confirmed,
            excluded_global: known_wrong_letters,
            excluded_at_position: known_wrong_locations,
        };
        assert(state@.confirmed =~= known_slots(known_letters@));
        assert(state@.excluded_at_position =~= position_sets(known_wrong_locations));
        state
    }
}

/// Filters words by removing any word that does not agree with what is known.
///
/// The words kept stand in their order. The list never grows, and every word
/// kept holds each known letter at its position.
pub fn filter_words<'a>(
    words: Vec<&'a str>,
    known_letters: [char; 5],
    known_wrong_letters: LetterSet,
    known_wrong_locations: [LetterSet; 5],
) -> (kept: Vec<&'a str>)
    ensures
        spellings(kept@) == knowledge_of(
            known_letters@,
            known_wrong_letters@,
            position_sets(known_wrong_locations),
        ).surviving(spellings(words@)),
        kept@.len() <= words@.len(),
        forall|n: int, i: int|
            0 <= n < kept@.len() && 0 <= i < WORD_LEN && known_letters[i] != UNKNOWN
                ==> #[trigger] kept@[n]@[i] == known_letters[i],
{
    let state = KnowledgeState::from_known(
        known_letters,
        known_wrong_letters,
        known_wrong_locations,
    );
    state.filter(words)
}

} // verus!
