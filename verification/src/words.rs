//! Words and word lists.
//!
//! A word is a string of letters. The game is played on the first `WORD_LEN`
//! letters of a word; a string with fewer letters is no word of the game.

use vstd::prelude::*;
use vstd::string::*;

verus! {

/// The number of letters in a word of the game.
pub const WORD_LEN: usize = 5;

/// The letters of each word of a list, in the list's order.
pub open spec fn spellings(words: Seq<&str>) -> Seq<Seq<char>> {
    Seq::new(words.len(), |i: int| words[i]@)
}

/// Adding a word at the end of a list adds its letters at the end of the spellings.
pub proof fn lemma_spellings_push(words: Seq<&str>, word: &str)
    ensures
        spellings(words.push(word)) == spellings(words).push(word@),
{
    assert(spellings(words.push(word)) =~= spellings(words).push(word@));
}

/// The spellings of the first `n` words are the first `n` spellings.
pub proof fn lemma_spellings_take(words: Seq<&str>, n: int)
    requires
        0 <= n <= words.len(),
    ensures
        spellings(words.take(n)) == spellings(words).take(n),
{
    assert(spellings(words.take(n)) =~= spellings(words).take(n));
}

/// The first `WORD_LEN` letters of `word`, or `None` where it has fewer.
pub fn first_letters(word: &str) -> (letters: Option<[char; 5]>)
    ensures
        letters is Some <==> word@.len() >= WORD_LEN,
        letters matches Some(found) ==> found@ == word@.take(WORD_LEN as int),
{
    if word.unicode_len() < WORD_LEN {
        return None;
    }
    let found = [
        word.get_char(0),
        word.get_char(1),
        word.get_char(2),
        word.get_char(3),
        word.get_char(4),
    ];
    assert(found@ =~= word@.take(WORD_LEN as int));
    Some(found)
}

/// Whether two words are spelled alike.
pub fn same_word(left: &str, right: &str) -> (same: bool)
    ensures
        same == (left@ == right@),
{
    let len = left.unicode_len();
    if len != right.unicode_len() {
        return false;
    }
    let mut i: usize = 0;
    while i < len
        invariant
            i <= len,
            len == left@.len(),
            len == right@.len(),
            forall|k: int| 0 <= k < i ==> left@[k] == right@[k],
        decreases len - i,
    {
        if left.get_char(i) != right.get_char(i) {
            return false;
        }
        i += 1;
    }
    assert(left@ =~= right@);
    true
}

} // verus!
