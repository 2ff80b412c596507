//! What the rounds played so far have told about the hidden word, and which
//! words agree with it.

use crate::feedback::Verdict;
use crate::letter_set::LetterSet;
use crate::words::{first_letters, lemma_spellings_push, spellings, WORD_LEN};
use vstd::prelude::*;

verus! {

/// Whether `verdicts` credits `letter`, as correct or as misplaced, at a
/// position other than `i`.
pub open spec fn credited_elsewhere(verdicts: Seq<Verdict>, letter: char, i: int) -> bool {
    exists|k: int|
        0 <= k < WORD_LEN && k != i && (#[trigger] verdicts[k] == Verdict::Correct(letter)
            || verdicts[k] == Verdict::Misplaced(letter))
}

/// Whether the verdict at position `i` calls the letter guessed there absent
/// from the whole word: it says "absent", and no other position credits the
/// letter.
pub open spec fn rules_out(verdicts: Seq<Verdict>, i: int) -> bool {
    &&& verdicts[i] is Absent
    &&& !credited_elsewhere(verdicts, verdicts[i].letter(), i)
}

/// The letters that `verdicts` rules out at a position below `n` of `guess`.
pub open spec fn ruled_out_below(verdicts: Seq<Verdict>, guess: Seq<char>, n: int) -> Set<char> {
    Set::new(|c: char| exists|i: int| 0 <= i < n && rules_out(verdicts, i) && guess[i] == c)
}

/// The letters that `verdicts` calls misplaced at position `j`.
pub open spec fn misplaced_at(verdicts: Seq<Verdict>, j: int) -> Set<char> {
    Set::new(|c: char| verdicts[j] == Verdict::Misplaced(c))
}

/// The letters that `confirmed` holds at a position below `n`.
pub open spec fn confirmed_below(confirmed: Seq<Option<char>>, n: int) -> Set<char> {
    Set::new(|c: char| exists|i: int| 0 <= i < n && confirmed[i] == Some(c))
}

/// The knowledge gathered about the hidden word, as mathematical data.
#[verifier::ext_equal]
pub struct Knowledge {
    /// For each position, the letter known to stand there, if any.
    pub confirmed: Seq<Option<char>>,
    /// The letters known to be absent from the word.
    pub excluded_global: Set<char>,
    /// For each position, the letters known not to stand there although the
    /// word holds them.
    pub excluded_at_position: Seq<Set<char>>,
}

impl Knowledge {
    /// There is one entry for each position of a word.
    pub open spec fn shaped(self) -> bool {
        &&& self.confirmed.len() == WORD_LEN
        &&& self.excluded_at_position.len() == WORD_LEN
    }

    /// Nothing is known.
    pub open spec fn nothing() -> Knowledge {
        Knowledge {
            confirmed: Seq::new(WORD_LEN as nat, |i: int| None),
            excluded_global: Set::empty(),
            excluded_at_position: Seq::new(WORD_LEN as nat, |i: int| Set::empty()),
        }
    }

    /// The letters known to stand at some position.
    pub open spec fn confirmed_letters(self) -> Set<char> {
        confirmed_below(self.confirmed, WORD_LEN as int)
    }

    /// The letters excluded at some position: each of them is in the word.
    pub open spec fn misplaced_letters(self) -> Set<char> {
        Set::new(
            |c: char| exists|j: int| 0 <= j < WORD_LEN && self.excluded_at_position[j].contains(c),
        )
    }

    /// A confirmed letter is excluded at no position: confirmation supersedes
    /// misplacement.
    pub open spec fn consistent(self) -> bool {
        forall|c: char|
            self.confirmed_letters().contains(c) ==> !#[trigger] self.misplaced_letters().contains(
                c,
            )
    }

    /// Position `i` of `word` agrees with what is known of that position: it
    /// holds the confirmed letter; or, where none is confirmed, a letter that
    /// is not excluded there and that is not globally excluded, unless that
    /// letter is also known to be misplaced.
    pub open spec fn slot_fits(self, word: Seq<char>, i: int) -> bool {
        match self.confirmed[i] {
            Some(c) => word[i] == c,
            None => {
                &&& !self.excluded_at_position[i].contains(word[i])
                &&& self.excluded_global.contains(word[i]) ==> self.misplaced_letters().contains(
                    word[i],
                )
            },
        }
    }

    /// `word` holds `letter` at position `i`, where no letter is confirmed and
    /// `letter` is not excluded.
    pub open spec fn free_place(self, word: Seq<char>, letter: char, i: int) -> bool {
        &&& 0 <= i < WORD_LEN
        &&& self.confirmed[i] is None
        &&& word[i] == letter
        &&& !self.excluded_at_position[i].contains(letter)
    }

    /// `word` holds `letter` at some free place.
    pub open spec fn placed(self, word: Seq<char>, letter: char) -> bool {
        exists|i: int| self.free_place(word, letter, i)
    }

    /// `word` agrees with the knowledge: it has `WORD_LEN` letters or more,
    /// each of its first `WORD_LEN` positions fits, and each misplaced letter
    /// has a free place in it.
    pub open spec fn fits(self, word: Seq<char>) -> bool {
        &&& word.len() >= WORD_LEN
        &&& forall|i: int| 0 <= i < WORD_LEN ==> self.slot_fits(word, i)
        &&& forall|c: char| self.misplaced_letters().contains(c) ==> self.placed(word, c)
    }

    /// The words of `words` that agree with the knowledge, in their order.
    pub open spec fn surviving(self, words: Seq<Seq<char>>) -> Seq<Seq<char>> {
        words.filter(|word: Seq<char>| self.fits(word))
    }

    /// What is confirmed after a round with these verdicts: at each position
    /// the letter that the round found correct there, and else what was
    /// confirmed before.
    pub open spec fn confirmed_after(self, verdicts: Seq<Verdict>) -> Seq<Option<char>> {
        Seq::new(
            WORD_LEN as nat,
            |i: int|
                match verdicts[i] {
                    Verdict::Correct(c) => Some(c),
                    _ => self.confirmed[i],
                },
        )
    }

    /// The knowledge after a round in which `guess` got `verdicts`.
    ///
    /// A correct letter is confirmed at its position. A misplaced letter is
    /// excluded at its position. A confirmed letter is excluded at no position,
    /// whenever it was confirmed. A letter of the guess is globally excluded
    /// where the verdicts rule it out.
    pub open spec fn updated(self, verdicts: Seq<Verdict>, guess: Seq<char>) -> Knowledge {
        let confirmed = self.confirmed_after(verdicts);
        Knowledge {
            confirmed,
            excluded_global: self.excluded_global.union(
                ruled_out_below(verdicts, guess, WORD_LEN as int),
            ),
            excluded_at_position: Seq::new(
                WORD_LEN as nat,
                |j: int|
                    self.excluded_at_position[j].union(misplaced_at(verdicts, j)).difference(
                        confirmed_below(confirmed, WORD_LEN as int),
                    ),
            ),
        }
    }
}

/// The solver's knowledge about the hidden word.
pub struct KnowledgeState {
    /// For each position, the letter known to stand there, if any.
    pub confirmed: [Option<char>; 5],
    /// The letters known to be absent from the word.
    pub excluded_global: LetterSet,
    /// For each position, the letters known not to stand there although the
    /// word holds them.
    pub excluded_at_position: [LetterSet; 5],
}

impl View for KnowledgeState {
    type V = Knowledge;

    open spec fn view(&self) -> Knowledge {
        Knowledge {
            confirmed: self.confirmed@,
            excluded_global: self.excluded_global@,
            excluded_at_position: Seq::new(
                WORD_LEN as nat,
                |j: int| self.excluded_at_position[j]@,
            ),
        }
    }
}

impl KnowledgeState {
    /// The state in which nothing is known.
    pub fn new() -> (state: Self)
        ensures
            state@ == Knowledge::nothing(),
            state@.consistent(),
    {
        let state = KnowledgeState {
            confirmed: [None, None, None, None, None],
            excluded_global: LetterSet::new(),
            excluded_at_position: [
                LetterSet::new(),
                LetterSet::new(),
                LetterSet::new(),
                LetterSet::new(),
                LetterSet::new(),
            ],
        };
        assert(state@.confirmed =~= Knowledge::nothing().confirmed);
        assert(state@.excluded_at_position =~= Knowledge::nothing().excluded_at_position);
        state
    }

    /// The set of the letters excluded at some position.
    pub fn misplaced_letters(&self) -> (letters: LetterSet)
        ensures
            letters@ == self@.misplaced_letters(),
    {
        let mut letters = LetterSet::new();
        let mut j: usize = 0;
        while j < WORD_LEN
            invariant
                j <= WORD_LEN,
                forall|c: char|
                    letters@.contains(c) <==> exists|k: int|
                        0 <= k < j && self@.excluded_at_position[k].contains(c),
            decreases WORD_LEN - j,
        {
            let ghost before = letters@;
            letters.insert_all(&self.excluded_at_position[j]);
            assert forall|c: char| letters@.contains(c) <==> exists|k: int|
                0 <= k < j + 1 && self@.excluded_at_position[k].contains(c) by {
                if letters@.contains(c) {
                    if before.contains(c) {
                        let k = choose|k: int|
                            0 <= k < j && self@.excluded_at_position[k].contains(c);
                        assert(0 <= k < j + 1 && self@.excluded_at_position[k].contains(c));
                    } else {
                        assert(self@.excluded_at_position[j as int].contains(c));
                    }
                }
                if exists|k: int| 0 <= k < j + 1 && self@.excluded_at_position[k].contains(c) {
                    let k = choose|k: int|
                        0 <= k < j + 1 && self@.excluded_at_position[k].contains(c);
                    if k < j {
                        assert(before.contains(c));
                    }
                }
            }
            j += 1;
        }
        assert(letters@ =~= self@.misplaced_letters());
        letters
    }

    /// Whether `letter` has a free place among `letters`, the first letters of `word`.
    fn has_free_place(
        &self,
        letters: &[char; 5],
        letter: char,
        Ghost(word): Ghost<Seq<char>>,
    ) -> (found: bool)
        requires
            word.len() >= WORD_LEN,
            letters@ == word.take(WORD_LEN as int),
            forall|k: int| 0 <= k < WORD_LEN ==> self@.slot_fits(word, k),
        ensures
            found == self@.placed(word, letter),
    {
        let mut p: usize = 0;
        while p < WORD_LEN
            invariant
                p <= WORD_LEN,
                word.len() >= WORD_LEN,
                letters@ == word.take(WORD_LEN as int),
                forall|k: int| 0 <= k < WORD_LEN ==> self@.slot_fits(word, k),
                forall|i: int| 0 <= i < p ==> !self@.free_place(word, letter, i),
            decreases WORD_LEN - p,
        {
            assert(letters[p as int] == word[p as int]);
            if self.confirmed[p].is_none() && letters[p] == letter {
                assert(self@.slot_fits(word, p as int));
                assert(self@.free_place(word, letter, p as int));
                return true;
            }
            p += 1;
        }
        false
    }

    /// Whether `word` agrees with the knowledge, given the misplaced letters
    /// as a set and as a list.
    fn admits_with(&self, word: &str, misplaced: &LetterSet, required: &Vec<char>) -> (ok: bool)
        requires
            misplaced@ == self@.misplaced_letters(),
            required@.to_set() == misplaced@,
        ensures
            ok == self@.fits(word@),
    {
        let letters = match first_letters(word) {
            Some(letters) => letters,
            None => {
                return false;
            },
        };
        let mut i: usize = 0;
        while i < WORD_LEN
            invariant
                i <= WORD_LEN,
                word@.len() >= WORD_LEN,
                letters@ == word@.take(WORD_LEN as int),
                misplaced@ == self@.misplaced_letters(),
                forall|k: int| 0 <= k < i ==> self@.slot_fits(word@, k),
            decreases WORD_LEN - i,
        {
            let letter = letters[i];
            assert(letter == word@[i as int]);
            let fits = match self.confirmed[i] {
                Some(known) => letter == known,
                None => {
                    let ruled_out = self.excluded_global.contains(letter) && !misplaced.contains(
                        letter,
                    );
                    !self.excluded_at_position[i].contains(letter) && !ruled_out
                },
            };
            if !fits {
                assert(!self@.slot_fits(word@, i as int));
                return false;
            }
            i += 1;
        }
        let mut m: usize = 0;
        while m < required.len()
            invariant
                m <= required.len(),
                word@.len() >= WORD_LEN,
                letters@ == word@.take(WORD_LEN as int),
                misplaced@ == self@.misplaced_letters(),
                required@.to_set() == misplaced@,
                forall|k: int| 0 <= k < WORD_LEN ==> self@.slot_fits(word@, k),
                forall|n: int| 0 <= n < m ==> self@.placed(word@, #[trigger] required@[n]),
            decreases required.len() - m,
        {
            if !self.has_free_place(&letters, required[m], Ghost(word@)) {
                assert(required@.to_set().contains(required@[m as int]));
                return false;
            }
            m += 1;
        }
        assert forall|c: char| self@.misplaced_letters().contains(c) implies self@.placed(
            word@,
            c,
        ) by {
            assert(required@.to_set().contains(c));
            let n = choose|n: int| 0 <= n < required@.len() && required@[n] == c;
            assert(self@.placed(word@, required@[n]));
        }
        true
    }

    /// Whether `word` agrees with the knowledge.
    pub fn admits(&self, word: &str) -> (ok: bool)
        ensures
            ok == self@.fits(word@),
    {
        let misplaced = self.misplaced_letters();
        let required = misplaced.to_vec();
        self.admits_with(word, &misplaced, &required)
    }

    /// Keeps the words that agree with the knowledge, in their order.
    ///
    /// The list never grows, and every word kept holds each confirmed letter
    /// at its position.
    pub fn filter<'a>(&self, words: Vec<&'a str>) -> (kept: Vec<&'a str>)
        ensures
            spellings(kept@) == self@.surviving(spellings(words@)),
            kept@.len() <= words@.len(),
            forall|n: int| 0 <= n < kept@.len() ==> self@.fits(#[trigger] kept@[n]@),
            forall|n: int, i: int|
                0 <= n < kept@.len() && 0 <= i < WORD_LEN && self@.confirmed[i] is Some ==> Some(
                    #[trigger] kept@[n]@[i],
                ) == self@.confirmed[i],
    {
        let misplaced = self.misplaced_letters();
        let required = misplaced.to_vec();
        let mut kept: Vec<&'a str> = Vec::new();
        let mut n: usize = 0;
        proof {
            assert(spellings(words@.take(0)) =~= Seq::<Seq<char>>::empty());
            assert(spellings(kept@) =~= Seq::<Seq<char>>::empty());
            reveal(Seq::filter);
        }
        while n < words.len()
            invariant
                n <= words.len(),
                misplaced@ == self@.misplaced_letters(),
                required@.to_set() == misplaced@,
                spellings(kept@) == self@.surviving(spellings(words@.take(n as int))),
                kept@.len() <= n,
                forall|k: int| 0 <= k < kept@.len() ==> self@.fits(#[trigger] kept@[k]@),
            decreases words.len() - n,
        {
            let word = words[n];
            let ok = self.admits_with(word, &misplaced, &required);
            proof {
                let seen = words@.take(n as int);
                assert(words@.take(n + 1) =~= seen.push(word));
                lemma_spellings_push(seen, word);
                spellings(seen).lemma_filter_push(word@, |w: Seq<char>| self@.fits(w));
                if ok {
                    lemma_spellings_push(kept@, word);
                }
            }
            if ok {
                kept.push(word);
            }
            n += 1;
        }
        assert(words@.take(words.len() as int) =~= words@);
        assert forall|n: int, i: int|
            0 <= n < kept@.len() && 0 <= i < WORD_LEN && self@.confirmed[i] is Some implies Some(
            #[trigger] kept@[n]@[i],
        ) == self@.confirmed[i] by {
            assert(self@.fits(kept@[n]@));
            assert(self@.slot_fits(kept@[n]@, i));
        }
        kept
    }

    /// Takes `letter` out of the letters excluded at each position.
    fn strike(&mut self, letter: char)
        ensures
            final(self).confirmed == old(self).confirmed,
            final(self).excluded_global == old(self).excluded_global,
            forall|j: int|
                0 <= j < WORD_LEN ==> (#[trigger] final(self).excluded_at_position[j])@ == old(
                    self,
                ).excluded_at_position[j]@.remove(letter),
    {
        let mut j: usize = 0;
        while j < WORD_LEN
            invariant
                j <= WORD_LEN,
                self.confirmed == old(self).confirmed,
                self.excluded_global == old(self).excluded_global,
                forall|k: int|
                    0 <= k < j ==> (#[trigger] self.excluded_at_position[k])@ == old(
                        self,
                    ).excluded_at_position[k]@.remove(letter),
                forall|k: int|
                    j <= k < WORD_LEN ==> #[trigger] self.excluded_at_position[k] == old(
                        self,
                    ).excluded_at_position[k],
            decreases WORD_LEN - j,
        {
            self.excluded_at_position[j].remove(letter);
            j += 1;
        }
    }

    /// Takes in the verdicts that `guess` got in one round.
    ///
    /// The outcome is a function of the state and the five verdicts together,
    /// so it does not depend on the order in which the verdicts are read.
    /// Taking in the same verdicts again changes nothing. What was confirmed
    /// stays confirmed, and what was globally excluded stays excluded.
    pub fn apply(&mut self, verdicts: &[Verdict; 5], guess: &str)
        requires
            guess@.len() >= WORD_LEN,
        ensures
            final(self)@ == old(self)@.updated(verdicts@, guess@),
            final(self)@.consistent(),
            final(self)@.updated(verdicts@, guess@) == final(self)@,
            forall|i: int|
                #![trigger final(self)@.confirmed[i]]
                0 <= i < WORD_LEN && old(self)@.confirmed[i] is Some
                    ==> final(self)@.confirmed[i] is Some,
            old(self)@.excluded_global.subset_of(final(self)@.excluded_global),
    {
        let tried = first_letters(guess).unwrap();
        let mut i: usize = 0;
        assert(ruled_out_below(verdicts@, guess@, 0) =~= Set::<char>::empty());
        assert(self.excluded_global@.union(Set::<char>::empty()) =~= self.excluded_global@);
        while i < WORD_LEN
            invariant
                i <= WORD_LEN,
                guess@.len() >= WORD_LEN,
                tried@ == guess@.take(WORD_LEN as int),
                forall|k: int|
                    0 <= k < i ==> #[trigger] self.confirmed@[k] == old(self)@.confirmed_after(
                        verdicts@,
                    )[k],
                forall|k: int|
                    i <= k < WORD_LEN ==> #[trigger] self.confirmed@[k] == old(self).confirmed@[k],
                forall|j: int|
                    0 <= j < i ==> (#[trigger] self.excluded_at_position[j])@ == old(
                        self,
                    ).excluded_at_position[j]@.union(misplaced_at(verdicts@, j)),
                forall|j: int|
                    i <= j < WORD_LEN ==> #[trigger] self.excluded_at_position[j] == old(
                        self,
                    ).excluded_at_position[j],
                self.excluded_global@ == old(self).excluded_global@.union(
                    ruled_out_below(verdicts@, guess@, i as int),
                ),
            decreases WORD_LEN - i,
        {
            let ghost absent_before = ruled_out_below(verdicts@, guess@, i as int);
            let ghost absent_after = ruled_out_below(verdicts@, guess@, i + 1);
            let ghost slot_before = self.excluded_at_position[i as int]@;
            assert(tried[i as int] == guess@[i as int]);
            match verdicts[i] {
                Verdict::Correct(letter) => {
                    self.confirmed[i] = Some(letter);
                    assert(misplaced_at(verdicts@, i as int) =~= Set::<char>::empty());
                    assert(slot_before.union(Set::<char>::empty()) =~= slot_before);
                    assert(absent_after =~= absent_before);
                },
                Verdict::Misplaced(letter) => {
                    self.excluded_at_position[i].insert(letter);
                    assert(misplaced_at(verdicts@, i as int) =~= Set::<char>::empty().insert(
                        letter,
                    ));
                    assert(slot_before.insert(letter) =~= slot_before.union(
                        misplaced_at(verdicts@, i as int),
                    ));
                    assert(absent_after =~= absent_before);
                },
                Verdict::Absent(letter) => {
                    assert(misplaced_at(verdicts@, i as int) =~= Set::<char>::empty());
                    assert(slot_before.union(Set::<char>::empty()) =~= slot_before);
                    if !credits_elsewhere(verdicts, letter, i) {
                        self.excluded_global.insert(tried[i]);
                        assert(rules_out(verdicts@, i as int));
                        assert(absent_after =~= absent_before.insert(guess@[i as int]));
                        assert(old(self).excluded_global@.union(absent_before).insert(
                            guess@[i as int],
                        ) =~= old(self).excluded_global@.union(absent_after));
                    } else {
                        assert(!rules_out(verdicts@, i as int));
                        assert(absent_after =~= absent_before);
                    }
                },
            }
            i += 1;
        }
        let ghost confirmed = old(self)@.confirmed_after(verdicts@);
        assert(self.confirmed@ =~= confirmed);
        let mut i: usize = 0;
        while i < WORD_LEN
            invariant
                i <= WORD_LEN,
                self.confirmed@ == confirmed,
                confirmed == old(self)@.confirmed_after(verdicts@),
                self.excluded_global@ == old(self).excluded_global@.union(
                    ruled_out_below(verdicts@, guess@, WORD_LEN as int),
                ),
                forall|j: int|
                    0 <= j < WORD_LEN ==> (#[trigger] self.excluded_at_position[j])@ == old(
                        self,
                    ).excluded_at_position[j]@.union(misplaced_at(verdicts@, j)).difference(
                        confirmed_below(confirmed, i as int),
                    ),
            decreases WORD_LEN - i,
        {
            proof {
                if i == 0 {
                    assert(confirmed_below(confirmed, 0) =~= Set::<char>::empty());
                }
            }
            let ghost struck = confirmed_below(confirmed, i as int);
            let ghost struck_after = confirmed_below(confirmed, i + 1);
            match self.confirmed[i] {
                Some(letter) => {
                    self.strike(letter);
                    assert(struck_after =~= struck.insert(letter));
                    assert forall|j: int| 0 <= j < WORD_LEN implies (
                    #[trigger] self.excluded_at_position[j])@ == old(
                        self,
                    ).excluded_at_position[j]@.union(misplaced_at(verdicts@, j)).difference(
                        struck_after,
                    ) by {
                        let mid = old(self).excluded_at_position[j]@.union(
                            misplaced_at(verdicts@, j),
                        );
                        assert(mid.difference(struck).remove(letter) =~= mid.difference(
                            struck_after,
                        ));
                    }
                },
                None => {
                    assert(struck_after =~= struck);
                },
            }
            i += 1;
        }
        proof {
            let goal = old(self)@.updated(verdicts@, guess@);
            assert(self@.confirmed =~= goal.confirmed);
            assert(self@.excluded_global =~= goal.excluded_global);
            assert(self@.excluded_at_position =~= goal.excluded_at_position);
            assert(self@ =~= goal);
            lemma_updated_consistent(old(self)@, verdicts@, guess@);
            lemma_updated_idempotent(old(self)@, verdicts@, guess@);
            lemma_updated_keeps(old(self)@, verdicts@, guess@);
        }
    }
}

/// Whether `verdicts` credits `letter`, as correct or as misplaced, at a
/// position other than `i`.
fn credits_elsewhere(verdicts: &[Verdict; 5], letter: char, i: usize) -> (found: bool)
    ensures
        found == credited_elsewhere(verdicts@, letter, i as int),
{
    let mut k: usize = 0;
    while k < WORD_LEN
        invariant
            k <= WORD_LEN,
            forall|m: int|
                0 <= m < k && m != i ==> #[trigger] verdicts@[m] != Verdict::Correct(letter)
                    && verdicts@[m] != Verdict::Misplaced(letter),
        decreases WORD_LEN - k,
    {
        if k != i {
            let credited = match verdicts[k] {
                Verdict::Correct(c) => c == letter,
                Verdict::Misplaced(c) => c == letter,
                Verdict::Absent(_) => false,
            };
            if credited {
                return true;
            }
        }
        k += 1;
    }
    false
}

/// After a round, a confirmed letter is excluded at no position.
pub proof fn lemma_updated_consistent(before: Knowledge, verdicts: Seq<Verdict>, guess: Seq<char>)
    ensures
        before.updated(verdicts, guess).consistent(),
{
    let after = before.updated(verdicts, guess);
    assert forall|c: char| after.confirmed_letters().contains(c) implies !#[trigger]
        after.misplaced_letters().contains(c) by {
        if after.misplaced_letters().contains(c) {
            let j = choose|j: int| 0 <= j < WORD_LEN && after.excluded_at_position[j].contains(c);
            assert(!confirmed_below(after.confirmed, WORD_LEN as int).contains(c));
        }
    }
}

/// A round clears no confirmed position and lifts no global exclusion.
pub proof fn lemma_updated_keeps(before: Knowledge, verdicts: Seq<Verdict>, guess: Seq<char>)
    ensures
        forall|i: int|
            0 <= i < WORD_LEN && before.confirmed[i] is Some ==> #[trigger] before.updated(
                verdicts,
                guess,
            ).confirmed[i] is Some,
        before.excluded_global.subset_of(before.updated(verdicts, guess).excluded_global),
{
}

/// Taking in the same round a second time changes nothing.
pub proof fn lemma_updated_idempotent(before: Knowledge, verdicts: Seq<Verdict>, guess: Seq<char>)
    ensures
        before.updated(verdicts, guess).updated(verdicts, guess) == before.updated(verdicts, guess),
{
    let once = before.updated(verdicts, guess);
    let twice = once.updated(verdicts, guess);
    assert(twice.confirmed =~= once.confirmed);
    assert(twice.excluded_global =~= once.excluded_global);
    assert forall|j: int| 0 <= j < WORD_LEN implies #[trigger] twice.excluded_at_position[j]
        =~= once.excluded_at_position[j] by {}
    assert(twice.excluded_at_position =~= once.excluded_at_position);
    assert(twice =~= once);
}

} // verus!
