//! A table that counts letters.

use vstd::prelude::*;

verus! {

/// How often `letter` was counted in `counts`: its entry, or zero where it
/// has none.
pub open spec fn tally(counts: Map<char, nat>, letter: char) -> nat {
    if counts.contains_key(letter) {
        counts[letter]
    } else {
        0
    }
}

/// The letters of a list of entries, in the list's order.
spec fn keys(entries: Seq<(char, usize)>) -> Seq<char> {
    Seq::new(entries.len(), |i: int| entries[i].0)
}

/// The map that a list of entries with distinct letters stands for.
spec fn as_map(entries: Seq<(char, usize)>) -> Map<char, nat> {
    Map::new(
        |c: char| keys(entries).contains(c),
        |c: char| entries[keys(entries).index_of(c)].1 as nat,
    )
}

/// In a list with distinct letters, an entry is found under its letter.
proof fn lemma_entry_found(entries: Seq<(char, usize)>, i: int)
    requires
        keys(entries).no_duplicates(),
        0 <= i < entries.len(),
    ensures
        keys(entries).contains(entries[i].0),
        keys(entries).index_of(entries[i].0) == i,
        as_map(entries).contains_key(entries[i].0),
        as_map(entries)[entries[i].0] == entries[i].1,
{
    assert(keys(entries)[i] == entries[i].0);
}

/// A table from letters to the number of times each was counted.
///
/// Its view is the map from each counted letter to its count; a letter that
/// was never counted has no entry.
pub struct LetterCounts {
    entries: Vec<(char, usize)>,
}

impl View for LetterCounts {
    type V = Map<char, nat>;

    closed spec fn view(&self) -> Map<char, nat> {
        as_map(self.entries@)
    }
}

impl LetterCounts {
    #[verifier::type_invariant]
    spec fn distinct_letters(self) -> bool {
        keys(self.entries@).no_duplicates()
    }

    /// The table in which nothing was counted.
    pub fn new() -> (table: Self)
        ensures
            table@ == Map::<char, nat>::empty(),
    {
        let table = LetterCounts { entries: Vec::new() };
        assert(table@ =~= Map::<char, nat>::empty());
        table
    }

    /// The place of the entry of `letter`, if it has one.
    fn position(&self, letter: char) -> (at: Option<usize>)
        ensures
            match at {
                Some(i) => i < self.entries@.len() && self.entries@[i as int].0 == letter,
                None => !keys(self.entries@).contains(letter),
            },
    {
        let mut i: usize = 0;
        while i < self.entries.len()
            invariant
                i <= self.entries.len(),
                forall|k: int| 0 <= k < i ==> keys(self.entries@)[k] != letter,
            decreases self.entries.len() - i,
        {
            if self.entries[i].0 == letter {
                return Some(i);
            }
            i += 1;
        }
        None
    }

    /// How often `letter` was counted.
    pub fn get(&self, letter: char) -> (count: usize)
        ensures
            count == tally(self@, letter),
    {
        proof {
            use_type_invariant(self);
        }
        match self.position(letter) {
            Some(i) => {
                proof {
                    lemma_entry_found(self.entries@, i as int);
                }
                self.entries[i].1
            },
            None => 0,
        }
    }

    /// Counts `letter` once more.
    pub fn add_one(&mut self, letter: char)
        requires
            tally(old(self)@, letter) < usize::MAX,
        ensures
            final(self)@ == old(self)@.insert(letter, tally(old(self)@, letter) + 1),
    {
        proof {
            use_type_invariant(&*self);
        }
        let ghost before = self.entries@;
        let found = self.position(letter);
        let mut entries: Vec<(char, usize)> = Vec::new();
        std::mem::swap(&mut entries, &mut self.entries);
        match found {
            Some(i) => {
                proof {
                    lemma_entry_found(before, i as int);
                }
                let count = entries[i].1;
                entries[i] = (letter, count + 1);
            },
            None => {
                entries.push((letter, 1));
            },
        }
        proof {
            let after = entries@;
            assert(keys(after).no_duplicates()) by {
                assert forall|a: int, b: int|
                    0 <= a < after.len() && 0 <= b < after.len() && a != b implies keys(after)[a]
                    != keys(after)[b] by {
                    if a < before.len() {
                        assert(keys(before)[a] == before[a].0);
                    }
                    if b < before.len() {
                        assert(keys(before)[b] == before[b].0);
                    }
                }
            }
            let goal = as_map(before).insert(letter, tally(as_map(before), letter) + 1);
            assert forall|c: char| #[trigger] as_map(after).contains_key(c) <==> goal.contains_key(
                c,
            ) by {
                if keys(after).contains(c) {
                    let k = choose|k: int| 0 <= k < after.len() && keys(after)[k] == c;
                    if k < before.len() && c != letter {
                        assert(keys(before)[k] == c);
                    }
                }
                if keys(before).contains(c) {
                    let k = choose|k: int| 0 <= k < before.len() && keys(before)[k] == c;
                    assert(keys(after)[k] == c);
                }
                if c == letter {
                    match found {
                        Some(i) => {
                            assert(keys(after)[i as int] == c);
                        },
                        None => {
                            assert(keys(after)[before.len() as int] == c);
                        },
                    }
                }
            }
            assert forall|c: char| #[trigger] goal.contains_key(c) implies as_map(after)[c]
                == goal[c] by {
                assert(as_map(after).contains_key(c));
                assert(keys(after).contains(c));
                let k = choose|k: int| 0 <= k < after.len() && keys(after)[k] == c;
                lemma_entry_found(after, k);
                if c != letter {
                    assert(k < before.len());
                    assert(keys(before)[k] == c);
                    lemma_entry_found(before, k);
                } else {
                    match found {
                        Some(i) => {
                            assert(keys(after)[i as int] == c);
                        },
                        None => {
                            assert(keys(after)[before.len() as int] == c);
                        },
                    }
                }
            }
            assert(as_map(after) =~= goal);
        }
        self.entries = entries;
    }
}

} // verus!
