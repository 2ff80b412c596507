//! A finite set of letters.

use vstd::prelude::*;

verus! {

/// A finite set of letters, kept as a list in which no letter occurs twice.
///
/// Its view is the mathematical set of its letters.
pub struct LetterSet {
    letters: Vec<char>,
}

impl View for LetterSet {
    type V = Set<char>;

    closed spec fn view(&self) -> Set<char> {
        self.letters@.to_set()
    }
}

/// Appending a letter to a list adds it to the list's set.
proof fn lemma_push_adds(list: Seq<char>, letter: char)
    ensures
        list.push(letter).to_set() == list.to_set().insert(letter),
{
    let longer = list.push(letter);
    assert forall|c: char| longer.to_set().contains(c) <==> list.to_set().insert(letter).contains(
        c,
    ) by {
        if longer.to_set().contains(c) {
            let k = choose|k: int| 0 <= k < longer.len() && longer[k] == c;
            if k < list.len() {
                assert(list[k] == c);
            }
        }
        if list.to_set().insert(letter).contains(c) {
            if c == letter {
                assert(longer[list.len() as int] == c);
            } else {
                let k = choose|k: int| 0 <= k < list.len() && list[k] == c;
                assert(longer[k] == c);
            }
        }
    }
    assert(longer.to_set() =~= list.to_set().insert(letter));
}

/// Taking an entry out of a list without repetitions takes its letter out of
/// the list's set, and leaves a list without repetitions.
proof fn lemma_remove_drops(list: Seq<char>, at: int)
    requires
        list.no_duplicates(),
        0 <= at < list.len(),
    ensures
        list.remove(at).no_duplicates(),
        list.remove(at).to_set() == list.to_set().remove(list[at]),
{
    let shorter = list.remove(at);
    assert forall|c: char| shorter.to_set().contains(c) <==> list.to_set().remove(
        list[at],
    ).contains(c) by {
        if shorter.to_set().contains(c) {
            let k = choose|k: int| 0 <= k < shorter.len() && shorter[k] == c;
            if k < at {
                assert(list[k] == c);
            } else {
                assert(list[k + 1] == c);
            }
        }
        if list.to_set().remove(list[at]).contains(c) {
            let k = choose|k: int| 0 <= k < list.len() && list[k] == c;
            if k < at {
                assert(shorter[k] == c);
            } else {
                assert(shorter[k - 1] == c);
            }
        }
    }
    assert(shorter.to_set() =~= list.to_set().remove(list[at]));
}

impl LetterSet {
    #[verifier::type_invariant]
    spec fn no_letter_twice(self) -> bool {
        self.letters@.no_duplicates()
    }

    /// The empty set.
    pub fn new() -> (set: Self)
        ensures
            set@ == Set::<char>::empty(),
    {
        let set = LetterSet { letters: Vec::new() };
        assert(set.letters@.to_set() =~= Set::<char>::empty());
        set
    }

    /// The set of the letters that occur in `letters`.
    pub fn from_letters(letters: Vec<char>) -> (set: Self)
        ensures
            set@ == letters@.to_set(),
    {
        let mut set = LetterSet::new();
        let mut i: usize = 0;
        assert(letters@.take(0).to_set() =~= Set::<char>::empty());
        while i < letters.len()
            invariant
                i <= letters.len(),
                set@ == letters@.take(i as int).to_set(),
            decreases letters.len() - i,
        {
            set.insert(letters[i]);
            proof {
                assert(letters@.take(i + 1) =~= letters@.take(i as int).push(letters@[i as int]));
                lemma_push_adds(letters@.take(i as int), letters@[i as int]);
            }
            i += 1;
        }
        assert(letters@.take(letters.len() as int) =~= letters@);
        set
    }

    /// The place of `letter` in the list, if it is there.
    fn position(&self, letter: char) -> (at: Option<usize>)
        ensures
            match at {
                Some(i) => i < self.letters@.len() && self.letters@[i as int] == letter,
                None => !self.letters@.contains(letter),
            },
    {
        let mut i: usize = 0;
        while i < self.letters.len()
            invariant
                i <= self.letters.len(),
                forall|k: int| 0 <= k < i ==> self.letters@[k] != letter,
            decreases self.letters.len() - i,
        {
            if self.letters[i] == letter {
                return Some(i);
            }
            i += 1;
        }
        None
    }

    /// Whether `letter` is in the set.
    pub fn contains(&self, letter: char) -> (found: bool)
        ensures
            found == self@.contains(letter),
    {
        self.position(letter).is_some()
    }

    /// Adds `letter` to the set, and tells whether it was new.
    pub fn insert(&mut self, letter: char) -> (added: bool)
        ensures
            final(self)@ == old(self)@.insert(letter),
            added == !old(self)@.contains(letter),
    {
        proof {
            use_type_invariant(&*self);
        }
        if self.position(letter).is_some() {
            assert(self@.insert(letter) =~= self@);
            false
        } else {
            proof {
                lemma_push_adds(self.letters@, letter);
            }
            let mut letters: Vec<char> = Vec::new();
            std::mem::swap(&mut letters, &mut self.letters);
            letters.push(letter);
            self.letters = letters;
            true
        }
    }

    /// Takes `letter` out of the set, and tells whether it was there.
    pub fn remove(&mut self, letter: char) -> (removed: bool)
        ensures
            final(self)@ == old(self)@.remove(letter),
            removed == old(self)@.contains(letter),
    {
        proof {
            use_type_invariant(&*self);
        }
        match self.position(letter) {
            Some(at) => {
                proof {
                    lemma_remove_drops(self.letters@, at as int);
                }
                let mut letters: Vec<char> = Vec::new();
                std::mem::swap(&mut letters, &mut self.letters);
                letters.remove(at);
                self.letters = letters;
                true
            },
            None => {
                assert(self@.remove(letter) =~= self@);
                false
            },
        }
    }

    /// Adds every letter of `other` to the set.
    pub fn insert_all(&mut self, other: &LetterSet)
        ensures
            final(self)@ == old(self)@.union(other@),
    {
        let mut i: usize = 0;
        assert(other.letters@.take(0).to_set() =~= Set::<char>::empty());
        assert(self@.union(Set::<char>::empty()) =~= self@);
        while i < other.letters.len()
            invariant
                i <= other.letters.len(),
                self@ == old(self)@.union(other.letters@.take(i as int).to_set()),
            decreases other.letters.len() - i,
        {
            self.insert(other.letters[i]);
            proof {
                let seen = other.letters@.take(i as int);
                assert(other.letters@.take(i + 1) =~= seen.push(other.letters@[i as int]));
                lemma_push_adds(seen, other.letters@[i as int]);
                assert(old(self)@.union(seen.to_set()).insert(other.letters@[i as int]) =~= old(
                    self,
                )@.union(seen.to_set().insert(other.letters@[i as int])));
            }
            i += 1;
        }
        assert(other.letters@.take(other.letters.len() as int) =~= other.letters@);
    }

    /// The letters of the set, each once.
    pub fn to_vec(&self) -> (letters: Vec<char>)
        ensures
            letters@.no_duplicates(),
            letters@.to_set() == self@,
    {
        proof {
            use_type_invariant(self);
        }
        let mut letters: Vec<char> = Vec::new();
        let mut i: usize = 0;
        while i < self.letters.len()
            invariant
                i <= self.letters.len(),
                letters@ == self.letters@.take(i as int),
            decreases self.letters.len() - i,
        {
            letters.push(self.letters[i]);
            assert(self.letters@.take(i + 1) =~= self.letters@.take(i as int).push(
                self.letters@[i as int],
            ));
            i += 1;
        }
        assert(self.letters@.take(self.letters.len() as int) =~= self.letters@);
        letters
    }
}

} // verus!
