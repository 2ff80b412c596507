use wordle_solver::filter::filter_words;
use wordle_solver::letter_set::LetterSet;

#[test]
fn filter_words_works_with_no_known_letters() {
    let mut words: Vec<&str> = vec!["abcde", "abdce", "bcdef"];
    let known_letters: [char; 5] = [' ', ' ', ' ', ' ', ' '];
    words = filter_words(
        words,
        known_letters,
        LetterSet::new(),
        [
            LetterSet::new(),
            LetterSet::new(),
            LetterSet::new(),
            LetterSet::new(),
            LetterSet::new(),
        ],
    );
    assert_eq!(words, vec!["abcde", "abdce", "bcdef"]);
}

#[test]
fn filter_words_works_first_letter() {
    let mut words: Vec<&str> = vec!["abcde", "abdce", "bcdef"];
    let known_letters: [char; 5] = ['a', ' ', ' ', ' ', ' '];
    words = filter_words(
        words,
        known_letters,
        LetterSet::new(),
        [
            LetterSet::new(),
            LetterSet::new(),
            LetterSet::new(),
            LetterSet::new(),
            LetterSet::new(),
        ],
    );
    assert_eq!(words, vec!["abcde", "abdce"]);
}

#[test]
fn filter_words_works_middle_letter() {
    let mut words: Vec<&str> = vec!["abcde", "abdce", "bccef"];
    let known_letters: [char; 5] = [' ', ' ', 'c', ' ', ' '];
    words = filter_words(
        words,
        known_letters,
        LetterSet::new(),
        [
            LetterSet::new(),
            LetterSet::new(),
            LetterSet::new(),
            LetterSet::new(),
            LetterSet::new(),
        ],
    );
    assert_eq!(words, vec!["abcde", "bccef"]);
}

#[test]
fn filter_words_works_multiple_letters() {
    let mut words: Vec<&str> = vec!["abcde", "abdce", "bccef"];
    let known_letters: [char; 5] = ['a', ' ', 'c', ' ', ' '];
    words = filter_words(
        words,
        known_letters,
        LetterSet::new(),
        [
            LetterSet::new(),
            LetterSet::new(),
            LetterSet::new(),
            LetterSet::new(),
            LetterSet::new(),
        ],
    );
    assert_eq!(words, vec!["abcde"]);
}

#[test]
fn filter_words_works_misplaced_letter() {
    let mut words: Vec<&str> = vec!["abcde", "bcdea", "bccef"];
    let known_letters: [char; 5] = [' ', ' ', ' ', ' ', ' '];
    words = filter_words(
        words,
        known_letters,
        LetterSet::new(),
        [
            LetterSet::from_letters(vec!['a']),
            LetterSet::new(),
            LetterSet::new(),
            LetterSet::new(),
            LetterSet::new(),
        ],
    );
    assert_eq!(words, vec!["bcdea"]);
}

#[test]
fn filter_words_works_misplaced_letters_removes_all() {
    let mut words: Vec<&str> = vec!["abcde", "bcdea", "bccef"];
    let known_letters: [char; 5] = [' ', ' ', ' ', ' ', ' '];
    words = filter_words(
        words,
        known_letters,
        LetterSet::new(),
        [
            LetterSet::from_letters(vec!['z']),
            LetterSet::new(),
            LetterSet::new(),
            LetterSet::new(),
            LetterSet::new(),
        ],
    );
    let should_equal: Vec<&str> = vec![];
    assert_eq!(words, should_equal);
}

#[test]
fn filter_words_works_misplaced_multiple_letters() {
    let mut words: Vec<&str> = vec!["abcde", "zbbde", "abbce"];
    let known_letters: [char; 5] = [' ', ' ', ' ', ' ', ' '];
    words = filter_words(
        words,
        known_letters,
        LetterSet::new(),
        [
            LetterSet::from_letters(vec!['b']),
            LetterSet::new(),
            LetterSet::new(),
            LetterSet::from_letters(vec!['c']),
            LetterSet::new(),
        ],
    );
    assert_eq!(words, vec!["abcde"]);
}

#[test]
fn filter_words_works_known_wrong_letters() {
    let mut words: Vec<&str> = vec!["abcde", "zbcde", "abbbef"];
    let known_letters: [char; 5] = [' ', ' ', ' ', ' ', ' '];
    words = filter_words(
        words,
        known_letters,
        LetterSet::from_letters(vec!['z']),
        [
            LetterSet::new(),
            LetterSet::new(),
            LetterSet::new(),
            LetterSet::new(),
            LetterSet::new(),
        ],
    );
    assert_eq!(words, vec!["abcde", "abbbef"]);
}

#[test]
fn filter_words_works_letter_in_wrong_spot() {
    let mut words: Vec<&str> = vec!["abcde", "zbcde", "abbbf"];
    let known_letters: [char; 5] = [' ', ' ', ' ', ' ', ' '];
    words = filter_words(
        words,
        known_letters,
        LetterSet::new(),
        [
            LetterSet::new(),
            LetterSet::from_letters(vec!['a']),
            LetterSet::new(),
            LetterSet::new(),
            LetterSet::new(),
        ],
    );
    assert_eq!(words, vec!["abcde", "abbbf"]);
}
