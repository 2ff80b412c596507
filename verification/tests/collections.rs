use wordle_solver::letter_counts::LetterCounts;
use wordle_solver::letter_set::LetterSet;
use wordle_solver::words::{first_letters, same_word};

#[test]
fn letter_set_starts_empty() {
    let set = LetterSet::new();
    assert_eq!(set.contains('a'), false);
    assert_eq!(set.to_vec(), Vec::<char>::new());
}

#[test]
fn letter_set_holds_each_letter_once() {
    let mut set = LetterSet::new();
    assert_eq!(set.insert('a'), true);
    assert_eq!(set.insert('b'), true);
    assert_eq!(set.insert('a'), false);
    assert_eq!(set.contains('a'), true);
    assert_eq!(set.contains('b'), true);
    assert_eq!(set.contains('c'), false);
    let mut letters = set.to_vec();
    letters.sort();
    assert_eq!(letters, vec!['a', 'b']);
}

#[test]
fn letter_set_removes_a_letter() {
    let mut set = LetterSet::from_letters(vec!['a', 'b', 'c', 'b']);
    assert_eq!(set.remove('b'), true);
    assert_eq!(set.remove('b'), false);
    assert_eq!(set.remove('z'), false);
    assert_eq!(set.contains('b'), false);
    let mut letters = set.to_vec();
    letters.sort();
    assert_eq!(letters, vec!['a', 'c']);
}

#[test]
fn letter_set_takes_in_another_set() {
    let mut set = LetterSet::from_letters(vec!['a', 'b']);
    set.insert_all(&LetterSet::from_letters(vec!['b', 'c']));
    let mut letters = set.to_vec();
    letters.sort();
    assert_eq!(letters, vec!['a', 'b', 'c']);
}

#[test]
fn letter_counts_count_from_zero() {
    let mut counts = LetterCounts::new();
    assert_eq!(counts.get('a'), 0);
    counts.add_one('a');
    counts.add_one('b');
    counts.add_one('a');
    assert_eq!(counts.get('a'), 2);
    assert_eq!(counts.get('b'), 1);
    assert_eq!(counts.get('c'), 0);
}

#[test]
fn first_letters_wants_five_letters() {
    assert_eq!(first_letters("abcde"), Some(['a', 'b', 'c', 'd', 'e']));
    assert_eq!(first_letters("abcdefg"), Some(['a', 'b', 'c', 'd', 'e']));
    assert_eq!(first_letters("abcd"), None);
    assert_eq!(first_letters(""), None);
    assert_eq!(first_letters("\u{e9}t\u{e9}s!"), Some(['\u{e9}', 't', '\u{e9}', 's', '!']));
}

#[test]
fn same_word_compares_spellings() {
    assert_eq!(same_word("abcde", "abcde"), true);
    assert_eq!(same_word("abcde", "abcdf"), false);
    assert_eq!(same_word("abcde", "abcd"), false);
    assert_eq!(same_word("", ""), true);
}
