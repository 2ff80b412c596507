use wordle_solver::letters::{is_uppercase, to_lowercase, to_uppercase};

#[test]
fn is_uppercase_works() {
    let all_upper = "ABCDEFGHIJKLMNOPQRSTUVWXYZ";
    let all_lower = "abcdefghijklmnopqrstuvwxyz";

    for letter in all_upper.chars() {
        assert_eq!(is_uppercase(letter), true);
    }
    for letter in all_lower.chars() {
        assert_eq!(is_uppercase(letter), false);
    }
}

#[test]
fn to_uppercase_works() {
    assert_eq!(
        "abcdefghijklmnopqrstuvwxyz"
            .chars()
            .map(|letter| to_uppercase(letter))
            .collect::<String>(),
        String::from("ABCDEFGHIJKLMNOPQRSTUVWXYZ")
    );
}

#[test]
fn to_lowercase_works() {
    assert_eq!(
        "ABCDEFGHIJKLMNOPQRSTUVWXYZ"
            .chars()
            .map(|letter| to_lowercase(letter))
            .collect::<String>(),
        String::from("abcdefghijklmnopqrstuvwxyz")
    );
}

#[test]
fn is_uppercase_goes_by_code_point() {
    assert_eq!(is_uppercase('Z'), true);
    assert_eq!(is_uppercase('['), false);
    assert_eq!(is_uppercase('.'), true);
    assert_eq!(is_uppercase(' '), true);
    assert_eq!(is_uppercase('\u{e9}'), false);
}

#[test]
fn case_changes_shift_by_thirty_two() {
    assert_eq!(to_uppercase('a'), 'A');
    assert_eq!(to_uppercase('z'), 'Z');
    assert_eq!(to_uppercase('{'), '[');
    assert_eq!(to_lowercase('A'), 'a');
    assert_eq!(to_lowercase('Z'), 'z');
    assert_eq!(to_lowercase(' '), '@');
}

#[test]
fn case_changes_round_trip_on_letters() {
    for letter in "ABCDEFGHIJKLMNOPQRSTUVWXYZ".chars() {
        assert_eq!(to_uppercase(to_lowercase(letter)), letter);
        assert_eq!(is_uppercase(to_lowercase(letter)), false);
    }
    for letter in "abcdefghijklmnopqrstuvwxyz".chars() {
        assert_eq!(to_lowercase(to_uppercase(letter)), letter);
        assert_eq!(is_uppercase(to_uppercase(letter)), true);
    }
}

#[test]
fn case_changes_leave_a_letter_without_counterpart() {
    // No character lies 32 code points below these.
    assert_eq!(to_uppercase('\u{0}'), '\u{0}');
    assert_eq!(to_uppercase('\u{1f}'), '\u{1f}');
    assert_eq!(to_uppercase('\u{e000}'), '\u{e000}');
    assert_eq!(to_uppercase('\u{e01f}'), '\u{e01f}');
    assert_eq!(to_uppercase('\u{e020}'), '\u{e000}');
    // No character lies 32 code points above these.
    assert_eq!(to_lowercase('\u{d7e0}'), '\u{d7e0}');
    assert_eq!(to_lowercase('\u{d7df}'), '\u{d7ff}');
    assert_eq!(to_lowercase('\u{10ffff}'), '\u{10ffff}');
    assert_eq!(to_lowercase('\u{10ffdf}'), '\u{10ffff}');
}
