use wordle_solver::feedback::{translate, Verdict};
use wordle_solver::knowledge::KnowledgeState;
use wordle_solver::letter_set::LetterSet;

fn sorted(set: &LetterSet) -> Vec<char> {
    let mut letters = set.to_vec();
    letters.sort();
    letters
}

#[test]
fn new_state_knows_nothing() {
    let state = KnowledgeState::new();
    assert_eq!(state.confirmed, [None, None, None, None, None]);
    assert_eq!(sorted(&state.excluded_global), Vec::<char>::new());
    for position in 0..5 {
        assert_eq!(sorted(&state.excluded_at_position[position]), Vec::<char>::new());
    }
    assert_eq!(sorted(&state.misplaced_letters()), Vec::<char>::new());
}

#[test]
fn apply_records_each_kind_of_verdict() {
    let mut state = KnowledgeState::new();
    let verdicts = [
        Verdict::Correct('c'),
        Verdict::Misplaced('r'),
        Verdict::Absent('a'),
        Verdict::Misplaced('n'),
        Verdict::Absent('e'),
    ];
    state.apply(&verdicts, "crane");
    assert_eq!(state.confirmed, [Some('c'), None, None, None, None]);
    assert_eq!(sorted(&state.excluded_global), vec!['a', 'e']);
    assert_eq!(sorted(&state.excluded_at_position[0]), Vec::<char>::new());
    assert_eq!(sorted(&state.excluded_at_position[1]), vec!['r']);
    assert_eq!(sorted(&state.excluded_at_position[2]), Vec::<char>::new());
    assert_eq!(sorted(&state.excluded_at_position[3]), vec!['n']);
    assert_eq!(sorted(&state.excluded_at_position[4]), Vec::<char>::new());
    assert_eq!(sorted(&state.misplaced_letters()), vec!['n', 'r']);
}

#[test]
fn apply_does_not_rule_out_a_letter_credited_elsewhere() {
    // The second and third 'l' are absent, but the first is misplaced: the
    // word holds an 'l', only no further one.
    let mut state = KnowledgeState::new();
    state.apply(&translate("lolly", "spool"), "lolly");
    assert_eq!(state.confirmed, [None, None, None, None, None]);
    assert_eq!(sorted(&state.excluded_global), vec!['y']);
    assert_eq!(sorted(&state.excluded_at_position[0]), vec!['l']);
    assert_eq!(sorted(&state.excluded_at_position[1]), vec!['o']);
    assert_eq!(sorted(&state.excluded_at_position[2]), Vec::<char>::new());

    // The same holds where the letter is correct elsewhere.
    let mut state = KnowledgeState::new();
    state.apply(&translate("eyrer", "abbey"), "eyrer");
    assert_eq!(state.confirmed, [None, None, None, Some('e'), None]);
    assert_eq!(sorted(&state.excluded_global), vec!['r']);
    assert_eq!(sorted(&state.excluded_at_position[1]), vec!['y']);
}

#[test]
fn apply_inserts_the_letter_of_the_guess_for_absent() {
    let mut state = KnowledgeState::new();
    let verdicts = [
        Verdict::Absent('q'),
        Verdict::Absent('q'),
        Verdict::Absent('z'),
        Verdict::Absent('z'),
        Verdict::Absent('z'),
    ];
    state.apply(&verdicts, "abcde");
    assert_eq!(sorted(&state.excluded_global), vec!['a', 'b', 'c', 'd', 'e']);
}

#[test]
fn apply_lets_a_confirmed_letter_win_over_exclusions() {
    let mut state = KnowledgeState::new();
    // First round: 'a' is misplaced at positions 1 and 3.
    let first = [
        Verdict::Absent('x'),
        Verdict::Misplaced('a'),
        Verdict::Absent('y'),
        Verdict::Misplaced('a'),
        Verdict::Absent('z'),
    ];
    state.apply(&first, "xayaz");
    assert_eq!(sorted(&state.excluded_at_position[1]), vec!['a']);
    assert_eq!(sorted(&state.excluded_at_position[3]), vec!['a']);
    // Second round: 'a' is confirmed at position 0, and misplaced at 2.
    let second = [
        Verdict::Correct('a'),
        Verdict::Misplaced('b'),
        Verdict::Misplaced('a'),
        Verdict::Absent('w'),
        Verdict::Absent('v'),
    ];
    state.apply(&second, "abawv");
    assert_eq!(state.confirmed, [Some('a'), None, None, None, None]);
    assert_eq!(sorted(&state.excluded_at_position[0]), Vec::<char>::new());
    assert_eq!(sorted(&state.excluded_at_position[1]), vec!['b']);
    assert_eq!(sorted(&state.excluded_at_position[2]), Vec::<char>::new());
    assert_eq!(sorted(&state.excluded_at_position[3]), Vec::<char>::new());
    assert_eq!(sorted(&state.excluded_global), vec!['v', 'w', 'x', 'y', 'z']);
    // A later misplacement of the confirmed letter stays out as well.
    let third = [
        Verdict::Absent('q'),
        Verdict::Misplaced('a'),
        Verdict::Absent('q'),
        Verdict::Absent('q'),
        Verdict::Absent('q'),
    ];
    state.apply(&third, "qaqqq");
    assert_eq!(state.confirmed, [Some('a'), None, None, None, None]);
    assert_eq!(sorted(&state.excluded_at_position[1]), vec!['b']);
}

#[test]
fn apply_twice_changes_nothing() {
    let verdicts = translate("lolly", "llama");
    let mut once = KnowledgeState::new();
    once.apply(&verdicts, "lolly");
    let mut twice = KnowledgeState::new();
    twice.apply(&verdicts, "lolly");
    twice.apply(&verdicts, "lolly");
    assert_eq!(once.confirmed, twice.confirmed);
    assert_eq!(sorted(&once.excluded_global), sorted(&twice.excluded_global));
    for position in 0..5 {
        assert_eq!(
            sorted(&once.excluded_at_position[position]),
            sorted(&twice.excluded_at_position[position])
        );
    }
    assert_eq!(once.confirmed, [Some('l'), None, None, None, None]);
    assert_eq!(sorted(&once.excluded_global), vec!['o', 'y']);
    // 'l' is confirmed, so its misplacement at position 2 is not kept.
    assert_eq!(sorted(&once.excluded_at_position[2]), Vec::<char>::new());
}

#[test]
fn apply_overwrites_a_confirmed_letter() {
    let mut state = KnowledgeState::new();
    let first = [
        Verdict::Correct('a'),
        Verdict::Absent('q'),
        Verdict::Absent('q'),
        Verdict::Absent('q'),
        Verdict::Absent('q'),
    ];
    state.apply(&first, "aqqqq");
    let second = [
        Verdict::Correct('b'),
        Verdict::Absent('q'),
        Verdict::Absent('q'),
        Verdict::Absent('q'),
        Verdict::Absent('q'),
    ];
    state.apply(&second, "bqqqq");
    assert_eq!(state.confirmed, [Some('b'), None, None, None, None]);
}

#[test]
fn admits_follows_the_three_rules() {
    let mut state = KnowledgeState::new();
    state.apply(&translate("crane", "caper"), "crane");
    // c correct; r misplaced at 1; a misplaced at 2; n absent; e misplaced at 4.
    assert_eq!(state.confirmed, [Some('c'), None, None, None, None]);
    assert_eq!(state.admits("caper"), true);
    // Wrong first letter.
    assert_eq!(state.admits("taper"), false);
    // 'r' at the position where it is excluded.
    assert_eq!(state.admits("crepa"), false);
    // Holds the absent 'n'.
    assert_eq!(state.admits("caner"), false);
    // Lacks the misplaced 'e'.
    assert_eq!(state.admits("carat"), false);
    // Too short to be a word of the game.
    assert_eq!(state.admits("cape"), false);
    // Read through its first five letters.
    assert_eq!(state.admits("capern"), true);
}

#[test]
fn admits_keeps_a_ruled_out_letter_that_is_also_misplaced() {
    let state = KnowledgeState {
        confirmed: [None, None, None, None, None],
        excluded_global: LetterSet::from_letters(vec!['a', 'z']),
        excluded_at_position: [
            LetterSet::from_letters(vec!['a']),
            LetterSet::new(),
            LetterSet::new(),
            LetterSet::new(),
            LetterSet::new(),
        ],
    };
    assert_eq!(state.admits("bacde"), true);
    assert_eq!(state.admits("abcde"), false);
    assert_eq!(state.admits("bazde"), false);
}

#[test]
fn admits_wants_a_misplaced_letter_at_a_free_place() {
    // 'a' is misplaced, and the only 'a' of the word stands at a confirmed
    // position: that occurrence does not count.
    let state = KnowledgeState {
        confirmed: [Some('a'), None, None, None, None],
        excluded_global: LetterSet::new(),
        excluded_at_position: [
            LetterSet::new(),
            LetterSet::from_letters(vec!['a']),
            LetterSet::new(),
            LetterSet::new(),
            LetterSet::new(),
        ],
    };
    assert_eq!(state.admits("abcde"), false);
    assert_eq!(state.admits("abade"), true);
    assert_eq!(state.admits("aacde"), false);
}

#[test]
fn filter_keeps_order_and_is_idempotent() {
    let mut state = KnowledgeState::new();
    state.apply(&translate("crane", "caper"), "crane");
    let words = vec!["caper", "crane", "cater", "taper", "cager", "ca", "caper"];
    let once = state.filter(words.clone());
    assert_eq!(once, vec!["caper", "cater", "cager", "caper"]);
    assert!(once.len() <= words.len());
    let twice = state.filter(once.clone());
    assert_eq!(twice, once);
    for word in &once {
        assert_eq!(word.chars().nth(0), Some('c'));
    }
}

#[test]
fn filter_with_no_knowledge_drops_only_short_words() {
    let state = KnowledgeState::new();
    assert_eq!(
        state.filter(vec!["abcde", "", "abcd", "abcdef", "zzzzz"]),
        vec!["abcde", "abcdef", "zzzzz"]
    );
}

#[test]
fn apply_does_not_depend_on_where_the_correct_letter_stands() {
    // The correct 'a' comes after the misplaced one.
    let mut later = KnowledgeState::new();
    let verdicts = [
        Verdict::Misplaced('a'),
        Verdict::Absent('x'),
        Verdict::Absent('x'),
        Verdict::Correct('a'),
        Verdict::Absent('x'),
    ];
    later.apply(&verdicts, "axxax");
    assert_eq!(later.confirmed, [None, None, None, Some('a'), None]);
    for position in 0..5 {
        assert_eq!(sorted(&later.excluded_at_position[position]), Vec::<char>::new());
    }
    // The correct 'a' comes before the misplaced one.
    let mut earlier = KnowledgeState::new();
    let verdicts = [
        Verdict::Correct('a'),
        Verdict::Absent('x'),
        Verdict::Absent('x'),
        Verdict::Misplaced('a'),
        Verdict::Absent('x'),
    ];
    earlier.apply(&verdicts, "axxax");
    assert_eq!(earlier.confirmed, [Some('a'), None, None, None, None]);
    for position in 0..5 {
        assert_eq!(sorted(&earlier.excluded_at_position[position]), Vec::<char>::new());
    }
    assert_eq!(sorted(&earlier.excluded_global), vec!['x']);
}
