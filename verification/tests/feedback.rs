use wordle_solver::error::SolverError;
use wordle_solver::feedback::{decode_feedback, translate, Verdict};

#[test]
fn translate_own_word_is_all_correct() {
    assert_eq!(
        translate("crane", "crane"),
        [
            Verdict::Correct('c'),
            Verdict::Correct('r'),
            Verdict::Correct('a'),
            Verdict::Correct('n'),
            Verdict::Correct('e'),
        ]
    );
    assert_eq!(
        translate("LOLLY", "LOLLY"),
        [
            Verdict::Correct('L'),
            Verdict::Correct('O'),
            Verdict::Correct('L'),
            Verdict::Correct('L'),
            Verdict::Correct('Y'),
        ]
    );
}

#[test]
fn translate_credits_a_single_letter_once() {
    // "spool" holds one 'l': the first 'l' of the guess takes it.
    assert_eq!(
        translate("lolly", "spool"),
        [
            Verdict::Misplaced('l'),
            Verdict::Misplaced('o'),
            Verdict::Absent('l'),
            Verdict::Absent('l'),
            Verdict::Absent('y'),
        ]
    );
}

#[test]
fn translate_credits_a_double_letter_twice() {
    // "llama" holds two 'l': one is matched in place, one is left to credit.
    assert_eq!(
        translate("lolly", "llama"),
        [
            Verdict::Correct('l'),
            Verdict::Absent('o'),
            Verdict::Misplaced('l'),
            Verdict::Absent('l'),
            Verdict::Absent('y'),
        ]
    );
}

#[test]
fn translate_gives_correct_letters_priority() {
    // The only 'e' of "abbey" is matched in place by the second 'e' of the
    // guess, so the first 'e' has nothing left.
    assert_eq!(
        translate("eyrer", "abbey"),
        [
            Verdict::Absent('e'),
            Verdict::Misplaced('y'),
            Verdict::Absent('r'),
            Verdict::Correct('e'),
            Verdict::Absent('r'),
        ]
    );
}

#[test]
fn translate_with_no_common_letter_is_all_absent() {
    assert_eq!(
        translate("abcde", "fghij"),
        [
            Verdict::Absent('a'),
            Verdict::Absent('b'),
            Verdict::Absent('c'),
            Verdict::Absent('d'),
            Verdict::Absent('e'),
        ]
    );
}

#[test]
fn translate_reads_the_first_five_letters() {
    assert_eq!(
        translate("abcdef", "bacdxa"),
        [
            Verdict::Misplaced('a'),
            Verdict::Misplaced('b'),
            Verdict::Correct('c'),
            Verdict::Correct('d'),
            Verdict::Absent('e'),
        ]
    );
}

#[test]
fn decode_feedback_reads_case_and_marks() {
    assert_eq!(
        decode_feedback("HEART", ".aE.."),
        Ok([
            Verdict::Absent('H'),
            Verdict::Misplaced('A'),
            Verdict::Correct('E'),
            Verdict::Absent('R'),
            Verdict::Absent('T'),
        ])
    );
}

#[test]
fn decode_feedback_pads_short_text_with_absent() {
    assert_eq!(
        decode_feedback("HEART", "Hx"),
        Ok([
            Verdict::Correct('H'),
            Verdict::Misplaced('X'),
            Verdict::Absent('A'),
            Verdict::Absent('R'),
            Verdict::Absent('T'),
        ])
    );
    assert_eq!(
        decode_feedback("HEART", ""),
        Ok([
            Verdict::Absent('H'),
            Verdict::Absent('E'),
            Verdict::Absent('A'),
            Verdict::Absent('R'),
            Verdict::Absent('T'),
        ])
    );
}

#[test]
fn decode_feedback_takes_a_blank_for_absent() {
    assert_eq!(
        decode_feedback("HEART", "H A T"),
        Ok([
            Verdict::Correct('H'),
            Verdict::Absent('E'),
            Verdict::Correct('A'),
            Verdict::Absent('R'),
            Verdict::Correct('T'),
        ])
    );
}

#[test]
fn decode_feedback_refuses_long_text() {
    assert_eq!(decode_feedback("HEART", "HEARTS"), Err(SolverError::InvalidFeedback));
    assert_eq!(decode_feedback("HEART", "......"), Err(SolverError::InvalidFeedback));
}

#[test]
fn decode_feedback_counts_characters_not_bytes() {
    assert_eq!(
        decode_feedback("HEART", "\u{e9}\u{e9}\u{e9}\u{e9}\u{e9}"),
        Ok([
            Verdict::Misplaced('\u{c9}'),
            Verdict::Misplaced('\u{c9}'),
            Verdict::Misplaced('\u{c9}'),
            Verdict::Misplaced('\u{c9}'),
            Verdict::Misplaced('\u{c9}'),
        ])
    );
}
