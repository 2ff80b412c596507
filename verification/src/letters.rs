//! The case encoding of a letter's status.
//!
//! Feedback typed by a player marks a letter's status by its case: a letter in
//! the upper-case half of the code points stands for a letter in its right
//! place, one in the lower-case half for a letter that is present elsewhere.
//! The two halves lie `CASE_OFFSET` code points apart.

use vstd::prelude::*;

verus! {

/// The distance between the two cases of a letter, in code points.
pub const CASE_OFFSET: u32 = 32;

/// The greatest code point that counts as upper case, that of `'Z'`.
pub const LAST_UPPERCASE: u32 = 90;

/// Whether `code` is a Unicode scalar value, that is, the code point of some `char`.
pub open spec fn is_scalar_value(code: int) -> bool {
    0 <= code <= 0xD7FF || 0xE000 <= code <= 0x10FFFF
}

/// `char::from_u32`: gives the `char` whose code point is `code` when `code`
/// is a Unicode scalar value, and `None` when it is not.
#[verifier::external_body]
fn char_from_u32(code: u32) -> (r: Option<char>)
    ensures
        r == if is_scalar_value(code as int) {
            Some(code as char)
        } else {
            None
        },
{
    char::from_u32(code)
}

/// A letter counts as upper case when its code point is at most that of `'Z'`.
pub open spec fn uppercase(letter: char) -> bool {
    letter as int <= LAST_UPPERCASE as int
}

/// The letter `CASE_OFFSET` code points below `letter`; `letter` itself where
/// no `char` has that code point.
pub open spec fn upper_of(letter: char) -> char {
    if is_scalar_value(letter as int - CASE_OFFSET as int) {
        (letter as int - CASE_OFFSET as int) as char
    } else {
        letter
    }
}

/// The letter `CASE_OFFSET` code points above `letter`; `letter` itself where
/// no `char` has that code point.
pub open spec fn lower_of(letter: char) -> char {
    if is_scalar_value(letter as int + CASE_OFFSET as int) {
        (letter as int + CASE_OFFSET as int) as char
    } else {
        letter
    }
}

/// Checks whether a letter is upper case.
#[verifier::when_used_as_spec(uppercase)]
pub fn is_uppercase(letter: char) -> (b: bool)
    ensures
        b == uppercase(letter),
{
    letter as u32 <= LAST_UPPERCASE
}

/// Converts a lower-case letter to upper case.
#[verifier::when_used_as_spec(upper_of)]
pub fn to_uppercase(letter: char) -> (upper: char)
    ensures
        upper == upper_of(letter),
{
    let code = letter as u32;
    if code < CASE_OFFSET {
        return letter;
    }
    match char_from_u32(code - CASE_OFFSET) {
        Some(shifted) => shifted,
        None => letter,
    }
}

/// Converts an upper-case letter to lower case.
#[verifier::when_used_as_spec(lower_of)]
pub fn to_lowercase(letter: char) -> (lower: char)
    ensures
        lower == lower_of(letter),
{
    match char_from_u32(letter as u32 + CASE_OFFSET) {
        Some(shifted) => shifted,
        None => letter,
    }
}

/// Changing the case of an ASCII letter and changing it back gives the letter.
pub proof fn lemma_case_round_trip(letter: char)
    requires
        'A' <= letter <= 'Z' || 'a' <= letter <= 'z',
    ensures
        'A' <= letter <= 'Z' ==> upper_of(lower_of(letter)) == letter && !uppercase(
            lower_of(letter),
        ),
        'a' <= letter <= 'z' ==> lower_of(upper_of(letter)) == letter && uppercase(
            upper_of(letter),
        ),
{
}

} // verus!
