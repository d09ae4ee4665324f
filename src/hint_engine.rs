//! Hint engine: maps a parse error message to an instructional hint.
use vstd::prelude::*;
use crate::text::{contains_text, occurs_in};

verus! {

pub const UNTERMINATED_GROUP_HINT: &'static str =
    "This group was opened with '(' but never closed. Add a matching ')' to close the group.";

pub const UNTERMINATED_CLASS_HINT: &'static str =
    "This character class was opened with '[' but never closed. Add a matching ']' to close the character class.";

pub const EMPTY_CLASS_HINT: &'static str =
    "Character classes must contain at least one item. Add characters, ranges, or escapes inside the brackets.";

pub const INVALID_FLAG_HINT: &'static str =
    "Valid flags are: i (case-insensitive), m (multiline), s (dotall), u (unicode), x (extended/free-spacing).";

pub const NO_LEFT_SIDE_HINT: &'static str =
    "An alternation '|' must have content on both sides. Remove the leading '|' or add content before it.";

pub const NO_RIGHT_SIDE_HINT: &'static str =
    "An alternation '|' must have content on both sides. Remove the trailing '|' or add content after it.";

pub const EMPTY_BRANCH_HINT: &'static str =
    "Each branch of an alternation must contain at least one item. Remove the extra '|' or add content between the pipes.";

pub const TRAILING_INPUT_HINT: &'static str =
    "There is unexpected content at the end of the pattern. Check for unmatched parentheses or other syntax errors.";

/// The hint for a message: the first category whose phrase the message
/// contains decides.
pub open spec fn hint_for(message: Seq<char>) -> Option<Seq<char>> {
    if occurs_in("Unterminated group"@, message) {
        Some(UNTERMINATED_GROUP_HINT@)
    } else if occurs_in("Unterminated character class"@, message) {
        Some(UNTERMINATED_CLASS_HINT@)
    } else if occurs_in("Empty character class"@, message) {
        Some(EMPTY_CLASS_HINT@)
    } else if occurs_in("Invalid flag"@, message) {
        Some(INVALID_FLAG_HINT@)
    } else if occurs_in("Alternation lacks left-hand side"@, message) {
        Some(NO_LEFT_SIDE_HINT@)
    } else if occurs_in("Alternation lacks right-hand side"@, message) {
        Some(NO_RIGHT_SIDE_HINT@)
    } else if occurs_in("Empty alternation branch"@, message) {
        Some(EMPTY_BRANCH_HINT@)
    } else if occurs_in("Unexpected trailing input"@, message) {
        Some(TRAILING_INPUT_HINT@)
    } else {
        None
    }
}

/// The characters of an optional hint.
pub open spec fn hint_chars(h: Option<String>) -> Option<Seq<char>> {
    match h {
        Some(s) => Some(s@),
        None => None,
    }
}

/// The instructional hint for an error message, if its category is known.
/// The source text and position do not change the choice.
pub fn get_hint(error_message: &str, text: &str, pos: usize) -> (r: Option<String>)
    ensures
        hint_chars(r) == hint_for(error_message@),
{
    if contains_text(error_message, "Unterminated group") {
        return Some(String::from_str(UNTERMINATED_GROUP_HINT));
    }
    if contains_text(error_message, "Unterminated character class") {
        return Some(String::from_str(UNTERMINATED_CLASS_HINT));
    }
    if contains_text(error_message, "Empty character class") {
        return Some(String::from_str(EMPTY_CLASS_HINT));
    }
    if contains_text(error_message, "Invalid flag") {
        return Some(String::from_str(INVALID_FLAG_HINT));
    }
    if contains_text(error_message, "Alternation lacks left-hand side") {
        return Some(String::from_str(NO_LEFT_SIDE_HINT));
    }
    if contains_text(error_message, "Alternation lacks right-hand side") {
        return Some(String::from_str(NO_RIGHT_SIDE_HINT));
    }
    if contains_text(error_message, "Empty alternation branch") {
        return Some(String::from_str(EMPTY_BRANCH_HINT));
    }
    if contains_text(error_message, "Unexpected trailing input") {
        return Some(String::from_str(TRAILING_INPUT_HINT));
    }
    None
}

} // verus!
