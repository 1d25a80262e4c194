//! What the operator types.
//!
//! A line is read without the blank space at its ends and without regard
//! to the case of its letters: `n` asks for the next page, `q` ends the
//! session, and a number names a slot of the page to delete.

use vstd::prelude::*;
use crate::text::{parse_number, parsed_number, trimmed, trimmed_chars};

verus! {

/// One command of the operator.
#[derive(Clone, Copy, Debug, PartialEq, Eq)]
pub enum Command {
    /// Show the next page.
    NextPage,
    /// End the session.
    Quit,
    /// Delete the file in the slot of this number, counted from one.
    Delete(usize),
    /// Anything else: the line is no command.
    Unrecognized,
}

/// Whether `text` is the single letter `lower` or `upper`.
pub open spec fn is_letter(text: Seq<char>, lower: char, upper: char) -> bool {
    text.len() == 1 && (text[0] == lower || text[0] == upper)
}

/// The command that `line` gives.
pub open spec fn command_of(line: Seq<char>) -> Command {
    let word = trimmed(line);
    if is_letter(word, 'n', 'N') {
        Command::NextPage
    } else if is_letter(word, 'q', 'Q') {
        Command::Quit
    } else {
        match parsed_number(word, usize::MAX as nat) {
            Ok(number) => Command::Delete(number as usize),
            Err(_) => Command::Unrecognized,
        }
    }
}

/// Whether `answer` agrees to a deletion: `y`, in either case, with blank
/// space around it or not. Everything else declines.
pub open spec fn agrees(answer: Seq<char>) -> bool {
    is_letter(trimmed(answer), 'y', 'Y')
}

/// Tells whether `word` is the single letter `lower` or `upper`.
fn word_is_letter(word: &Vec<char>, lower: char, upper: char) -> (same: bool)
    ensures
        same == is_letter(word@, lower, upper),
{
    word.len() == 1 && (word[0] == lower || word[0] == upper)
}

/// Reads one line of the operator as a command.
pub fn parse_command(line: &str) -> (command: Command)
    ensures
        command == command_of(line@),
{
    let word = trimmed_chars(line);
    if word_is_letter(&word, 'n', 'N') {
        Command::NextPage
    } else if word_is_letter(&word, 'q', 'Q') {
        Command::Quit
    } else {
        match parse_number(&word, usize::MAX as u64) {
            Ok(number) => Command::Delete(number as usize),
            Err(_) => Command::Unrecognized,
        }
    }
}

/// Reads the operator's answer to the question whether a file is to be
/// deleted.
pub fn confirms_deletion(answer: &str) -> (agreed: bool)
    ensures
        agreed == agrees(answer@),
{
    let word = trimmed_chars(answer);
    word_is_letter(&word, 'y', 'Y')
}

} // verus!
