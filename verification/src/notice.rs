//! The lines that the tool says to its operator.

use vstd::prelude::*;
use vstd::string::*;
use crate::chart::NUM_FILES_SHOWN;
use crate::session::Reply;
use crate::size::{readable_size, to_readable_size};
use crate::text::{decimal, push_decimal};

verus! {

/// The line that says where the search goes.
pub open spec fn searching_text(path: Seq<char>) -> Seq<char> {
    "\nSearching for files in "@ + path + " ...\n"@
}

/// The line that gives the size of the tree.
pub open spec fn total_size_text(total: nat) -> Seq<char> {
    "\nTotal size: "@ + readable_size(total) + "\n"@
}

/// The line that tells of a threshold of `days` days on the time that
/// `name` names.
pub open spec fn filter_text(name: Seq<char>, days: nat) -> Seq<char> {
    "Only showing files that were "@ + name + " at least "@ + decimal(days) + " days ago."@
}

/// The line that tells of a threshold, where there is one to tell of.
pub open spec fn filter_line(name: Seq<char>, days: nat) -> Option<Seq<char>> {
    if days > 0 {
        Some(filter_text(name, days))
    } else {
        None
    }
}

/// The question whether the file at `path` is to be deleted.
pub open spec fn deletion_question(path: Seq<char>) -> Seq<char> {
    "Delete file "@ + path + "? y/N: "@
}

/// The lines that explain what the operator may type.
pub open spec fn page_prompt_text() -> Seq<char> {
    "\nTop "@ + decimal(NUM_FILES_SHOWN as nat)
        + " filesizes are shown above. Enter a number to delete, type n to show the next "@
        + decimal(NUM_FILES_SHOWN as nat) + " files or q to quit.\nInput: "@
}

/// What is said when the session ends because nothing is left.
pub open spec fn exhausted_text() -> Seq<char> {
    "No files left, quitting.\n"@
}

/// What is said in answer to `reply`, where anything is said: a reply that
/// changes the page or ends the session at the operator's wish passes in
/// silence, and a deletion that was declined gets an empty line.
pub open spec fn reply_text(reply: Reply) -> Option<Seq<char>> {
    match reply {
        Reply::NoFilesLeft => Some("\nNo files left, quitting.\n"@),
        Reply::InvalidChoice => Some("Invalid choice\n"@),
        Reply::NotANumber => Some("Not a valid number\n"@),
        Reply::DeletionFailed => Some("Couldn't delete file\n"@),
        Reply::Deleted => Some("File deleted\n"@),
        Reply::Declined => Some(""@),
        _ => None,
    }
}

/// Whether `reply` reports something that went wrong.
pub open spec fn is_complaint(reply: Reply) -> bool {
    reply == Reply::InvalidChoice || reply == Reply::NotANumber || reply == Reply::DeletionFailed
}

/// Writes the line that says where the search goes.
pub fn searching_line(path: &str) -> (line: String)
    ensures
        line@ == searching_text(path@),
{
    let mut line = String::new();
    line.append("\nSearching for files in ");
    line.append(path);
    line.append(" ...\n");
    assert(line@ =~= searching_text(path@));
    line
}

/// Writes the line that gives the size of the tree.
pub fn total_size_line(total_size: u64) -> (line: String)
    ensures
        line@ == total_size_text(total_size as nat),
{
    let mut line = String::new();
    line.append("\nTotal size: ");
    let size = to_readable_size(total_size);
    line.append(size.as_str());
    line.append("\n");
    assert(line@ =~= total_size_text(total_size as nat));
    line
}

/// Writes the line that tells of a threshold on the time that `name` names;
/// a threshold of no days is not spoken of.
pub fn filter_notice(name: &str, days: u64) -> (line: Option<String>)
    ensures
        match line {
            Some(text) => Some(text@),
            None => None,
        } == filter_line(name@, days as nat),
{
    if days > 0 {
        let mut line = String::new();
        line.append("Only showing files that were ");
        line.append(name);
        line.append(" at least ");
        push_decimal(&mut line, days);
        line.append(" days ago.");
        assert(line@ =~= filter_text(name@, days as nat));
        Some(line)
    } else {
        None
    }
}

/// Writes the question whether the file at `path` is to be deleted.
pub fn deletion_prompt(path: &str) -> (line: String)
    ensures
        line@ == deletion_question(path@),
{
    let mut line = String::new();
    line.append("Delete file ");
    line.append(path);
    line.append("? y/N: ");
    assert(line@ =~= deletion_question(path@));
    line
}

/// Writes the lines that explain what the operator may type.
pub fn page_prompt() -> (line: String)
    ensures
        line@ == page_prompt_text(),
{
    let mut line = String::new();
    line.append("\nTop ");
    push_decimal(&mut line, NUM_FILES_SHOWN as u64);
    line.append(" filesizes are shown above. Enter a number to delete, type n to show the next ");
    push_decimal(&mut line, NUM_FILES_SHOWN as u64);
    line.append(" files or q to quit.\nInput: ");
    assert(line@ =~= page_prompt_text());
    line
}

/// What is said when the session ends because nothing is left.
pub fn exhausted_line() -> (line: &'static str)
    ensures
        line@ == exhausted_text(),
{
    "No files left, quitting.\n"
}

/// What is said in answer to `reply`, where anything is said.
pub fn reply_line(reply: Reply) -> (line: Option<&'static str>)
    ensures
        match line {
            Some(text) => Some(text@),
            None => None,
        } == reply_text(reply),
{
    match reply {
        Reply::NoFilesLeft => Some("\nNo files left, quitting.\n"),
        Reply::InvalidChoice => Some("Invalid choice\n"),
        Reply::NotANumber => Some("Not a valid number\n"),
        Reply::DeletionFailed => Some("Couldn't delete file\n"),
        Reply::Deleted => Some("File deleted\n"),
        Reply::Declined => Some(""),
        _ => None,
    }
}

/// Tells whether `reply` reports something that went wrong.
pub fn reply_is_complaint(reply: Reply) -> (complaint: bool)
    ensures
        complaint == is_complaint(reply),
{
    match reply {
        Reply::InvalidChoice => true,
        Reply::NotANumber => true,
        Reply::DeletionFailed => true,
        _ => false,
    }
}

} // verus!
