//! The shell's history: which of its records hold a command that can be
//! saved, and which of those is the command that the user ran last.
//!
//! A record is a line `: METADATA;COMMAND`. By the time the history is read
//! the shell has already recorded the invocation that reads it, so the
//! command that the user ran last is not the most recent command that can
//! be saved but the one before it.

use crate::error::HistoryError;
use crate::text::{
    begins_with, chars_of, contains, find, first_occurrence, includes, lemma_first_occurrence,
    lines, occurs_at, split_lines, starts_with, text_of, trim, trimmed, views,
};
use vstd::prelude::*;
use vstd::slice::{slice_subrange, slice_to_vec};

verus! {

/// The name of the shell's history file in the user's home directory.
pub const SHELL_HISTORY_FILE_NAME: &'static str = ".zsh_history";

/// How many of the most recent commands that can be saved are passed over:
/// the one that the shell recorded for the invocation that is running.
pub const SKIPPED_COMMANDS: usize = 1;

/// What a record begins with.
pub open spec fn record_marker() -> Seq<char> {
    seq![':', ' ']
}

/// What ends a record's metadata.
pub open spec fn field_separator() -> Seq<char> {
    seq![';']
}

/// What a command begins with that replays a saved command.
pub open spec fn replay_prefix() -> Seq<char> {
    seq!['r', ' ']
}

/// What a command holds that saves a command.
pub open spec fn self_invocation() -> Seq<char> {
    seq!['r', 'c', 'm', 'd', ' ', 's', 'a', 'v', 'e']
}

/// The command of the record `line`: what follows the first field
/// separator, trimmed. A line that does not begin with the record marker,
/// or holds no field separator, is no record.
pub open spec fn record_command(line: Seq<char>) -> Option<Seq<char>> {
    if starts_with(line, record_marker()) {
        match first_occurrence(line, field_separator()) {
            Some(i) => Some(trim(line.subrange(i + 1, line.len() as int))),
            None => None,
        }
    } else {
        None
    }
}

/// Whether `command` can be saved: it neither replays a saved command nor
/// saves one.
pub open spec fn eligible(command: Seq<char>) -> bool {
    !starts_with(command, replay_prefix()) && !contains(command, self_invocation())
}

/// The command of the record `line`, where it is one that can be saved.
pub open spec fn candidate(line: Seq<char>) -> Option<Seq<char>> {
    match record_command(line) {
        Some(command) => if eligible(command) {
            Some(command)
        } else {
            None
        },
        None => None,
    }
}

/// The commands among `ls` that can be saved, the most recent first; `ls`
/// holds the most recent last.
pub open spec fn candidates(ls: Seq<Seq<char>>) -> Seq<Seq<char>>
    decreases ls.len(),
{
    if ls.len() == 0 {
        Seq::empty()
    } else {
        match candidate(ls.last()) {
            Some(command) => seq![command] + candidates(ls.drop_last()),
            None => candidates(ls.drop_last()),
        }
    }
}

/// The command that the user ran last, by the history `history`: of the
/// commands that can be saved, the one after those that are passed over.
pub open spec fn previous_command(history: Seq<char>) -> Option<Seq<char>> {
    let found = candidates(lines(history));
    if found.len() > SKIPPED_COMMANDS {
        Some(found[SKIPPED_COMMANDS as int])
    } else {
        None
    }
}

/// The command of the record with the characters `line`, where it is one
/// that can be saved.
pub fn candidate_of(line: &[char]) -> (r: Option<Vec<char>>)
    ensures
        match r {
            Some(command) => candidate(line@) == Some(command@),
            None => candidate(line@) is None,
        },
{
    let marker: Vec<char> = vec![':', ' '];
    let separator: Vec<char> = vec![';'];
    let replay: Vec<char> = vec!['r', ' '];
    let own: Vec<char> = vec!['r', 'c', 'm', 'd', ' ', 's', 'a', 'v', 'e'];
    assert(marker@ == record_marker());
    assert(separator@ == field_separator());
    assert(replay@ == replay_prefix());
    assert(own@ == self_invocation());
    if !begins_with(line, marker.as_slice()) {
        return None;
    }
    proof {
        lemma_first_occurrence(line@, field_separator());
    }
    match find(line, separator.as_slice()) {
        Some(i) => {
            assert(occurs_at(line@, field_separator(), i as int));
            assert(i + 1 <= line.len());
            let command = trimmed(slice_subrange(line, i + 1, line.len()));
            if begins_with(command, replay.as_slice()) || includes(command, own.as_slice()) {
                None
            } else {
                Some(slice_to_vec(command))
            }
        },
        None => None,
    }
}

/// The command that the user ran last, by the text `history` of the shell's
/// history.
pub fn last_valid_command(history: &str) -> (r: Result<String, HistoryError>)
    ensures
        match r {
            Ok(command) => previous_command(history@) == Some(command@),
            Err(e) => previous_command(history@) is None && e == HistoryError::NoPreviousCommand,
        },
{
    let chars = chars_of(history);
    let ls = split_lines(chars.as_slice());
    let ghost all = views(ls@);
    let ghost mut found: Seq<Seq<char>> = Seq::empty();
    let mut seen: usize = 0;
    let mut i: usize = ls.len();
    assert(all.subrange(0, i as int) == all);
    while i > 0
        invariant
            i <= ls@.len(),
            all == views(ls@),
            all == lines(history@),
            found.len() == seen <= SKIPPED_COMMANDS,
            candidates(all) == found + candidates(all.subrange(0, i as int)),
        decreases i,
    {
        i -= 1;
        proof {
            let part = all.subrange(0, i + 1);
            assert(part.last() == ls@[i as int]@);
            assert(part.drop_last() == all.subrange(0, i as int));
        }
        match candidate_of(ls[i].as_slice()) {
            Some(command) => {
                let ghost rest = candidates(all.subrange(0, i as int));
                assert(candidates(all) == found + (seq![command@] + rest));
                if seen == SKIPPED_COMMANDS {
                    assert(candidates(all).len() > SKIPPED_COMMANDS);
                    assert(candidates(all)[SKIPPED_COMMANDS as int] == command@);
                    return Ok(text_of(command.as_slice()));
                }
                seen += 1;
                proof {
                    found = found.push(command@);
                }
                assert(candidates(all) == found + rest);
            },
            None => {},
        }
    }
    assert(candidates(all) == found);
    Err(HistoryError::NoPreviousCommand)
}

} // verus!
