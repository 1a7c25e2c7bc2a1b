//! The actions of the command line: what each prints, what it does to the
//! log, and what it hands to the command interpreter.
//!
//! An action reads the store once and rewrites it at most once. The caller
//! reads the store and the shell's history, and carries out the outcome.

use crate::entry::{entry_for, Entry, EntryView};
use crate::error::HistoryError;
use crate::shell::{last_valid_command, previous_command};
use crate::store::{
    append_if_new, holds_line, in_range, keeps_line, law_appended_is_found_again, parse_log,
    remove_at, render_log, HistoryLog,
};
use crate::text::{
    append, chars_of, contains, decimal, includes, lemma_trim, push_decimal, push_right_aligned,
    right_aligned, text_of, texts,
};
use vstd::prelude::*;

verus! {

/// How wide the position is that stands before a line that is printed.
pub const LABEL_WIDTH: usize = 2;

/// What the user asks for.
#[derive(Debug)]
pub enum Action {
    /// Save the command that the user ran last, with a tag or without.
    Save { tag: Option<String> },
    /// Print the entries of the log.
    List,
    /// Print the entries whose line holds `text`.
    Grep { text: String },
    /// Run the command of the entry at the position `index`.
    Exec { index: usize },
    /// Remove the entry at the position `index`.
    Rm { index: usize },
    /// Print the command of the entry at the position `index`.
    Print { index: usize },
}

/// What an action comes to.
pub ghost struct OutcomeView {
    /// The lines for the standard output.
    pub output: Seq<Seq<char>>,
    /// The new text of the store, where it has to be rewritten.
    pub store: Option<Seq<char>>,
    /// The command to hand to the command interpreter.
    pub run: Option<Seq<char>>,
}

/// What an action comes to: what the caller has to print, to write and to
/// run.
#[derive(Debug)]
pub struct Outcome {
    /// The lines for the standard output.
    pub output: Vec<String>,
    /// The new text of the store, where it has to be rewritten.
    pub store: Option<String>,
    /// The command to hand to the command interpreter.
    pub run: Option<String>,
}

/// The text of a string that may be missing.
pub open spec fn text_or_none(s: Option<String>) -> Option<Seq<char>> {
    match s {
        Some(t) => Some(t@),
        None => None,
    }
}

impl View for Outcome {
    type V = OutcomeView;

    open spec fn view(&self) -> OutcomeView {
        OutcomeView {
            output: texts(self.output@),
            store: text_or_none(self.store),
            run: text_or_none(self.run),
        }
    }
}

/// The text of a tag that may be missing: without a tag, the empty text.
pub open spec fn tag_text(tag: Option<String>) -> Seq<char> {
    match tag {
        Some(t) => t@,
        None => Seq::empty(),
    }
}

/// The position `position` as it stands before a line that is printed.
pub open spec fn label(position: nat) -> Seq<char> {
    right_aligned(decimal(position), LABEL_WIDTH as nat) + ": "@
}

/// The line that `List` prints for the entry `e` at the position
/// `position`.
pub open spec fn list_line(position: nat, e: EntryView) -> Seq<char> {
    if e.tag.len() == 0 {
        label(position) + e.command
    } else {
        label(position) + e.command + " [tag: "@ + e.tag + "]"@
    }
}

/// The line that `Grep` prints for the entry `e` at the position
/// `position`.
pub open spec fn grep_line(position: nat, e: EntryView) -> Seq<char> {
    label(position) + e.line()
}

/// What `List` prints: a line for each entry, in order.
pub open spec fn listing(log: Seq<EntryView>) -> Seq<Seq<char>> {
    Seq::new(log.len(), |i: int| list_line((i + 1) as nat, log[i]))
}

/// What `Grep` prints: a line for each entry whose line holds `pattern`, in
/// order, each with the position of the entry in the whole log.
pub open spec fn matching(log: Seq<EntryView>, pattern: Seq<char>) -> Seq<Seq<char>>
    decreases log.len(),
{
    if log.len() == 0 {
        Seq::empty()
    } else {
        let before = matching(log.drop_last(), pattern);
        if contains(log.last().line(), pattern) {
            before.push(grep_line(log.len(), log.last()))
        } else {
            before
        }
    }
}

/// The outcome that prints nothing, writes nothing and runs nothing.
pub open spec fn quiet() -> OutcomeView {
    OutcomeView { output: Seq::empty(), store: None, run: None }
}

/// What saving comes to, with the log `log`, the shell's history `history`
/// and the tag `tag`.
pub open spec fn save_outcome(log: Seq<EntryView>, history: Seq<char>, tag: Seq<char>) -> Result<
    OutcomeView,
    HistoryError,
> {
    match previous_command(history) {
        Some(command) => {
            let e = entry_for(command, tag);
            if holds_line(log, e.line()) {
                Ok(quiet())
            } else {
                Ok(OutcomeView { store: Some(render_log(log.push(e))), ..quiet() })
            }
        },
        None => Err(HistoryError::NoPreviousCommand),
    }
}

/// What `action` comes to, with the store's text `store` and the shell's
/// history `history`. Without an action the command that the user ran last
/// is saved without a tag.
pub open spec fn outcome(action: Option<Action>, store: Seq<char>, history: Seq<char>) -> Result<
    OutcomeView,
    HistoryError,
> {
    let log = parse_log(store);
    match action {
        None => save_outcome(log, history, Seq::empty()),
        Some(Action::Save { tag }) => save_outcome(log, history, tag_text(tag)),
        Some(Action::List) => Ok(OutcomeView { output: listing(log), ..quiet() }),
        Some(Action::Grep { text }) => Ok(OutcomeView { output: matching(log, text@), ..quiet() }),
        Some(Action::Exec { index }) => if in_range(log, index as int) {
            Ok(OutcomeView { run: Some(log[index - 1].command), ..quiet() })
        } else {
            Err(HistoryError::NotFound { index })
        },
        Some(Action::Rm { index }) => if in_range(log, index as int) {
            Ok(OutcomeView { store: Some(render_log(remove_at(log, index as int))), ..quiet() })
        } else {
            Err(HistoryError::InvalidIndex)
        },
        Some(Action::Print { index }) => if in_range(log, index as int) {
            Ok(OutcomeView { output: seq![log[index - 1].command], ..quiet() })
        } else {
            Err(HistoryError::NotFound { index })
        },
    }
}

/// The status with which the invocation ends after the command interpreter
/// has run a command: 0 where the command succeeded, else the command's own
/// status, or 1 where it has none.
pub open spec fn status_after(success: bool, code: Option<i32>) -> i32 {
    if success {
        0
    } else {
        match code {
            Some(c) => c,
            None => 1,
        }
    }
}

/// Saving twice in succession appends once: where a save has rewritten the
/// store, a second save with the same history and tag, on the text that
/// the first has written, writes nothing. This holds where the store's
/// text gives the line of the saved entry back.
pub proof fn law_save_twice(store: Seq<char>, history: Seq<char>, tag: Seq<char>)
    requires
        previous_command(history) matches Some(command) && keeps_line(entry_for(command, tag)),
    ensures
        match save_outcome(parse_log(store), history, tag) {
            Ok(first) => match first.store {
                Some(text) => save_outcome(parse_log(text), history, tag) == Ok::<
                    OutcomeView,
                    HistoryError,
                >(quiet()),
                None => first == quiet(),
            },
            Err(_) => false,
        },
{
    let command = previous_command(history)->0;
    let e = entry_for(command, tag);
    lemma_trim(command);
    lemma_trim(tag);
    law_appended_is_found_again(store, e);
}

/// An action that only reads the log does not rewrite the store.
pub proof fn law_readers_write_nothing(action: Action, store: Seq<char>, history: Seq<char>)
    requires
        action is List || action is Grep || action is Exec || action is Print,
    ensures
        outcome(Some(action), store, history) matches Ok(o) ==> o.store is None,
{
}

/// Puts the label for `position` at the end of `out`.
fn push_label(out: &mut Vec<char>, position: usize)
    ensures
        final(out)@ == old(out)@ + label(position as nat),
{
    let mut digits: Vec<char> = Vec::new();
    push_decimal(&mut digits, position);
    push_right_aligned(out, digits.as_slice(), LABEL_WIDTH);
    let colon = chars_of(": ");
    append(out, colon.as_slice());
}

/// Saves the command that the user ran last, by the shell's history
/// `history`, with the tag `tag`, and tells whether the log has changed.
pub fn save_command(log: &mut HistoryLog, history: &str, tag: Option<String>) -> (r: Result<
    bool,
    HistoryError,
>)
    ensures
        match previous_command(history@) {
            Some(command) => {
                let e = entry_for(command, tag_text(tag));
                &&& r == Ok::<bool, HistoryError>(!holds_line(old(log)@, e.line()))
                &&& final(log)@ == append_if_new(old(log)@, e)
            },
            None => {
                &&& r == Err::<bool, HistoryError>(HistoryError::NoPreviousCommand)
                &&& final(log)@ == old(log)@
            },
        },
{
    match last_valid_command(history) {
        Ok(command) => {
            let candidate = match tag {
                Some(t) => Entry::new(command.as_str(), t.as_str()),
                None => Entry::new(command.as_str(), ""),
            };
            assert(""@ == Seq::<char>::empty()) by {
                reveal_strlit("");
            }
            Ok(log.append_if_new(candidate))
        },
        Err(e) => Err(e),
    }
}

/// The lines that `List` prints.
pub fn list_commands(log: &HistoryLog) -> (out: Vec<String>)
    ensures
        texts(out@) == listing(log@),
{
    let mut out: Vec<String> = Vec::new();
    let mut i: usize = 0;
    while i < log.entries.len()
        invariant
            i <= log@.len(),
            log@.len() == log.entries@.len(),
            out@.len() == i,
            forall|k: int| 0 <= k < i ==> (#[trigger] out@[k])@ == list_line((k + 1) as nat, log@[k]),
        decreases log.entries.len() - i,
    {
        let e = &log.entries[i];
        let mut head: Vec<char> = Vec::new();
        push_label(&mut head, i + 1);
        let mut line = text_of(head.as_slice());
        line.append(e.command.as_str());
        if !e.tag.as_str().is_empty() {
            line.append(" [tag: ");
            line.append(e.tag.as_str());
            line.append("]");
        }
        assert(line@ == list_line((i + 1) as nat, log@[i as int]));
        out.push(line);
        i += 1;
    }
    out
}

/// The lines that `Grep` prints for `pattern`.
pub fn grep_commands(log: &HistoryLog, pattern: &str) -> (out: Vec<String>)
    ensures
        texts(out@) == matching(log@, pattern@),
{
    let pat = chars_of(pattern);
    let mut out: Vec<String> = Vec::new();
    let mut i: usize = 0;
    assert(log@.subrange(0, 0) == Seq::<EntryView>::empty());
    while i < log.entries.len()
        invariant
            i <= log@.len(),
            log@.len() == log.entries@.len(),
            pat@ == pattern@,
            texts(out@) == matching(log@.subrange(0, i as int), pattern@),
        decreases log.entries.len() - i,
    {
        let line = log.entries[i].serialize();
        let chars = chars_of(line.as_str());
        proof {
            let part = log@.subrange(0, i + 1);
            assert(part.drop_last() == log@.subrange(0, i as int));
            assert(part.last() == log@[i as int]);
        }
        let ghost before = texts(out@);
        if includes(chars.as_slice(), pat.as_slice()) {
            let mut head: Vec<char> = Vec::new();
            push_label(&mut head, i + 1);
            append(&mut head, chars.as_slice());
            out.push(text_of(head.as_slice()));
            assert(texts(out@) == before.push(grep_line((i + 1) as nat, log@[i as int])));
        }
        i += 1;
    }
    assert(log@.subrange(0, log@.len() as int) == log@);
    out
}

/// The command that `Exec` hands to the command interpreter: that of the
/// entry at the position `index`, without its tag.
pub fn exec_command(log: &HistoryLog, index: usize) -> (r: Result<String, HistoryError>)
    ensures
        match r {
            Ok(command) => in_range(log@, index as int) && command@ == log@[index - 1].command,
            Err(e) => !in_range(log@, index as int) && e == (HistoryError::NotFound { index }),
        },
{
    match log.get_at(index) {
        Ok(e) => Ok(e.command.clone()),
        Err(e) => Err(e),
    }
}

/// The status with which the invocation ends after the command interpreter
/// has run a command.
pub fn exit_status(success: bool, code: Option<i32>) -> (status: i32)
    ensures
        status == status_after(success, code),
{
    if success {
        0
    } else {
        match code {
            Some(c) => c,
            None => 1,
        }
    }
}

/// Removes the entry at the position `index`.
pub fn remove_command(log: &mut HistoryLog, index: usize) -> (r: Result<(), HistoryError>)
    ensures
        in_range(old(log)@, index as int) ==> r is Ok && final(log)@ == remove_at(
            old(log)@,
            index as int,
        ),
        !in_range(old(log)@, index as int) ==> r == Err::<(), HistoryError>(
            HistoryError::InvalidIndex,
        ) && final(log)@ == old(log)@,
{
    log.remove_at(index)
}

/// The text that `Print` prints: the command of the entry at the position
/// `index`, without its tag.
pub fn print_command(log: &HistoryLog, index: usize) -> (r: Result<String, HistoryError>)
    ensures
        match r {
            Ok(command) => in_range(log@, index as int) && command@ == log@[index - 1].command,
            Err(e) => !in_range(log@, index as int) && e == (HistoryError::NotFound { index }),
        },
{
    match log.get_at(index) {
        Ok(e) => Ok(e.command.clone()),
        Err(e) => Err(e),
    }
}

impl Outcome {
    /// The outcome that prints nothing, writes nothing and runs nothing.
    pub fn new() -> (o: Outcome)
        ensures
            o@ == quiet(),
    {
        let o = Outcome { output: Vec::new(), store: None, run: None };
        assert(o@.output == Seq::<Seq<char>>::empty());
        o
    }
}

/// What `action` comes to, with the store's text `store` and the shell's
/// history `history`.
pub fn route(action: Option<Action>, store: &str, history: &str) -> (r: Result<
    Outcome,
    HistoryError,
>)
    ensures
        match r {
            Ok(o) => outcome(action, store@, history@) == Ok::<OutcomeView, HistoryError>(o@),
            Err(e) => outcome(action, store@, history@) == Err::<OutcomeView, HistoryError>(e),
        },
{
    let mut log = HistoryLog::load(store);
    let mut o = Outcome::new();
    let chosen = match action {
        Some(a) => a,
        None => Action::Save { tag: None },
    };
    match chosen {
        Action::Save { tag } => {
            if save_command(&mut log, history, tag)? {
                o.store = Some(log.save());
            }
        },
        Action::List => {
            o.output = list_commands(&log);
        },
        Action::Grep { text } => {
            o.output = grep_commands(&log, text.as_str());
        },
        Action::Exec { index } => {
            o.run = Some(exec_command(&log, index)?);
        },
        Action::Rm { index } => {
            remove_command(&mut log, index)?;
            o.store = Some(log.save());
        },
        Action::Print { index } => {
            let command = print_command(&log, index)?;
            o.output.push(command);
            assert(o@.output == seq![command@]);
        },
    }
    Ok(o)
}

} // verus!
