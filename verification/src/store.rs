//! The log of saved entries: an ordered sequence, one entry on each line of
//! the store's text, in the order in which they were saved.

use crate::entry::{
    joiner, law_line_round_trip, law_parse_canonical, separator, Entry, EntryView,
};
use crate::error::HistoryError;
use crate::text::{
    chars_of, contains, first_occurrence, is_first_occurrence, lemma_char_in_concat,
    lemma_contains_in_part, lemma_contains_in_trim, lemma_first_occurrence,
    lemma_lines_hold_no_feed, line_feed, lines, occurs_at, split_lines, views, without_return,
};
use vstd::prelude::*;

verus! {

/// The name of the store's file in the user's home directory.
pub const STORE_FILE_NAME: &'static str = ".my_saved_history";

/// The entries that the lines `ls` stand for, in order.
pub open spec fn entries_of(ls: Seq<Seq<char>>) -> Seq<EntryView> {
    Seq::new(ls.len(), |i: int| EntryView::parse(ls[i]))
}

/// The log that the store's text holds.
pub open spec fn parse_log(text: Seq<char>) -> Seq<EntryView> {
    entries_of(lines(text))
}

/// The store's text for a log: the line of each entry, each followed by a
/// line feed.
pub open spec fn render_log(log: Seq<EntryView>) -> Seq<char>
    decreases log.len(),
{
    if log.len() == 0 {
        Seq::empty()
    } else {
        log.first().line() + line_feed() + render_log(log.drop_first())
    }
}

/// Whether some entry of the log has the line `line`.
pub open spec fn holds_line(log: Seq<EntryView>, line: Seq<char>) -> bool {
    exists|i: int| 0 <= i < log.len() && (#[trigger] log[i]).line() == line
}

/// The log with `e` at its end, unless an entry with the same line is there
/// already.
pub open spec fn append_if_new(log: Seq<EntryView>, e: EntryView) -> Seq<EntryView> {
    if holds_line(log, e.line()) {
        log
    } else {
        log.push(e)
    }
}

/// Whether the log has an entry at the position `index`, counted from 1.
pub open spec fn in_range(log: Seq<EntryView>, index: int) -> bool {
    1 <= index <= log.len()
}

/// The log without the entry at the position `index`, counted from 1.
pub open spec fn remove_at(log: Seq<EntryView>, index: int) -> Seq<EntryView> {
    log.remove(index - 1)
}

/// Whether the store's text can hold the entry: it is canonical and its
/// line holds no line feed.
pub open spec fn storable(e: EntryView) -> bool {
    e.canonical() && !contains(e.line(), line_feed())
}

/// The text of a log with one more entry is the text of the log, then the
/// line of the entry, then a line feed.
pub proof fn lemma_render_push(log: Seq<EntryView>, e: EntryView)
    ensures
        render_log(log.push(e)) == render_log(log) + e.line() + line_feed(),
    decreases log.len(),
{
    if log.len() == 0 {
        assert(log.push(e).drop_first() == log);
        assert(render_log(log.push(e)) == e.line() + line_feed() + render_log(log));
    } else {
        lemma_render_push(log.drop_first(), e);
        assert(log.push(e).drop_first() == log.drop_first().push(e));
        assert(log.push(e).first() == log.first());
        assert(render_log(log.push(e)) == log.first().line() + line_feed() + (render_log(
            log.drop_first(),
        ) + e.line() + line_feed()));
    }
}

/// Saving a second time what was just saved changes nothing.
pub proof fn law_append_idempotent(log: Seq<EntryView>, e: EntryView)
    ensures
        append_if_new(append_if_new(log, e), e) == append_if_new(log, e),
{
    if !holds_line(log, e.line()) {
        let next = log.push(e);
        assert(next[log.len() as int].line() == e.line());
    }
}

/// An entry is appended at most once, and nothing that was in the log
/// moves or leaves.
pub proof fn law_append_keeps(log: Seq<EntryView>, e: EntryView)
    ensures
        log.len() <= append_if_new(log, e).len() <= log.len() + 1,
        append_if_new(log, e).subrange(0, log.len() as int) == log,
        holds_line(append_if_new(log, e), e.line()),
{
    let next = append_if_new(log, e);
    if !holds_line(log, e.line()) {
        assert(next[log.len() as int].line() == e.line());
    } else {
        let i = choose|i: int| 0 <= i < log.len() && (#[trigger] log[i]).line() == e.line();
        assert(next[i].line() == e.line());
    }
}

/// After the entry at `index` is removed the log is shorter by one, the
/// entries before `index` stand where they stood, and each entry after it
/// stands one position earlier.
pub proof fn law_remove_shifts(log: Seq<EntryView>, index: int)
    requires
        in_range(log, index),
    ensures
        remove_at(log, index).len() == log.len() - 1,
        forall|p: int| 1 <= p < index ==> #[trigger] remove_at(log, index)[p - 1] == log[p - 1],
        forall|p: int|
            index <= p < log.len() ==> #[trigger] remove_at(log, index)[p - 1] == log[p],
{
}

/// Whether the store's text gives the line of `e` back: the line holds no
/// line feed, and the entry that it stands for has the same line.
pub open spec fn keeps_line(e: EntryView) -> bool {
    !contains(e.line(), line_feed()) && EntryView::parse(e.line()).line() == e.line()
}

/// The line of a trimmed entry does not end with a carriage return.
pub proof fn lemma_line_without_return(e: EntryView)
    requires
        e.trimmed(),
    ensures
        without_return(e.line()) == e.line(),
{
    let l = e.line();
    if e.tag.len() > 0 {
        assert(l.last() == e.tag.last());
    }
}

/// The lines of a log's text are the lines of its entries, where the
/// entries are trimmed and no line holds a line feed.
pub proof fn lemma_lines_of_render(log: Seq<EntryView>)
    requires
        forall|i: int|
            0 <= i < log.len() ==> (#[trigger] log[i]).trimmed() && !contains(
                log[i].line(),
                line_feed(),
            ),
    ensures
        lines(render_log(log)) == Seq::new(log.len(), |i: int| log[i].line()),
    decreases log.len(),
{
    if log.len() > 0 {
        let e = log.first();
        let rest = log.drop_first();
        let text = render_log(log);
        let n = e.line().len() as int;
        assert(log[0].trimmed());
        assert forall|i: int| 0 <= i < rest.len() implies (#[trigger] rest[i]).trimmed()
            && !contains(rest[i].line(), line_feed()) by {
            assert(rest[i] == log[i + 1]);
        }
        lemma_lines_of_render(rest);
        lemma_line_without_return(e);
        assert(text.subrange(n, n + 1) == line_feed());
        assert forall|j: int| 0 <= j < n implies !occurs_at(text, line_feed(), j) by {
            if occurs_at(text, line_feed(), j) {
                assert(text.subrange(j, j + 1)[0] == '\n');
                assert(e.line().subrange(j, j + 1) == line_feed());
                assert(occurs_at(e.line(), line_feed(), j));
            }
        }
        assert(is_first_occurrence(text, line_feed(), n));
        lemma_first_occurrence(text, line_feed());
        assert(text.subrange(0, n) == e.line());
        assert(text.subrange(n + 1, text.len() as int) == render_log(rest));
        assert(lines(text) == seq![e.line()] + lines(render_log(rest)));
        assert(lines(text) == Seq::new(log.len(), |i: int| log[i].line()));
    }
}

/// A log whose entries the text can hold is the log that its own text
/// holds.
pub proof fn law_store_round_trip(log: Seq<EntryView>)
    requires
        forall|i: int| 0 <= i < log.len() ==> storable(#[trigger] log[i]),
    ensures
        parse_log(render_log(log)) == log,
{
    assert forall|i: int| 0 <= i < log.len() implies (#[trigger] log[i]).trimmed() && !contains(
        log[i].line(),
        line_feed(),
    ) by {
        assert(storable(log[i]));
    }
    lemma_lines_of_render(log);
    let ls = lines(render_log(log));
    assert forall|i: int| 0 <= i < log.len() implies #[trigger] entries_of(ls)[i] == log[i] by {
        assert(storable(log[i]));
        law_line_round_trip(log[i]);
    }
    assert(parse_log(render_log(log)) == log);
}

/// The entry that a line without a line feed stands for is one that the
/// store's text can hold.
pub proof fn lemma_parsed_storable(l: Seq<char>)
    requires
        !contains(l, line_feed()),
    ensures
        storable(EntryView::parse(l)),
{
    let e = EntryView::parse(l);
    law_parse_canonical(l);
    lemma_first_occurrence(l, separator());
    let n = l.len() as int;
    match first_occurrence(l, separator()) {
        Some(i) => {
            if contains(e.command, line_feed()) {
                lemma_contains_in_trim(l.subrange(0, i), line_feed());
                lemma_contains_in_part(l, 0, i, line_feed());
            }
            if contains(e.tag, line_feed()) {
                lemma_contains_in_trim(l.subrange(i + 2, n), line_feed());
                lemma_contains_in_part(l, i + 2, n, line_feed());
            }
        },
        None => {
            if contains(e.command, line_feed()) {
                lemma_contains_in_trim(l, line_feed());
            }
            assert(!contains(e.tag, line_feed())) by {
                if contains(e.tag, line_feed()) {
                    let j = choose|j: int| occurs_at(e.tag, line_feed(), j);
                    assert(false);
                }
            }
        },
    }
    if e.tag.len() > 0 && contains(e.line(), line_feed()) {
        assert(e.line() == (e.command + joiner()) + e.tag);
        lemma_char_in_concat(e.command + joiner(), e.tag, '\n');
        if contains(e.command + joiner(), line_feed()) {
            lemma_char_in_concat(e.command, joiner(), '\n');
            if contains(joiner(), line_feed()) {
                let j = choose|j: int| occurs_at(joiner(), line_feed(), j);
                assert(joiner().subrange(j, j + 1)[0] == '\n');
            }
        }
        assert(false);
    }
}

/// Every entry of a log that the store's text holds is one that the text
/// can hold.
pub proof fn law_loaded_storable(text: Seq<char>)
    ensures
        forall|i: int| 0 <= i < parse_log(text).len() ==> storable(#[trigger] parse_log(text)[i]),
{
    lemma_lines_hold_no_feed(text);
    assert forall|i: int| 0 <= i < parse_log(text).len() implies storable(
        #[trigger] parse_log(text)[i],
    ) by {
        lemma_parsed_storable(lines(text)[i]);
    }
}

/// Where the store's text gives the line of a trimmed entry back, the text
/// of a loaded log with that entry at its end holds an entry with that
/// line.
pub proof fn law_appended_is_found_again(text: Seq<char>, e: EntryView)
    requires
        e.trimmed(),
        keeps_line(e),
    ensures
        holds_line(parse_log(render_log(parse_log(text).push(e))), e.line()),
{
    let log = parse_log(text);
    let next = log.push(e);
    law_loaded_storable(text);
    assert forall|i: int| 0 <= i < next.len() implies (#[trigger] next[i]).trimmed() && !contains(
        next[i].line(),
        line_feed(),
    ) by {
        if i < log.len() {
            assert(storable(log[i]));
        }
    }
    lemma_lines_of_render(next);
    let again = parse_log(render_log(next));
    let last = log.len() as int;
    assert(again[last] == EntryView::parse(next[last].line()));
    assert(again[last].line() == e.line());
}

/// The log of saved entries, in the order in which they were saved.
#[derive(Debug)]
pub struct HistoryLog {
    pub entries: Vec<Entry>,
}

impl View for HistoryLog {
    type V = Seq<EntryView>;

    open spec fn view(&self) -> Seq<EntryView> {
        Seq::new(self.entries@.len(), |i: int| self.entries@[i]@)
    }
}

impl HistoryLog {
    /// The log without entries.
    pub fn new() -> (log: HistoryLog)
        ensures
            log@ == Seq::<EntryView>::empty(),
    {
        HistoryLog { entries: Vec::new() }
    }

    /// The number of entries.
    pub fn len(&self) -> (n: usize)
        ensures
            n == self@.len(),
    {
        self.entries.len()
    }

    /// The log that the store's text holds. Where the store is missing, the
    /// text is empty and so is the log.
    pub fn load(text: &str) -> (log: HistoryLog)
        ensures
            log@ == parse_log(text@),
    {
        let chars = chars_of(text);
        let ls = split_lines(chars.as_slice());
        let mut entries: Vec<Entry> = Vec::new();
        let mut i: usize = 0;
        while i < ls.len()
            invariant
                i <= ls@.len(),
                entries@.len() == i,
                forall|k: int| 0 <= k < i ==> (#[trigger] entries@[k])@ == EntryView::parse(ls@[k]@),
            decreases ls.len() - i,
        {
            entries.push(Entry::parse_chars(ls[i].as_slice()));
            i += 1;
        }
        let log = HistoryLog { entries };
        assert(log@ == entries_of(views(ls@)));
        log
    }

    /// The store's text for the log.
    pub fn save(&self) -> (text: String)
        ensures
            text@ == render_log(self@),
    {
        let mut text = String::new();
        let mut i: usize = 0;
        while i < self.entries.len()
            invariant
                i <= self@.len(),
                self@.len() == self.entries@.len(),
                text@ == render_log(self@.subrange(0, i as int)),
            decreases self.entries.len() - i,
        {
            let line = self.entries[i].serialize();
            proof {
                lemma_render_push(self@.subrange(0, i as int), self@[i as int]);
                assert(self@.subrange(0, i as int).push(self@[i as int]) == self@.subrange(
                    0,
                    i + 1,
                ));
            }
            text.append(line.as_str());
            text.push('\n');
            i += 1;
        }
        assert(self@.subrange(0, self@.len() as int) == self@);
        text
    }

    /// Tells whether some entry has the line `line`.
    pub fn has_line(&self, line: &String) -> (r: bool)
        ensures
            r == holds_line(self@, line@),
    {
        let mut i: usize = 0;
        while i < self.entries.len()
            invariant
                i <= self@.len(),
                self@.len() == self.entries@.len(),
                forall|k: int| 0 <= k < i ==> (#[trigger] self@[k]).line() != line@,
            decreases self.entries.len() - i,
        {
            let l = self.entries[i].serialize();
            if l == *line {
                assert(self@[i as int].line() == line@);
                return true;
            }
            i += 1;
        }
        false
    }

    /// Puts `candidate` at the end of the log, unless an entry with the same
    /// line is there already, and tells whether the log has changed.
    pub fn append_if_new(&mut self, candidate: Entry) -> (added: bool)
        ensures
            final(self)@ == append_if_new(old(self)@, candidate@),
            added == !holds_line(old(self)@, candidate@.line()),
    {
        let line = candidate.serialize();
        if self.has_line(&line) {
            false
        } else {
            self.entries.push(candidate);
            assert(self@ == old(self)@.push(candidate@));
            true
        }
    }

    /// Removes the entry at the position `index`, counted from 1. Where the
    /// log has no such entry it stays as it is.
    pub fn remove_at(&mut self, index: usize) -> (r: Result<(), HistoryError>)
        ensures
            in_range(old(self)@, index as int) ==> r is Ok && final(self)@ == remove_at(
                old(self)@,
                index as int,
            ),
            !in_range(old(self)@, index as int) ==> r == Err::<(), HistoryError>(
                HistoryError::InvalidIndex,
            ) && final(self)@ == old(self)@,
    {
        if index == 0 || index > self.entries.len() {
            return Err(HistoryError::InvalidIndex);
        }
        self.entries.remove(index - 1);
        assert(self@ == remove_at(old(self)@, index as int));
        Ok(())
    }

    /// The entry at the position `index`, counted from 1.
    pub fn get_at(&self, index: usize) -> (r: Result<&Entry, HistoryError>)
        ensures
            match r {
                Ok(e) => in_range(self@, index as int) && e@ == self@[index - 1],
                Err(e) => !in_range(self@, index as int) && e == (HistoryError::NotFound { index }),
            },
    {
        if index == 0 || index > self.entries.len() {
            return Err(HistoryError::NotFound { index });
        }
        Ok(&self.entries[index - 1])
    }
}

} // verus!
