//! One saved command with its tag, and the line that stands for it in the
//! log: `COMMAND`, or `COMMAND || TAG` where there is a tag.

use crate::text::{
    chars_of, contains, find, first_occurrence, is_first_occurrence, is_trimmed,
    lemma_contains_in_trim, lemma_first_occurrence, lemma_occurs_in_part, lemma_trim, occurs_at,
    text_of, trim, trim_end, trim_start, trimmed,
};
use vstd::prelude::*;
use vstd::slice::slice_subrange;

verus! {

/// What marks the end of the command on a line of the log.
pub open spec fn separator() -> Seq<char> {
    seq!['|', '|']
}

/// What stands between the command and the tag on a line that is written.
pub open spec fn joiner() -> Seq<char> {
    seq![' ', '|', '|', ' ']
}

/// What an entry holds: the text of a command, and the text of its tag,
/// empty where the command has no tag.
pub ghost struct EntryView {
    pub command: Seq<char>,
    pub tag: Seq<char>,
}

impl EntryView {
    /// Whether neither the command nor the tag begins or ends with white
    /// space.
    pub open spec fn trimmed(self) -> bool {
        is_trimmed(self.command) && is_trimmed(self.tag)
    }

    /// Whether the entry is one that a line of the log can give: trimmed,
    /// and with no separator in its command.
    pub open spec fn canonical(self) -> bool {
        self.trimmed() && !contains(self.command, separator())
    }

    /// The line that stands for the entry.
    pub open spec fn line(self) -> Seq<char> {
        if self.tag.len() == 0 {
            self.command
        } else {
            self.command + joiner() + self.tag
        }
    }

    /// The entry that `line` stands for: the command is what precedes the
    /// first separator, the tag what follows it, both trimmed; without a
    /// separator the whole line is the command.
    pub open spec fn parse(line: Seq<char>) -> EntryView {
        match first_occurrence(line, separator()) {
            Some(i) => EntryView {
                command: trim(line.subrange(0, i)),
                tag: trim(line.subrange(i + 2, line.len() as int)),
            },
            None => EntryView { command: trim(line), tag: Seq::empty() },
        }
    }
}

/// The entry for `command` with `tag`: both trimmed.
pub open spec fn entry_for(command: Seq<char>, tag: Seq<char>) -> EntryView {
    EntryView { command: trim(command), tag: trim(tag) }
}

/// A canonical entry is the one that its own line stands for.
pub proof fn law_line_round_trip(e: EntryView)
    requires
        e.canonical(),
    ensures
        EntryView::parse(e.line()) == e,
{
    let l = e.line();
    let sep = separator();
    lemma_first_occurrence(l, sep);
    if e.tag.len() == 0 {
        assert(trim(e.command) == e.command);
        assert(e.tag == Seq::<char>::empty());
    } else {
        let n = e.command.len() as int;
        assert(l.subrange(n + 1, n + 3) == sep);
        assert forall|j: int| 0 <= j < n + 1 implies !occurs_at(l, sep, j) by {
            if occurs_at(l, sep, j) {
                assert(l.subrange(j, j + 2)[0] == '|');
                assert(l.subrange(j, j + 2)[1] == '|');
                if j + 2 <= n {
                    assert(e.command.subrange(j, j + 2) == sep);
                    assert(occurs_at(e.command, sep, j));
                }
            }
        }
        assert(is_first_occurrence(l, sep, n + 1));
        let head = l.subrange(0, n + 1);
        let tail = l.subrange(n + 3, l.len() as int);
        assert(head == e.command.push(' '));
        assert(tail == seq![' '] + e.tag);
        assert(head.drop_last() == e.command);
        assert(tail.drop_first() == e.tag);
        if n > 0 {
            assert(head.first() == e.command.first());
            assert(trim_start(head) == head);
            assert(trim_end(e.command) == e.command);
        } else {
            assert(trim_start(head.drop_first()) == head.drop_first());
            assert(trim_start(head) == e.command);
        }
        assert(trim(head) == e.command);
        assert(trim_start(e.tag) == e.tag);
        assert(trim_start(tail) == e.tag);
        assert(trim(tail) == e.tag);
    }
}

/// Every line stands for a canonical entry.
pub proof fn law_parse_canonical(line: Seq<char>)
    ensures
        EntryView::parse(line).canonical(),
{
    let sep = separator();
    lemma_first_occurrence(line, sep);
    match first_occurrence(line, sep) {
        Some(i) => {
            let head = line.subrange(0, i);
            lemma_trim(head);
            lemma_trim(line.subrange(i + 2, line.len() as int));
            if contains(trim(head), sep) {
                lemma_contains_in_trim(head, sep);
                let k = choose|k: int| occurs_at(head, sep, k);
                lemma_occurs_in_part(line, 0, i, sep, k);
                assert(false);
            }
        },
        None => {
            lemma_trim(line);
            if contains(trim(line), sep) {
                lemma_contains_in_trim(line, sep);
            }
        },
    }
}

/// Two canonical entries with the same line are the same entry.
pub proof fn law_line_injective(a: EntryView, b: EntryView)
    requires
        a.canonical(),
        b.canonical(),
        a.line() == b.line(),
    ensures
        a == b,
{
    law_line_round_trip(a);
    law_line_round_trip(b);
}

/// One saved command with its tag. An empty tag means that there is none.
#[derive(Debug)]
pub struct Entry {
    pub command: String,
    pub tag: String,
}

impl View for Entry {
    type V = EntryView;

    open spec fn view(&self) -> EntryView {
        EntryView { command: self.command@, tag: self.tag@ }
    }
}

impl Clone for Entry {
    fn clone(&self) -> (r: Entry)
        ensures
            r@ == self@,
    {
        Entry { command: self.command.clone(), tag: self.tag.clone() }
    }
}

impl PartialEq for Entry {
    fn eq(&self, other: &Entry) -> (r: bool) {
        self.command == other.command && self.tag == other.tag
    }
}

impl Eq for Entry {

}

impl vstd::std_specs::cmp::PartialEqSpecImpl for Entry {
    open spec fn obeys_eq_spec() -> bool {
        true
    }

    open spec fn eq_spec(&self, other: &Entry) -> bool {
        self.command@ == other.command@ && self.tag@ == other.tag@
    }
}

impl Entry {
    /// The entry for `command` with `tag`, both trimmed.
    pub fn new(command: &str, tag: &str) -> (e: Entry)
        ensures
            e@ == entry_for(command@, tag@),
            e@.trimmed(),
    {
        proof {
            lemma_trim(command@);
            lemma_trim(tag@);
        }
        let c = chars_of(command);
        let t = chars_of(tag);
        Entry { command: text_of(trimmed(c.as_slice())), tag: text_of(trimmed(t.as_slice())) }
    }

    /// The entry that `line` stands for.
    pub fn parse(line: &str) -> (e: Entry)
        ensures
            e@ == EntryView::parse(line@),
            e@.canonical(),
    {
        let chars = chars_of(line);
        Entry::parse_chars(chars.as_slice())
    }

    /// The entry that the line with the characters `s` stands for.
    pub fn parse_chars(s: &[char]) -> (e: Entry)
        ensures
            e@ == EntryView::parse(s@),
            e@.canonical(),
    {
        proof {
            lemma_first_occurrence(s@, separator());
            law_parse_canonical(s@);
        }
        let sep: Vec<char> = vec!['|', '|'];
        assert(sep@ == separator());
        match find(s, sep.as_slice()) {
            Some(i) => {
                assert(occurs_at(s@, separator(), i as int));
                assert(i + 2 <= s.len());
                let command = text_of(trimmed(slice_subrange(s, 0, i)));
                let tag = text_of(trimmed(slice_subrange(s, i + 2, s.len())));
                Entry { command, tag }
            },
            None => Entry { command: text_of(trimmed(s)), tag: String::new() },
        }
    }

    /// The line that stands for the entry.
    pub fn serialize(&self) -> (line: String)
        ensures
            line@ == self@.line(),
    {
        let mut line = self.command.clone();
        if !self.tag.as_str().is_empty() {
            line.push(' ');
            line.push('|');
            line.push('|');
            line.push(' ');
            line.append(self.tag.as_str());
            assert(line@ == self@.command + joiner() + self@.tag);
        }
        line
    }
}

} // verus!
