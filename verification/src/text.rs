//! Text as a sequence of characters: white space, trimming, searching,
//! lines and decimal numbers.
//!
//! The specifications speak of `Seq<char>`, the view of `str` and `String`;
//! the executable functions work on slices of characters.

use vstd::prelude::*;
use vstd::slice::{slice_subrange, slice_to_vec};

verus! {

/// Whether `c` is white space: the characters to which Unicode gives the
/// property `White_Space`.
pub open spec fn is_space(c: char) -> bool {
    ||| '\u{9}' <= c <= '\u{d}'
    ||| c == ' '
    ||| c == '\u{85}'
    ||| c == '\u{a0}'
    ||| c == '\u{1680}'
    ||| '\u{2000}' <= c <= '\u{200a}'
    ||| c == '\u{2028}'
    ||| c == '\u{2029}'
    ||| c == '\u{202f}'
    ||| c == '\u{205f}'
    ||| c == '\u{3000}'
}

/// `s` without the white space it begins with.
pub open spec fn trim_start(s: Seq<char>) -> Seq<char>
    decreases s.len(),
{
    if s.len() > 0 && is_space(s.first()) {
        trim_start(s.drop_first())
    } else {
        s
    }
}

/// `s` without the white space it ends with.
pub open spec fn trim_end(s: Seq<char>) -> Seq<char>
    decreases s.len(),
{
    if s.len() > 0 && is_space(s.last()) {
        trim_end(s.drop_last())
    } else {
        s
    }
}

/// `s` without the white space around it.
pub open spec fn trim(s: Seq<char>) -> Seq<char> {
    trim_end(trim_start(s))
}

/// Whether `s` neither begins nor ends with white space.
pub open spec fn is_trimmed(s: Seq<char>) -> bool {
    s.len() > 0 ==> !is_space(s.first()) && !is_space(s.last())
}

/// Whether `pat` stands in `s` at position `i`.
pub open spec fn occurs_at(s: Seq<char>, pat: Seq<char>, i: int) -> bool {
    &&& 0 <= i
    &&& i + pat.len() <= s.len()
    &&& s.subrange(i, i + pat.len()) == pat
}

/// Whether `pat` stands somewhere in `s`.
pub open spec fn contains(s: Seq<char>, pat: Seq<char>) -> bool {
    exists|i: int| occurs_at(s, pat, i)
}

/// Whether `s` begins with `pat`.
pub open spec fn starts_with(s: Seq<char>, pat: Seq<char>) -> bool {
    occurs_at(s, pat, 0)
}

/// Whether `pat` stands in `s` at position `i` and nowhere before.
pub open spec fn is_first_occurrence(s: Seq<char>, pat: Seq<char>, i: int) -> bool {
    &&& occurs_at(s, pat, i)
    &&& forall|j: int| 0 <= j < i ==> !occurs_at(s, pat, j)
}

/// The first position at which `pat` stands in `s`, if there is one.
pub open spec fn first_occurrence(s: Seq<char>, pat: Seq<char>) -> Option<int> {
    if contains(s, pat) {
        Some(choose|i: int| is_first_occurrence(s, pat, i))
    } else {
        None
    }
}

/// The character that ends a line, as a pattern.
pub open spec fn line_feed() -> Seq<char> {
    seq!['\n']
}

/// `l` without the carriage return that it may end with.
pub open spec fn without_return(l: Seq<char>) -> Seq<char> {
    if l.len() > 0 && l.last() == '\r' {
        l.drop_last()
    } else {
        l
    }
}

/// The lines of `s`. A line ends with a line feed, or with a carriage return
/// and a line feed; neither belongs to the line. What follows the last line
/// feed is a line too, unless it is empty.
pub open spec fn lines(s: Seq<char>) -> Seq<Seq<char>>
    decreases s.len(),
{
    if s.len() == 0 {
        Seq::empty()
    } else {
        match first_occurrence(s, line_feed()) {
            Some(i) => {
                proof {
                    lemma_first_occurrence(s, line_feed());
                }
                seq![without_return(s.subrange(0, i))] + lines(s.subrange(i + 1, s.len() as int))
            },
            None => seq![s],
        }
    }
}

/// The views of the texts in `v`.
pub open spec fn views(v: Seq<Vec<char>>) -> Seq<Seq<char>> {
    Seq::new(v.len(), |i: int| v[i]@)
}

/// The views of the strings in `v`.
pub open spec fn texts(v: Seq<String>) -> Seq<Seq<char>> {
    Seq::new(v.len(), |i: int| v[i]@)
}

/// `s` with as many blanks before it as it takes to make it `width` long.
pub open spec fn right_aligned(s: Seq<char>, width: nat) -> Seq<char> {
    if s.len() >= width {
        s
    } else {
        Seq::new((width - s.len()) as nat, |i: int| ' ') + s
    }
}

/// The character that stands for the digit `d`.
pub open spec fn digit(d: int) -> char {
    ('0' as int + d) as char
}

/// `n` in decimal digits.
pub open spec fn decimal(n: nat) -> Seq<char>
    decreases n,
{
    if n < 10 {
        seq![digit(n as int)]
    } else {
        decimal(n / 10).push(digit((n % 10) as int))
    }
}

/// Trimming at the start leaves the part of `s` that begins at its first
/// character that is no white space.
pub proof fn lemma_trim_start(s: Seq<char>)
    ensures
        trim_start(s).len() <= s.len(),
        trim_start(s) == s.subrange(s.len() - trim_start(s).len(), s.len() as int),
        trim_start(s).len() > 0 ==> !is_space(trim_start(s).first()),
        forall|j: int| 0 <= j < s.len() - trim_start(s).len() ==> is_space(#[trigger] s[j]),
    decreases s.len(),
{
    if s.len() > 0 && is_space(s.first()) {
        let r = s.drop_first();
        lemma_trim_start(r);
        let t = trim_start(r);
        assert(t == s.subrange(s.len() - t.len(), s.len() as int));
        assert forall|j: int| 0 <= j < s.len() - t.len() implies is_space(#[trigger] s[j]) by {
            if j > 0 {
                assert(s[j] == r[j - 1]);
            }
        }
    } else {
        assert(s == s.subrange(0, s.len() as int));
    }
}

/// Trimming at the end leaves the part of `s` that ends with its last
/// character that is no white space.
pub proof fn lemma_trim_end(s: Seq<char>)
    ensures
        trim_end(s).len() <= s.len(),
        trim_end(s) == s.subrange(0, trim_end(s).len() as int),
        trim_end(s).len() > 0 ==> !is_space(trim_end(s).last()),
        forall|j: int| trim_end(s).len() <= j < s.len() ==> is_space(#[trigger] s[j]),
    decreases s.len(),
{
    if s.len() > 0 && is_space(s.last()) {
        let r = s.drop_last();
        lemma_trim_end(r);
        let t = trim_end(r);
        assert(t == s.subrange(0, t.len() as int));
        assert forall|j: int| t.len() <= j < s.len() implies is_space(#[trigger] s[j]) by {
            if j < s.len() - 1 {
                assert(s[j] == r[j]);
            }
        }
    } else {
        assert(s == s.subrange(0, s.len() as int));
    }
}

/// What `trim` leaves is a part of `s` that neither begins nor ends with
/// white space; all that it drops is white space.
pub proof fn lemma_trim(s: Seq<char>)
    ensures
        is_trimmed(trim(s)),
        exists|a: int, b: int|
            0 <= a <= b <= s.len() && #[trigger] s.subrange(a, b) == trim(s) && (forall|j: int|
                0 <= j < a || b <= j < s.len() ==> is_space(#[trigger] s[j])),
{
    let t = trim_start(s);
    let u = trim_end(t);
    lemma_trim_start(s);
    lemma_trim_end(t);
    let a = s.len() - t.len();
    let b = a + u.len();
    assert(s.subrange(a, b) == u);
    if u.len() > 0 {
        assert(u.first() == t.first());
    }
    assert forall|j: int| 0 <= j < a || b <= j < s.len() implies is_space(#[trigger] s[j]) by {
        if b <= j {
            assert(s[j] == t[j - a]);
        }
    }
}

/// Text that neither begins nor ends with white space is left as it is.
pub proof fn lemma_trim_of_trimmed(s: Seq<char>)
    requires
        is_trimmed(s),
    ensures
        trim(s) == s,
{
}

/// What stands in a part of `s` stands in `s`, as far to the right as the
/// part begins.
pub proof fn lemma_occurs_in_part(s: Seq<char>, a: int, b: int, pat: Seq<char>, i: int)
    requires
        0 <= a <= b <= s.len(),
        occurs_at(s.subrange(a, b), pat, i),
    ensures
        occurs_at(s, pat, a + i),
{
    assert(s.subrange(a + i, a + i + pat.len()) == s.subrange(a, b).subrange(i, i + pat.len()));
}

/// What stands in a part of `s` stands in `s`.
pub proof fn lemma_contains_in_part(s: Seq<char>, a: int, b: int, pat: Seq<char>)
    requires
        0 <= a <= b <= s.len(),
        contains(s.subrange(a, b), pat),
    ensures
        contains(s, pat),
{
    let i = choose|i: int| occurs_at(s.subrange(a, b), pat, i);
    lemma_occurs_in_part(s, a, b, pat, i);
}

/// What stands in `trim(s)` stands in `s`.
pub proof fn lemma_contains_in_trim(s: Seq<char>, pat: Seq<char>)
    requires
        contains(trim(s), pat),
    ensures
        contains(s, pat),
{
    lemma_trim(s);
    let (a, b) = choose|a: int, b: int|
        0 <= a <= b <= s.len() && #[trigger] s.subrange(a, b) == trim(s);
    lemma_contains_in_part(s, a, b, pat);
}

/// Where `pat` stands in `s`, it stands somewhere for the first time.
pub proof fn lemma_some_first_occurrence(s: Seq<char>, pat: Seq<char>, i: int)
    requires
        occurs_at(s, pat, i),
    ensures
        exists|k: int| is_first_occurrence(s, pat, k),
    decreases i,
{
    if exists|j: int| 0 <= j < i && occurs_at(s, pat, j) {
        let j = choose|j: int| 0 <= j < i && occurs_at(s, pat, j);
        lemma_some_first_occurrence(s, pat, j);
    } else {
        assert(is_first_occurrence(s, pat, i));
    }
}

/// `first_occurrence` finds `pat` exactly where it stands for the first
/// time, and finds nothing exactly where it stands nowhere.
pub proof fn lemma_first_occurrence(s: Seq<char>, pat: Seq<char>)
    ensures
        match first_occurrence(s, pat) {
            Some(i) => is_first_occurrence(s, pat, i),
            None => !contains(s, pat),
        },
        forall|i: int| #[trigger]
            is_first_occurrence(s, pat, i) ==> first_occurrence(s, pat) == Some(i),
{
    if contains(s, pat) {
        let w = choose|i: int| occurs_at(s, pat, i);
        lemma_some_first_occurrence(s, pat, w);
        let k = choose|i: int| is_first_occurrence(s, pat, i);
        assert forall|i: int| #[trigger] is_first_occurrence(s, pat, i) implies i == k by {
            if i < k {
                assert(!occurs_at(s, pat, i));
            } else if k < i {
                assert(!occurs_at(s, pat, k));
            }
        }
    } else {
        assert forall|i: int| !#[trigger] is_first_occurrence(s, pat, i) by {
            if is_first_occurrence(s, pat, i) {
                assert(occurs_at(s, pat, i));
            }
        }
    }
}

/// A single character that stands in `a + b` stands in `a` or in `b`.
pub proof fn lemma_char_in_concat(a: Seq<char>, b: Seq<char>, c: char)
    requires
        contains(a + b, seq![c]),
    ensures
        contains(a, seq![c]) || contains(b, seq![c]),
{
    let s = a + b;
    let i = choose|i: int| occurs_at(s, seq![c], i);
    assert(s.subrange(i, i + 1)[0] == c);
    if i < a.len() {
        assert(a.subrange(i, i + 1) == seq![c]);
        assert(occurs_at(a, seq![c], i));
    } else {
        assert(b.subrange(i - a.len(), i - a.len() + 1) == seq![c]);
        assert(occurs_at(b, seq![c], i - a.len()));
    }
}

/// No line of a text holds a line feed.
pub proof fn lemma_lines_hold_no_feed(s: Seq<char>)
    ensures
        forall|i: int| 0 <= i < lines(s).len() ==> !contains(#[trigger] lines(s)[i], line_feed()),
    decreases s.len(),
{
    if s.len() > 0 {
        lemma_first_occurrence(s, line_feed());
        match first_occurrence(s, line_feed()) {
            Some(k) => {
                let first = without_return(s.subrange(0, k));
                let rest = s.subrange(k + 1, s.len() as int);
                let m = first.len() as int;
                assert(first == s.subrange(0, m));
                if contains(first, line_feed()) {
                    let j = choose|j: int| occurs_at(first, line_feed(), j);
                    lemma_occurs_in_part(s, 0, m, line_feed(), j);
                    assert(false);
                }
                lemma_lines_hold_no_feed(rest);
                assert forall|i: int| 0 <= i < lines(s).len() implies !contains(
                    #[trigger] lines(s)[i],
                    line_feed(),
                ) by {
                    if i > 0 {
                        assert(lines(s)[i] == lines(rest)[i - 1]);
                    }
                }
            },
            None => {},
        }
    }
}

/// Tells whether `c` is white space.
pub fn space(c: char) -> (r: bool)
    ensures
        r == is_space(c),
{
    ('\u{9}' <= c && c <= '\u{d}') || c == ' ' || c == '\u{85}' || c == '\u{a0}' || c
        == '\u{1680}' || ('\u{2000}' <= c && c <= '\u{200a}') || c == '\u{2028}' || c
        == '\u{2029}' || c == '\u{202f}' || c == '\u{205f}' || c == '\u{3000}'
}

/// The bounds of `trim(s)` in `s`.
pub fn trim_bounds(s: &[char]) -> (r: (usize, usize))
    ensures
        r.0 <= r.1 <= s@.len(),
        s@.subrange(r.0 as int, r.1 as int) == trim(s@),
{
    let n = s.len();
    let mut a: usize = 0;
    assert(s@.subrange(0, n as int) == s@);
    while a < n && space(s[a])
        invariant
            a <= n == s@.len(),
            trim_start(s@) == trim_start(s@.subrange(a as int, n as int)),
        decreases n - a,
    {
        assert(s@.subrange(a as int, n as int).drop_first() == s@.subrange(a + 1, n as int));
        a += 1;
    }
    let mut b: usize = n;
    while b > a && space(s[b - 1])
        invariant
            a <= b <= n == s@.len(),
            trim(s@) == trim_end(s@.subrange(a as int, b as int)),
        decreases b,
    {
        assert(s@.subrange(a as int, b as int).drop_last() == s@.subrange(a as int, b - 1));
        b -= 1;
    }
    (a, b)
}

/// The part of `s` that `trim` leaves.
pub fn trimmed(s: &[char]) -> (r: &[char])
    ensures
        r@ == trim(s@),
{
    let (a, b) = trim_bounds(s);
    slice_subrange(s, a, b)
}

/// Tells whether `pat` stands in `s` at position `at`.
pub fn matches_at(s: &[char], pat: &[char], at: usize) -> (r: bool)
    ensures
        r == occurs_at(s@, pat@, at as int),
{
    let m = pat.len();
    if m > s.len() || at > s.len() - m {
        return false;
    }
    let mut k: usize = 0;
    while k < m
        invariant
            k <= m == pat@.len(),
            at + m <= s@.len() <= usize::MAX,
            s@.subrange(at as int, at + k) == pat@.subrange(0, k as int),
        decreases m - k,
    {
        if s[at + k] != pat[k] {
            assert(s@.subrange(at as int, at + m)[k as int] != pat@[k as int]);
            return false;
        }
        assert(s@.subrange(at as int, at + k + 1) == s@.subrange(at as int, at + k).push(
            s@[at + k],
        ));
        assert(pat@.subrange(0, k + 1) == pat@.subrange(0, k as int).push(pat@[k as int]));
        k += 1;
    }
    assert(pat@.subrange(0, m as int) == pat@);
    true
}

/// Tells whether `s` begins with `pat`.
pub fn begins_with(s: &[char], pat: &[char]) -> (r: bool)
    ensures
        r == starts_with(s@, pat@),
{
    matches_at(s, pat, 0)
}

/// The first position at which `pat` stands in `s`.
pub fn find(s: &[char], pat: &[char]) -> (r: Option<usize>)
    ensures
        match r {
            Some(i) => first_occurrence(s@, pat@) == Some(i as int),
            None => first_occurrence(s@, pat@) is None,
        },
{
    proof {
        lemma_first_occurrence(s@, pat@);
    }
    if pat.len() > s.len() {
        return None;
    }
    let last = s.len() - pat.len();
    let mut i: usize = 0;
    loop
        invariant
            i <= last == s@.len() - pat@.len(),
            forall|j: int| 0 <= j < i ==> !occurs_at(s@, pat@, j),
            forall|i: int| #[trigger]
                is_first_occurrence(s@, pat@, i) ==> first_occurrence(s@, pat@) == Some(i),
            !contains(s@, pat@) ==> first_occurrence(s@, pat@) is None,
        decreases last - i,
    {
        if matches_at(s, pat, i) {
            assert(is_first_occurrence(s@, pat@, i as int));
            return Some(i);
        }
        if i == last {
            return None;
        }
        i += 1;
    }
}

/// Tells whether `pat` stands somewhere in `s`.
pub fn includes(s: &[char], pat: &[char]) -> (r: bool)
    ensures
        r == contains(s@, pat@),
{
    proof {
        lemma_first_occurrence(s@, pat@);
    }
    find(s, pat).is_some()
}

/// The characters of `s`, in order.
pub fn chars_of(s: &str) -> (v: Vec<char>)
    ensures
        v@ == s@,
{
    let mut v: Vec<char> = Vec::new();
    for c in it: s.chars()
        invariant
            v@ == it.seq().take(it.index()),
    {
        v.push(c);
    }
    v
}

/// `String::push` of std: the string gains `ch` at its end and is otherwise
/// as it was.
pub assume_specification[ String::push ](s: &mut String, ch: char)
    ensures
        final(s)@ == old(s)@.push(ch),
;

/// The string that holds the characters of `s`.
pub fn text_of(s: &[char]) -> (r: String)
    ensures
        r@ == s@,
{
    let mut r = String::new();
    let mut i: usize = 0;
    while i < s.len()
        invariant
            i <= s@.len(),
            r@ == s@.subrange(0, i as int),
        decreases s.len() - i,
    {
        r.push(s[i]);
        i += 1;
    }
    assert(s@.subrange(0, s@.len() as int) == s@);
    r
}

/// Puts the characters of `s` at the end of `out`.
pub fn append(out: &mut Vec<char>, s: &[char])
    ensures
        final(out)@ == old(out)@ + s@,
{
    let mut i: usize = 0;
    while i < s.len()
        invariant
            i <= s@.len(),
            out@ == old(out)@ + s@.subrange(0, i as int),
        decreases s.len() - i,
    {
        out.push(s[i]);
        i += 1;
    }
    assert(s@.subrange(0, s@.len() as int) == s@);
}

/// The lines of `s`.
pub fn split_lines(s: &[char]) -> (out: Vec<Vec<char>>)
    ensures
        views(out@) == lines(s@),
{
    let feed: Vec<char> = vec!['\n'];
    let mut out: Vec<Vec<char>> = Vec::new();
    let mut rest: &[char] = s;
    assert(views(out@) + lines(rest@) == lines(s@));
    while rest.len() > 0
        invariant
            feed@ == line_feed(),
            views(out@) + lines(rest@) == lines(s@),
        decreases rest@.len(),
    {
        proof {
            lemma_first_occurrence(rest@, line_feed());
        }
        let ghost before = views(out@);
        match find(rest, feed.as_slice()) {
            Some(i) => {
                assert(occurs_at(rest@, line_feed(), i as int));
                let mut end: usize = i;
                if end > 0 && rest[end - 1] == '\r' {
                    end -= 1;
                }
                let line = slice_subrange(rest, 0, end);
                assert(line@ == without_return(rest@.subrange(0, i as int)));
                out.push(slice_to_vec(line));
                assert(views(out@) == before + seq![line@]);
                rest = slice_subrange(rest, i + 1, rest.len());
            },
            None => {
                out.push(slice_to_vec(rest));
                assert(views(out@) == before + seq![rest@]);
                rest = slice_subrange(rest, rest.len(), rest.len());
            },
        }
    }
    out
}

/// The character that stands for the digit `d`.
pub fn digit_char(d: u8) -> (c: char)
    requires
        d < 10,
    ensures
        c == digit(d as int),
{
    (48u8 + d) as char
}

/// Puts `n` in decimal digits at the end of `out`.
pub fn push_decimal(out: &mut Vec<char>, n: usize)
    ensures
        final(out)@ == old(out)@ + decimal(n as nat),
    decreases n,
{
    if n >= 10 {
        push_decimal(out, n / 10);
    }
    out.push(digit_char((n % 10) as u8));
}

/// Puts `s` at the end of `out`, with as many blanks before it as it takes
/// to make it `width` long.
pub fn push_right_aligned(out: &mut Vec<char>, s: &[char], width: usize)
    ensures
        final(out)@ == old(out)@ + right_aligned(s@, width as nat),
{
    let mut k: usize = s.len();
    while k < width
        invariant
            s@.len() <= k,
            k <= width || k == s@.len(),
            out@ == old(out)@ + Seq::new((k - s@.len()) as nat, |i: int| ' '),
        decreases width - k,
    {
        out.push(' ');
        k += 1;
    }
    append(out, s);
}

} // verus!
