use rcmd::text::{
    append, begins_with, chars_of, digit_char, find, includes, matches_at, push_decimal,
    push_right_aligned, space, split_lines, text_of, trim_bounds, trimmed,
};

fn chars(s: &str) -> Vec<char> {
    s.chars().collect()
}

fn lines(s: &str) -> Vec<String> {
    split_lines(&chars(s)).iter().map(|l| l.iter().collect()).collect()
}

fn decimal(n: usize) -> String {
    let mut out = Vec::new();
    push_decimal(&mut out, n);
    out.iter().collect()
}

#[test]
fn space_is_unicode_white_space() {
    for code in 0..=0x10ffffu32 {
        if let Some(c) = char::from_u32(code) {
            assert_eq!(space(c), c.is_whitespace(), "U+{:04X}", code);
        }
    }
}

#[test]
fn chars_and_text_are_inverse() {
    assert_eq!(chars_of("añb\u{1f600}"), vec!['a', 'ñ', 'b', '\u{1f600}']);
    assert_eq!(chars_of(""), Vec::<char>::new());
    assert_eq!(text_of(&['l', 's', ' ', 'é']), "ls é");
    assert_eq!(text_of(&[]), "");
    assert_eq!(text_of(&chars_of("git status || work")), "git status || work");
}

#[test]
fn trim_bounds_of_texts() {
    assert_eq!(trim_bounds(&chars("  ab c \t")), (2, 6));
    assert_eq!(trim_bounds(&chars("abc")), (0, 3));
    assert_eq!(trim_bounds(&chars("")), (0, 0));
    assert_eq!(trim_bounds(&chars("   ")), (3, 3));
    assert_eq!(trimmed(&chars(" \u{a0}x y\u{2009}")), &chars("x y")[..]);
}

#[test]
fn trimmed_is_trim_of_std() {
    for s in ["", " ", "a", " a", "a ", "  a b  ", "\t\n\r a \u{b}\u{c}", "\u{3000}é\u{85}", "\u{200b} x"] {
        let got: String = trimmed(&chars(s)).iter().collect();
        assert_eq!(got, s.trim());
    }
}

#[test]
fn matches_at_positions() {
    let s = chars("a||b|");
    let sep = chars("||");
    assert!(!matches_at(&s, &sep, 0));
    assert!(matches_at(&s, &sep, 1));
    assert!(!matches_at(&s, &sep, 2));
    assert!(!matches_at(&s, &sep, 4));
    assert!(!matches_at(&s, &sep, 5));
    assert!(!matches_at(&s, &sep, usize::MAX));
    assert!(matches_at(&s, &[], 5));
    assert!(!matches_at(&s, &[], 6));
}

#[test]
fn find_gives_first_position() {
    assert_eq!(find(&chars("a || b || c"), &chars("||")), Some(2));
    assert_eq!(find(&chars("a | b"), &chars("||")), None);
    assert_eq!(find(&chars("|"), &chars("||")), None);
    assert_eq!(find(&chars(""), &chars("||")), None);
    assert_eq!(find(&chars("abc"), &chars("")), Some(0));
    assert_eq!(find(&chars(""), &chars("")), Some(0));
    assert_eq!(find(&chars("abc"), &chars("abc")), Some(0));
    assert_eq!(find(&chars("xxabc"), &chars("abc")), Some(2));
    assert_eq!(find(&chars("aab"), &chars("ab")), Some(1));
}

#[test]
fn includes_and_begins_with() {
    assert!(includes(&chars("git status || work"), &chars("work")));
    assert!(includes(&chars("git status || work"), &chars("")));
    assert!(!includes(&chars("git status || work"), &chars("Work")));
    assert!(!includes(&chars("wor"), &chars("work")));
    assert!(begins_with(&chars(": 1:0;ls"), &chars(": ")));
    assert!(!begins_with(&chars(" : 1:0;ls"), &chars(": ")));
    assert!(!begins_with(&chars(":"), &chars(": ")));
    assert!(begins_with(&chars(""), &chars("")));
}

#[test]
fn split_lines_at_line_feeds() {
    assert_eq!(lines("a\nb\n"), vec!["a", "b"]);
    assert_eq!(lines("a\nb"), vec!["a", "b"]);
    assert_eq!(lines("a\n\nb\n"), vec!["a", "", "b"]);
    assert_eq!(lines(""), Vec::<String>::new());
    assert_eq!(lines("\n"), vec![""]);
    assert_eq!(lines("\n\n"), vec!["", ""]);
    assert_eq!(lines("no end"), vec!["no end"]);
}

#[test]
fn split_lines_drops_return_before_line_feed() {
    assert_eq!(lines("a\r\nb\r\n"), vec!["a", "b"]);
    assert_eq!(lines("a\r\r\nb"), vec!["a\r", "b"]);
    assert_eq!(lines("a\rb\n"), vec!["a\rb"]);
    assert_eq!(lines("a\r"), vec!["a\r"]);
    assert_eq!(lines("\r\n"), vec![""]);
}

#[test]
fn split_lines_is_lines_of_std() {
    for s in ["", "\n", "a", "a\n", "a\r\n", "a\r", "\r", "a\n\r\nb\r", "x\n\n\ny", "\r\n\r\n", "é\nñ"] {
        let expected: Vec<String> = s.lines().map(|l| l.to_string()).collect();
        assert_eq!(lines(s), expected, "{:?}", s);
    }
}

#[test]
fn decimal_digits() {
    assert_eq!(digit_char(0), '0');
    assert_eq!(digit_char(9), '9');
    assert_eq!(decimal(0), "0");
    assert_eq!(decimal(7), "7");
    assert_eq!(decimal(10), "10");
    assert_eq!(decimal(105), "105");
    assert_eq!(decimal(usize::MAX), usize::MAX.to_string());
}

#[test]
fn append_and_align() {
    let mut out = chars("ab");
    append(&mut out, &chars("cd"));
    assert_eq!(out, chars("abcd"));
    append(&mut out, &[]);
    assert_eq!(out, chars("abcd"));
    let mut out = chars(">");
    push_right_aligned(&mut out, &chars("7"), 2);
    assert_eq!(out, chars("> 7"));
    push_right_aligned(&mut out, &chars("12"), 2);
    assert_eq!(out, chars("> 712"));
    push_right_aligned(&mut out, &chars("345"), 2);
    assert_eq!(out, chars("> 712345"));
    push_right_aligned(&mut out, &chars(""), 3);
    assert_eq!(out, chars("> 712345   "));
    push_right_aligned(&mut out, &chars("x"), 0);
    assert_eq!(out, chars("> 712345   x"));
}
