use smart_editor::scan::{split, split_lines, strip, Trim};

fn scan_chars(s: &str) -> Vec<char> {
    s.chars().collect()
}

fn scan_texts(parts: &[Vec<char>]) -> Vec<String> {
    parts.iter().map(|p| p.iter().collect()).collect()
}

fn stripped_text(s: &str, trim: Trim) -> String {
    strip(&scan_chars(s), trim).iter().collect()
}

const SAMPLES: [&str; 24] = [
    "",
    "a",
    "|",
    "||",
    "a|b",
    "|a|b|",
    "||a||b||",
    " | a | ",
    "\n",
    "\n\n",
    "a\n",
    "a\nb",
    "a\n\nb\n",
    "a\r\nb\r\n",
    "a\rb\n",
    "a\r",
    "\r",
    "\r\n",
    "\r\r\n",
    "a\n\r",
    "  padded\t\n",
    "\u{a0}\u{2003}x\u{3000}",
    "| é | 日本 |\r\n|-|-|\r\n",
    " \t \n ",
];

#[test]
fn split_cuts_at_every_separator() {
    assert_eq!(scan_texts(&split(&scan_chars("a|b"), '|')), vec!["a", "b"]);
    assert_eq!(scan_texts(&split(&scan_chars(""), '|')), vec![""]);
    assert_eq!(scan_texts(&split(&scan_chars("|"), '|')), vec!["", ""]);
    assert_eq!(scan_texts(&split(&scan_chars("a||b|"), '|')), vec!["a", "", "b", ""]);
    assert_eq!(scan_texts(&split(&scan_chars("abc"), '|')), vec!["abc"]);
}

#[test]
fn split_agrees_with_the_standard_split() {
    for sample in SAMPLES {
        for sep in ['|', '\n', ' ', 'a'] {
            let expected: Vec<String> = sample.split(sep).map(|p| p.to_string()).collect();
            assert_eq!(scan_texts(&split(&scan_chars(sample), sep)), expected);
        }
    }
}

#[test]
fn strip_drops_pipes_at_both_ends() {
    assert_eq!(stripped_text("|a|", Trim::Pipes), "a");
    assert_eq!(stripped_text("||a|b||", Trim::Pipes), "a|b");
    assert_eq!(stripped_text("|||", Trim::Pipes), "");
    assert_eq!(stripped_text(" |a| ", Trim::Pipes), " |a| ");
    assert_eq!(stripped_text("", Trim::Pipes), "");
}

#[test]
fn strip_drops_white_space_at_both_ends() {
    assert_eq!(stripped_text("  a b \t", Trim::WhiteSpace), "a b");
    assert_eq!(stripped_text("\n\r\u{a0}x\u{2003}", Trim::WhiteSpace), "x");
    assert_eq!(stripped_text(" \t ", Trim::WhiteSpace), "");
    assert_eq!(stripped_text("|a|", Trim::WhiteSpace), "|a|");
    assert_eq!(stripped_text("", Trim::WhiteSpace), "");
}

#[test]
fn strip_agrees_with_the_standard_trims() {
    for sample in SAMPLES {
        assert_eq!(stripped_text(sample, Trim::Pipes), sample.trim_matches('|'));
        assert_eq!(stripped_text(sample, Trim::WhiteSpace), sample.trim());
    }
}

#[test]
fn removes_tells_what_a_trim_drops() {
    assert!(Trim::Pipes.removes('|'));
    assert!(!Trim::Pipes.removes(' '));
    assert!(!Trim::Pipes.removes('a'));
    assert!(Trim::WhiteSpace.removes(' '));
    assert!(Trim::WhiteSpace.removes('\t'));
    assert!(Trim::WhiteSpace.removes('\n'));
    assert!(Trim::WhiteSpace.removes('\u{a0}'));
    assert!(!Trim::WhiteSpace.removes('|'));
    assert!(!Trim::WhiteSpace.removes('a'));
    assert!(!Trim::WhiteSpace.removes('越'));
}

#[test]
fn split_lines_ends_a_line_at_each_line_feed() {
    assert_eq!(scan_texts(&split_lines(&scan_chars("a\nb"))), vec!["a", "b"]);
    assert_eq!(scan_texts(&split_lines(&scan_chars("a\nb\n"))), vec!["a", "b"]);
    assert_eq!(scan_texts(&split_lines(&scan_chars("a\n\nb"))), vec!["a", "", "b"]);
    assert_eq!(scan_texts(&split_lines(&scan_chars("\n"))), vec![""]);
    assert!(split_lines(&scan_chars("")).is_empty());
}

#[test]
fn split_lines_drops_a_carriage_return_only_before_a_line_feed() {
    assert_eq!(
        scan_texts(&split_lines(&scan_chars("foo\nbar\n\r\nbaz\r"))),
        vec!["foo", "bar", "", "baz\r"]
    );
    assert_eq!(scan_texts(&split_lines(&scan_chars("a\r\r\nb"))), vec!["a\r", "b"]);
    assert_eq!(scan_texts(&split_lines(&scan_chars("a\rb\r\n"))), vec!["a\rb"]);
}

#[test]
fn split_lines_agrees_with_the_standard_lines() {
    for sample in SAMPLES {
        let expected: Vec<String> = sample.lines().map(|l| l.to_string()).collect();
        assert_eq!(scan_texts(&split_lines(&scan_chars(sample))), expected);
    }
}
