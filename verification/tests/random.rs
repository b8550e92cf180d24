use smart_editor::scan::{split, split_lines, strip, Trim};
use smart_editor::table::{cell_lengths, parse_cells};
use smart_editor::SmartEditor;

const ALPHABET: [char; 12] = ['|', '|', ' ', ' ', '\n', '\n', '\r', '\t', '-', 'a', 'B', 'é'];

/// A fixed sequence of texts over a small alphabet, the same on every run.
fn sample_texts(count: usize, longest: usize) -> Vec<String> {
    let mut state: u64 = 0x2545_f491_4f6c_dd1d;
    let mut step = move || {
        state ^= state << 13;
        state ^= state >> 7;
        state ^= state << 17;
        state
    };
    let mut texts = Vec::new();
    for _ in 0..count {
        let length = (step() % (longest as u64 + 1)) as usize;
        let mut text = String::new();
        for _ in 0..length {
            text.push(ALPHABET[(step() % ALPHABET.len() as u64) as usize]);
        }
        texts.push(text);
    }
    texts
}

fn text_chars(s: &str) -> Vec<char> {
    s.chars().collect()
}

fn as_strings(parts: &[Vec<char>]) -> Vec<String> {
    parts.iter().map(|p| p.iter().collect()).collect()
}

#[test]
fn formatting_is_idempotent_on_many_texts() {
    let editor = SmartEditor::new();
    for text in sample_texts(3000, 48) {
        let once = editor.format_table(&text);
        assert_eq!(editor.format_table(&once), once);
    }
}

#[test]
fn texts_of_fewer_than_two_lines_are_left_alone() {
    let editor = SmartEditor::new();
    for text in sample_texts(3000, 12) {
        if text.lines().count() < 2 {
            assert_eq!(editor.format_table(&text), text);
        }
    }
}

#[test]
fn formatted_tables_have_a_line_for_each_line() {
    let editor = SmartEditor::new();
    for text in sample_texts(3000, 48) {
        let lines = text.lines().count();
        if lines >= 2 {
            let formatted = editor.format_table(&text);
            assert!(formatted.ends_with("|\n"));
            assert_eq!(formatted.lines().count(), lines);
            for line in formatted.lines() {
                assert!(line.starts_with('|') && line.ends_with('|'));
            }
        }
    }
}

#[test]
fn full_rows_are_as_long_as_the_header_row() {
    let editor = SmartEditor::new();
    for text in sample_texts(3000, 48) {
        let lines: Vec<&str> = text.lines().collect();
        if lines.len() >= 2 {
            let columns = parse_cells(&text_chars(lines[0])).len();
            let formatted = editor.format_table(&text);
            let written: Vec<&str> = formatted.lines().collect();
            let width = written[0].chars().count();
            assert_eq!(written[1].chars().count(), width);
            for i in 2..lines.len() {
                if parse_cells(&text_chars(lines[i])).len() >= columns {
                    assert_eq!(written[i].chars().count(), width);
                } else {
                    assert!(written[i].chars().count() < width);
                }
            }
        }
    }
}

#[test]
fn lines_pieces_and_trims_agree_with_the_standard_ones() {
    for text in sample_texts(3000, 24) {
        let chars = text_chars(&text);
        let lines: Vec<String> = text.lines().map(|l| l.to_string()).collect();
        assert_eq!(as_strings(&split_lines(&chars)), lines);
        let pieces: Vec<String> = text.split('|').map(|p| p.to_string()).collect();
        assert_eq!(as_strings(&split(&chars, '|')), pieces);
        let inner: String = strip(&chars, Trim::Pipes).iter().collect();
        assert_eq!(inner, text.trim_matches('|'));
        let bare: String = strip(&chars, Trim::WhiteSpace).iter().collect();
        assert_eq!(bare, text.trim());
    }
}

#[test]
fn cells_are_trimmed_and_hold_no_pipe() {
    for text in sample_texts(3000, 24) {
        for line in text.lines() {
            let cells = parse_cells(&text_chars(line));
            assert!(!cells.is_empty());
            for (cell, length) in as_strings(&cells).iter().zip(cell_lengths(&cells)) {
                assert_eq!(cell.trim(), cell);
                assert!(!cell.contains('|'));
                assert_eq!(cell.chars().count(), length);
            }
        }
    }
}
