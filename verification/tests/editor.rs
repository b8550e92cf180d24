use smart_editor::SmartEditor;

fn suggest(editor: &SmartEditor, typed: &str) -> Vec<String> {
    editor.get_completions(typed).completions
}

#[test]
fn fresh_editor_lists_four_snippets_in_order() {
    let editor = SmartEditor::new();
    let names: Vec<&str> = editor.get_all_snippets().iter().map(|s| s.name.as_str()).collect();
    assert_eq!(editor.get_all_snippets().len(), 4);
    assert_eq!(names, vec!["table", "code", "checklist", "link"]);
}

#[test]
fn default_snippets_are_found_by_name() {
    let editor = SmartEditor::new();
    assert!(editor.get_snippet("table").is_some());
    assert!(editor.get_snippet("code").is_some());
    assert!(editor.get_snippet("checklist").is_some());
    assert!(editor.get_snippet("link").is_some());
    assert!(editor.get_snippet("nonexistent").is_none());
}

#[test]
fn snippet_lookup_tells_upper_from_lower_case() {
    let editor = SmartEditor::new();
    assert!(editor.get_snippet("Table").is_none());
    assert!(editor.get_snippet("").is_none());
    assert!(editor.get_snippet("tabl").is_none());
    assert!(editor.get_snippet("table ").is_none());
}

#[test]
fn default_snippets_have_their_shape() {
    let editor = SmartEditor::new();
    let table = editor.get_snippet("table").unwrap();
    assert_eq!(
        table.content,
        "| Header 1 | Header 2 |\n|----------|----------|\n| Cell 1   | Cell 2   |"
    );
    assert_eq!(table.description, "Basic Table");
    let code = editor.get_snippet("code").unwrap();
    assert_eq!(code.name, "code");
    assert_eq!(code.content, "```\n\n```");
    assert_eq!(code.description, "Code Block");
    let checklist = editor.get_snippet("checklist").unwrap();
    assert_eq!(checklist.content, "- [ ] Task 1\n- [ ] Task 2\n- [ ] Task 3");
    assert_eq!(checklist.description, "Checklist");
    let link = editor.get_snippet("link").unwrap();
    assert_eq!(link.content, "[Link Text](url)");
    assert_eq!(link.description, "Hyperlink");
}

#[test]
fn a_snippet_can_be_copied() {
    let editor = SmartEditor::new();
    let copy = editor.get_snippet("link").unwrap().clone();
    assert_eq!(copy.name, "link");
    assert_eq!(copy.content, "[Link Text](url)");
    assert_eq!(copy.description, "Hyperlink");
}

#[test]
fn empty_prefix_gives_the_first_five_words() {
    let editor = SmartEditor::new();
    let answer = editor.get_completions("");
    assert_eq!(answer.word, "");
    assert_eq!(answer.completions, vec!["Header", "Table", "Image", "Link", "Code"]);
}

#[test]
fn completions_never_exceed_five() {
    let mut editor = SmartEditor::new();
    for word in ["alpha", "alps", "alto", "also", "alert", "album", "alley"] {
        editor.add_to_completions_cache(word);
    }
    for typed in ["", "a", "al", "AL", "alp", "h", "zzz", "|", " "] {
        assert!(editor.get_completions(typed).completions.len() <= 5);
    }
    assert_eq!(suggest(&editor, "al"), vec!["alpha", "alps", "alto", "also", "alert"]);
}

#[test]
fn every_completion_begins_with_what_was_typed() {
    let mut editor = SmartEditor::new();
    for word in ["Headwind", "heading", "HEAP", "Tablet", "lint"] {
        editor.add_to_completions_cache(word);
    }
    for typed in ["", "h", "He", "HEA", "t", "TAB", "li", "L", "b", "c", "x"] {
        for completion in editor.get_completions(typed).completions {
            assert!(completion.to_lowercase().starts_with(&typed.to_lowercase()));
        }
    }
}

#[test]
fn completion_takes_no_account_of_case() {
    let editor = SmartEditor::new();
    assert_eq!(suggest(&editor, "HEAD"), vec!["Header"]);
    assert_eq!(suggest(&editor, "head"), vec!["Header"]);
    assert_eq!(suggest(&editor, "hEaDeR"), vec!["Header"]);
    assert_eq!(suggest(&editor, "c"), vec!["Code", "Checklist"]);
    assert_eq!(suggest(&editor, "L"), vec!["Link", "List"]);
    assert_eq!(suggest(&editor, "li"), vec!["Link", "List"]);
    assert_eq!(suggest(&editor, "B"), vec!["Bold", "Blockquote"]);
    assert_eq!(suggest(&editor, "i"), vec!["Image", "Italic"]);
}

#[test]
fn completion_lowers_letters_beyond_ascii() {
    let mut editor = SmartEditor::new();
    editor.add_to_completions_cache("ÉCOLE");
    editor.add_to_completions_cache("Ωmega");
    assert_eq!(suggest(&editor, "éc"), vec!["ÉCOLE"]);
    assert_eq!(suggest(&editor, "ωM"), vec!["Ωmega"]);
}

#[test]
fn no_match_is_an_empty_answer() {
    let editor = SmartEditor::new();
    let answer = editor.get_completions("zzz");
    assert_eq!(answer.word, "zzz");
    assert!(answer.completions.is_empty());
    assert!(suggest(&editor, "Headers").is_empty());
}

#[test]
fn the_typed_word_is_echoed_unchanged() {
    let editor = SmartEditor::new();
    assert_eq!(editor.get_completions("HeAd").word, "HeAd");
    assert_eq!(editor.get_completions(" x ").word, " x ");
}

#[test]
fn learned_words_come_before_known_words() {
    let mut editor = SmartEditor::new();
    editor.add_to_completions_cache("Headwind");
    assert_eq!(suggest(&editor, "Head"), vec!["Headwind", "Header"]);
}

#[test]
fn learned_words_keep_their_order() {
    let mut editor = SmartEditor::new();
    editor.add_to_completions_cache("table saw");
    editor.add_to_completions_cache("tabby");
    editor.add_to_completions_cache("Tab");
    assert_eq!(suggest(&editor, "tab"), vec!["table saw", "tabby", "Tab", "Table"]);
    assert_eq!(suggest(&editor, ""), vec!["table saw", "tabby", "Tab", "Header", "Table"]);
}

#[test]
fn learning_a_word_twice_keeps_it_once() {
    let mut editor = SmartEditor::new();
    editor.add_to_completions_cache("Zebra");
    editor.add_to_completions_cache("Zebra");
    assert_eq!(suggest(&editor, "zeb"), vec!["Zebra"]);
    editor.add_to_completions_cache("Zen");
    editor.add_to_completions_cache("Zebra");
    assert_eq!(suggest(&editor, "z"), vec!["Zebra", "Zen"]);
}

#[test]
fn learning_tells_upper_from_lower_case() {
    let mut editor = SmartEditor::new();
    editor.add_to_completions_cache("word");
    editor.add_to_completions_cache("Word");
    editor.add_to_completions_cache("word");
    assert_eq!(suggest(&editor, "wo"), vec!["word", "Word"]);
}

#[test]
fn a_known_word_can_still_be_learned() {
    let mut editor = SmartEditor::new();
    editor.add_to_completions_cache("Header");
    assert_eq!(suggest(&editor, "head"), vec!["Header", "Header"]);
}

#[test]
fn the_empty_word_can_be_learned() {
    let mut editor = SmartEditor::new();
    editor.add_to_completions_cache("");
    editor.add_to_completions_cache("");
    assert_eq!(suggest(&editor, ""), vec!["", "Header", "Table", "Image", "Link"]);
    assert_eq!(suggest(&editor, "h"), vec!["Header"]);
}

#[test]
fn learning_leaves_the_catalog_alone() {
    let mut editor = SmartEditor::new();
    editor.add_to_completions_cache("table");
    assert_eq!(editor.get_all_snippets().len(), 4);
    assert_eq!(editor.get_snippet("table").unwrap().description, "Basic Table");
}

#[test]
fn editors_do_not_share_what_they_learn() {
    let mut first = SmartEditor::new();
    let second = SmartEditor::new();
    first.add_to_completions_cache("Quokka");
    assert_eq!(suggest(&first, "q"), vec!["Quokka"]);
    assert!(suggest(&second, "q").is_empty());
}

#[test]
fn a_single_line_comes_back_unchanged() {
    let editor = SmartEditor::new();
    assert_eq!(editor.format_table("just one line"), "just one line");
    assert_eq!(editor.format_table("just one line\n"), "just one line\n");
    assert_eq!(editor.format_table("| a | b |\r\n"), "| a | b |\r\n");
    assert_eq!(editor.format_table(""), "");
    assert_eq!(editor.format_table("\n"), "\n");
}

#[test]
fn second_column_is_as_wide_as_its_longest_cell() {
    let editor = SmartEditor::new();
    let formatted = editor.format_table("| A | BB |\n|--|--|\n| 1 | 2 |");
    assert_eq!(formatted, "| A | BB |\n|---|----|\n| 1 | 2  |\n");
    let header = formatted.lines().next().unwrap();
    let second = header.trim_matches('|').split('|').nth(1).unwrap();
    assert_eq!(second.chars().count(), 2 + 2);
}

#[test]
fn formatting_twice_changes_nothing_more() {
    let editor = SmartEditor::new();
    for text in [
        "| A | BB |\n|--|--|\n| 1 | 2 |",
        "a|b\n-\nlonger cell|x|dropped\n\nshort",
        "|||\n\n| |",
        " | x\n-\n\t1 | 2\t\n",
        "Name|Qty\r\n-|-\r\nApple|3\r\n",
        "é|b\n-\nab|ü",
        "one\ntwo",
        "just one line",
        "",
    ] {
        let once = editor.format_table(text);
        let twice = editor.format_table(&once);
        assert_eq!(twice, once);
    }
}
