use smart_editor::snippet::{default_snippets, find_snippet};
use smart_editor::SnippetTemplate;

fn make(name: &str, content: &str) -> SnippetTemplate {
    SnippetTemplate {
        name: name.to_string(),
        content: content.to_string(),
        description: String::new(),
    }
}

#[test]
fn default_catalog_has_four_distinct_names() {
    let catalog = default_snippets();
    assert_eq!(catalog.len(), 4);
    for i in 0..catalog.len() {
        for j in 0..i {
            assert_ne!(catalog[i].name, catalog[j].name);
        }
    }
}

#[test]
fn default_table_snippet_has_two_columns_and_three_lines() {
    let catalog = default_snippets();
    let table = find_snippet(&catalog, "table").unwrap();
    let lines: Vec<&str> = table.content.lines().collect();
    assert_eq!(lines.len(), 3);
    for line in lines {
        assert_eq!(line.trim_matches('|').split('|').count(), 2);
    }
}

#[test]
fn default_checklist_has_three_unchecked_tasks() {
    let catalog = default_snippets();
    let checklist = find_snippet(&catalog, "checklist").unwrap();
    let lines: Vec<&str> = checklist.content.lines().collect();
    assert_eq!(lines.len(), 3);
    for line in lines {
        assert!(line.starts_with("- [ ] "));
    }
}

#[test]
fn find_snippet_returns_the_first_of_a_name() {
    let catalog = vec![make("a", "first"), make("b", "second"), make("a", "third")];
    assert_eq!(find_snippet(&catalog, "a").unwrap().content, "first");
    assert_eq!(find_snippet(&catalog, "b").unwrap().content, "second");
    assert!(find_snippet(&catalog, "c").is_none());
    assert!(find_snippet(&catalog, "A").is_none());
    assert!(find_snippet(&Vec::new(), "a").is_none());
}
