//! Snippets: named pieces of template text, and the catalog that every
//! editor starts with.

use vstd::prelude::*;
use crate::seqs::views;

verus! {

/// A named, reusable piece of template text.
#[derive(Debug)]
pub struct SnippetTemplate {
    /// The name under which the snippet is found; unique within a catalog.
    pub name: String,
    /// The template text, line breaks and placeholders included.
    pub content: String,
    /// A label for the reader.
    pub description: String,
}

/// A snippet as three texts.
pub struct SnippetView {
    pub name: Seq<char>,
    pub content: Seq<char>,
    pub description: Seq<char>,
}

impl View for SnippetTemplate {
    type V = SnippetView;

    open spec fn view(&self) -> SnippetView {
        SnippetView { name: self.name@, content: self.content@, description: self.description@ }
    }
}

impl Clone for SnippetTemplate {
    fn clone(&self) -> (copy: Self)
        ensures
            copy@ == self@,
    {
        SnippetTemplate {
            name: self.name.clone(),
            content: self.content.clone(),
            description: self.description.clone(),
        }
    }
}

/// The catalog that every editor starts with: a table, a code block, a
/// checklist and a link, in this order.
pub open spec fn default_catalog() -> Seq<SnippetView> {
    seq![
        SnippetView {
            name: "table"@,
            content: "| Header 1 | Header 2 |\n|----------|----------|\n| Cell 1   | Cell 2   |"@,
            description: "Basic Table"@,
        },
        SnippetView { name: "code"@, content: "```\n\n```"@, description: "Code Block"@ },
        SnippetView {
            name: "checklist"@,
            content: "- [ ] Task 1\n- [ ] Task 2\n- [ ] Task 3"@,
            description: "Checklist"@,
        },
        SnippetView { name: "link"@, content: "[Link Text](url)"@, description: "Hyperlink"@ },
    ]
}

/// No two snippets of the catalog have the same name.
pub open spec fn names_unique(catalog: Seq<SnippetView>) -> bool {
    forall|i: int, j: int|
        0 <= i < j < catalog.len() ==> (#[trigger] catalog[i]).name != (#[trigger] catalog[j]).name
}

/// The first snippet of the catalog with the given name, if there is one.
/// Names are compared character by character, upper and lower case apart.
pub open spec fn named(catalog: Seq<SnippetView>, name: Seq<char>) -> Option<SnippetView>
    decreases catalog.len(),
{
    if catalog.len() == 0 {
        None
    } else if catalog.first().name == name {
        Some(catalog.first())
    } else {
        named(catalog.drop_first(), name)
    }
}

/// What `named` finds bears the name and stands in the catalog, with no
/// snippet of that name before it; it finds nothing only where no snippet
/// bears the name.
pub proof fn lemma_named(catalog: Seq<SnippetView>, name: Seq<char>)
    ensures
        match named(catalog, name) {
            Some(snippet) => exists|i: int|
                0 <= i < catalog.len() && #[trigger] catalog[i] == snippet && snippet.name == name
                    && forall|j: int| 0 <= j < i ==> (#[trigger] catalog[j]).name != name,
            None => forall|i: int| 0 <= i < catalog.len() ==> (#[trigger] catalog[i]).name != name,
        },
    decreases catalog.len(),
{
    if catalog.len() > 0 && catalog.first().name != name {
        let rest = catalog.drop_first();
        lemma_named(rest, name);
        match named(rest, name) {
            Some(snippet) => {
                let i = choose|i: int|
                    0 <= i < rest.len() && #[trigger] rest[i] == snippet && snippet.name == name
                        && forall|j: int| 0 <= j < i ==> (#[trigger] rest[j]).name != name;
                assert(catalog[i + 1] == snippet);
                assert forall|j: int| 0 <= j < i + 1 implies (#[trigger] catalog[j]).name
                    != name by {
                    if j > 0 {
                        assert(rest[j - 1].name != name);
                    }
                }
            },
            None => {
                assert forall|i: int| 0 <= i < catalog.len() implies (#[trigger] catalog[i]).name
                    != name by {
                    if i > 0 {
                        assert(rest[i - 1].name != name);
                    }
                }
            },
        }
    } else if catalog.len() > 0 {
        assert(catalog[0] == catalog.first());
    }
}

/// Makes a snippet of three texts.
fn snippet(name: &str, content: &str, description: &str) -> (made: SnippetTemplate)
    ensures
        made@ == (SnippetView { name: name@, content: content@, description: description@ }),
{
    SnippetTemplate {
        name: name.to_owned(),
        content: content.to_owned(),
        description: description.to_owned(),
    }
}

/// Builds the catalog that every editor starts with.
pub fn default_snippets() -> (catalog: Vec<SnippetTemplate>)
    ensures
        views(catalog@) == default_catalog(),
        names_unique(default_catalog()),
{
    let mut catalog: Vec<SnippetTemplate> = Vec::new();
    catalog.push(
        snippet(
            "table",
            "| Header 1 | Header 2 |\n|----------|----------|\n| Cell 1   | Cell 2   |",
            "Basic Table",
        ),
    );
    catalog.push(snippet("code", "```\n\n```", "Code Block"));
    catalog.push(snippet("checklist", "- [ ] Task 1\n- [ ] Task 2\n- [ ] Task 3", "Checklist"));
    catalog.push(snippet("link", "[Link Text](url)", "Hyperlink"));
    proof {
        lemma_default_names_unique();
    }
    assert(views(catalog@) == default_catalog());
    catalog
}

/// The four names of the default catalog differ from one another.
pub proof fn lemma_default_names_unique()
    ensures
        names_unique(default_catalog()),
{
    reveal_strlit("table");
    reveal_strlit("code");
    reveal_strlit("checklist");
    reveal_strlit("link");
    let catalog = default_catalog();
    assert(catalog[0].name.len() == 5);
    assert(catalog[1].name.len() == 4 && catalog[1].name[0] == 'c');
    assert(catalog[2].name.len() == 9);
    assert(catalog[3].name.len() == 4 && catalog[3].name[0] == 'l');
}

/// Looks a snippet up by its name: the first snippet of the catalog that
/// bears the name, or nothing where none does.
pub fn find_snippet<'a>(catalog: &'a Vec<SnippetTemplate>, name: &str) -> (found: Option<
    &'a SnippetTemplate,
>)
    ensures
        match found {
            Some(snippet) => named(views(catalog@), name@) == Some(snippet@),
            None => named(views(catalog@), name@) is None,
        },
        found matches Some(snippet) ==> snippet@.name == name@,
        found is Some <==> exists|i: int|
            0 <= i < catalog@.len() && (#[trigger] catalog@[i])@.name == name@,
{
    let wanted: String = name.to_owned();
    let ghost all = views(catalog@);
    proof {
        lemma_named(all, name@);
        assert(all.skip(0) == all);
        assert forall|i: int| 0 <= i < catalog@.len() implies (#[trigger] catalog@[i])@
            == all[i] by {}
    }
    let mut i: usize = 0;
    while i < catalog.len()
        invariant
            i <= catalog.len(),
            all == views(catalog@),
            wanted@ == name@,
            named(all, name@) == named(all.skip(i as int), name@),
        decreases catalog.len() - i,
    {
        assert(all.skip(i as int).first() == catalog@[i as int]@);
        if catalog[i].name == wanted {
            return Some(&catalog[i]);
        }
        assert(all.skip(i as int).drop_first() == all.skip(i as int + 1));
        i += 1;
    }
    None
}

} // verus!
