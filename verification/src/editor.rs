//! The editor's assistant: one value for one editing session, which
//! completes words, hands out snippets and aligns tables.

use vstd::prelude::*;
use crate::chars::{chars_of, lower, string_of};
use crate::completion::{
    completes, default_vocabulary, default_words, extend_words, holds_word, learned,
    lemma_learned_once, lemma_nothing_typed, lemma_selection_by_lowercase,
    lemma_suggestions_complete, lowercase_all, select_completions, suggestions, AutoCompletion,
    MAX_COMPLETIONS,
};
use crate::scan::lines_of;
use crate::seqs::{first_few, views};
use crate::snippet::{
    default_catalog, default_snippets, find_snippet, lemma_named, named, names_unique,
    SnippetTemplate, SnippetView,
};
use crate::table::{format_chars, formatted_table};
use crate::table_laws::lemma_format_idempotent;

verus! {

/// The assistant of one editing session.
#[derive(Debug)]
pub struct SmartEditor {
    /// The words learned in this session, in the order in which they came,
    /// none of them twice.
    completions_cache: Vec<String>,
    /// The catalog of snippets, fixed when the editor is made.
    snippets: Vec<SnippetTemplate>,
    /// The words known from the start, fixed when the editor is made.
    common_words: Vec<String>,
}

/// An editor as what it holds.
pub struct EditorView {
    /// The session vocabulary.
    pub session: Seq<Seq<char>>,
    /// The catalog of snippets.
    pub snippets: Seq<SnippetView>,
    /// The base vocabulary.
    pub base: Seq<Seq<char>>,
}

impl EditorView {
    /// The session vocabulary holds no word twice, and no two snippets of
    /// the catalog have the same name.
    pub open spec fn wf(self) -> bool {
        &&& self.session.no_duplicates()
        &&& names_unique(self.snippets)
    }

    /// The words in the order in which a query goes through them: the
    /// session vocabulary, then the base vocabulary.
    pub open spec fn search_order(self) -> Seq<Seq<char>> {
        self.session + self.base
    }

    /// The editor after it has learned a word.
    pub open spec fn learn(self, word: Seq<char>) -> EditorView {
        EditorView { session: learned(self.session, word), ..self }
    }
}

/// What every editor holds when it is made.
pub open spec fn fresh_editor() -> EditorView {
    EditorView { session: Seq::empty(), snippets: default_catalog(), base: default_vocabulary() }
}

/// Learning is idempotent: an editor that has learned a word holds it
/// exactly once in its session vocabulary, is well formed, and is not
/// changed by learning the same word again.
pub proof fn lemma_learn_twice(editor: EditorView, word: Seq<char>)
    requires
        editor.wf(),
    ensures
        editor.learn(word).learn(word) == editor.learn(word),
        editor.learn(word).session.to_multiset().count(word) == 1,
        editor.learn(word).wf(),
{
    lemma_learned_once(editor.session, word);
}

/// Learned words come first: the completions are those of the session
/// vocabulary, followed by those of the base vocabulary, cut off after
/// `MAX_COMPLETIONS`.
pub proof fn lemma_session_words_first(editor: EditorView, typed: Seq<char>)
    ensures
        suggestions(editor.search_order(), typed) == first_few(
            editor.session.filter(|word: Seq<char>| completes(word, typed)) + editor.base.filter(
                |word: Seq<char>| completes(word, typed),
            ),
            MAX_COMPLETIONS as nat,
        ),
{
    Seq::filter_distributes_over_add(
        editor.session,
        editor.base,
        |word: Seq<char>| completes(word, typed),
    );
}

impl View for SmartEditor {
    type V = EditorView;

    closed spec fn view(&self) -> EditorView {
        EditorView {
            session: views(self.completions_cache@),
            snippets: views(self.snippets@),
            base: views(self.common_words@),
        }
    }
}

impl SmartEditor {
    #[verifier::type_invariant]
    spec fn well_formed(&self) -> bool {
        self@.wf()
    }

    /// Makes an editor with the default catalog and base vocabulary, which
    /// has learned nothing yet.
    pub fn new() -> (editor: Self)
        ensures
            editor@ == fresh_editor(),
            editor@.wf(),
    {
        let completions_cache: Vec<String> = Vec::new();
        assert(views(completions_cache@) == Seq::<Seq<char>>::empty());
        SmartEditor {
            completions_cache,
            snippets: default_snippets(),
            common_words: default_words(),
        }
    }

    /// Completes what has been typed: the first `MAX_COMPLETIONS` words, of
    /// the session vocabulary and then of the base vocabulary, that begin
    /// with it, upper and lower case alike. Where nothing has been typed,
    /// every word completes it.
    pub fn get_completions(&self, current_word: &str) -> (answer: AutoCompletion)
        ensures
            answer@.word == current_word@,
            answer@.completions == suggestions(self@.search_order(), current_word@),
            answer@.completions.len() <= MAX_COMPLETIONS,
            forall|i: int|
                0 <= i < answer@.completions.len() ==> completes(
                    #[trigger] answer@.completions[i],
                    current_word@,
                ),
            current_word@.len() == 0 ==> answer@.completions == first_few(
                self@.search_order(),
                MAX_COMPLETIONS as nat,
            ),
            answer.wf(),
    {
        let mut all_words: Vec<String> = Vec::new();
        extend_words(&mut all_words, &self.completions_cache);
        extend_words(&mut all_words, &self.common_words);
        assert(views(all_words@) == self@.search_order());
        let keys = lowercase_all(&all_words);
        let typed = lower(current_word);
        let completions = select_completions(&all_words, &keys, typed.as_str());
        proof {
            lemma_selection_by_lowercase(views(all_words@), current_word@);
            lemma_suggestions_complete(views(all_words@), current_word@);
            if current_word@.len() == 0 {
                assert(current_word@ == Seq::<char>::empty());
                lemma_nothing_typed(views(all_words@));
            }
        }
        AutoCompletion { word: current_word.to_owned(), completions }
    }

    /// Looks a snippet up by its name: the snippet of the catalog that bears
    /// the name, or nothing where none does.
    pub fn get_snippet(&self, name: &str) -> (found: Option<&SnippetTemplate>)
        ensures
            match found {
                Some(snippet) => named(self@.snippets, name@) == Some(snippet@),
                None => named(self@.snippets, name@) is None,
            },
            found matches Some(snippet) ==> snippet@.name == name@,
            found is Some <==> exists|i: int|
                0 <= i < self@.snippets.len() && (#[trigger] self@.snippets[i]).name == name@,
    {
        let found = find_snippet(&self.snippets, name);
        proof {
            lemma_named(self@.snippets, name@);
        }
        found
    }

    /// The whole catalog, in its order.
    pub fn get_all_snippets(&self) -> (catalog: &Vec<SnippetTemplate>)
        ensures
            views(catalog@) == self@.snippets,
    {
        &self.snippets
    }

    /// Learns a word: it joins the session vocabulary at the end, unless
    /// the session vocabulary holds it already. Nothing bounds the session
    /// vocabulary: it grows with every new word, and the host decides how
    /// often it calls.
    pub fn add_to_completions_cache(&mut self, word: &str)
        ensures
            final(self)@ == old(self)@.learn(word@),
            final(self)@.wf(),
            final(self)@.session.to_multiset().count(word@) == 1,
            final(self)@.learn(word@) == final(self)@,
    {
        proof {
            use_type_invariant(&*self);
            lemma_learn_twice(self@, word@);
        }
        if !holds_word(&self.completions_cache, word) {
            let ghost before = views(self.completions_cache@);
            // The vocabulary grows outside the editor and comes back whole,
            // so that the editor is well formed at every step.
            let mut session: Vec<String> = Vec::new();
            std::mem::swap(&mut self.completions_cache, &mut session);
            session.push(word.to_owned());
            assert(views(session@) == before.push(word@));
            std::mem::swap(&mut self.completions_cache, &mut session);
        }
    }

    /// Aligns the columns of a pipe-delimited table. A text of fewer than
    /// two lines comes back unchanged, and so does a table that is aligned
    /// already.
    pub fn format_table(&self, table_text: &str) -> (formatted: String)
        ensures
            formatted@ == formatted_table(table_text@),
            lines_of(table_text@).len() < 2 ==> formatted@ == table_text@,
            formatted_table(formatted@) == formatted@,
    {
        let text = chars_of(table_text);
        let formatted = format_chars(&text);
        proof {
            lemma_format_idempotent(table_text@);
        }
        string_of(&formatted)
    }
}

} // verus!
