//! Completion by prefix: which words of a vocabulary complete what has been
//! typed, upper and lower case alike, and how a vocabulary learns a word.

use vstd::prelude::*;
use crate::chars::{chars_of, lower, lowercase};
use crate::seqs::{first_few, views};

verus! {

/// The greatest number of completions that one query returns.
pub const MAX_COMPLETIONS: usize = 5;

/// The answer to one query: the word as it was typed, and its completions.
#[derive(Debug)]
pub struct AutoCompletion {
    /// What was typed, unchanged.
    pub word: String,
    /// The completions, at most `MAX_COMPLETIONS`, in the order in which
    /// the search found them.
    pub completions: Vec<String>,
}

/// An answer as texts.
pub struct CompletionView {
    pub word: Seq<char>,
    pub completions: Seq<Seq<char>>,
}

impl View for AutoCompletion {
    type V = CompletionView;

    open spec fn view(&self) -> CompletionView {
        CompletionView { word: self.word@, completions: views(self.completions@) }
    }
}

impl AutoCompletion {
    /// An answer holds no more completions than one query may return.
    pub open spec fn wf(&self) -> bool {
        self.completions@.len() <= MAX_COMPLETIONS
    }
}

/// The words that every editor knows from the start.
pub open spec fn default_vocabulary() -> Seq<Seq<char>> {
    seq![
        "Header"@,
        "Table"@,
        "Image"@,
        "Link"@,
        "Code"@,
        "List"@,
        "Checklist"@,
        "Bold"@,
        "Italic"@,
        "Blockquote"@,
    ]
}

/// Whether `word` completes what was typed: the lowercase form of the word
/// begins with the lowercase form of what was typed.
pub open spec fn completes(word: Seq<char>, typed: Seq<char>) -> bool {
    lowercase(typed).is_prefix_of(lowercase(word))
}

/// The completions of what was typed: the words that complete it, in the
/// order in which they stand, cut off after `MAX_COMPLETIONS`.
pub open spec fn suggestions(words: Seq<Seq<char>>, typed: Seq<char>) -> Seq<Seq<char>> {
    first_few(words.filter(|word: Seq<char>| completes(word, typed)), MAX_COMPLETIONS as nat)
}

/// Among the first `n` words, those whose key begins with `prefix`, in
/// order. The key of a word is the text at the same place in `keys`.
pub open spec fn keyed(
    words: Seq<Seq<char>>,
    keys: Seq<Seq<char>>,
    prefix: Seq<char>,
    n: nat,
) -> Seq<Seq<char>>
    decreases n,
{
    if n == 0 {
        Seq::empty()
    } else {
        let before = keyed(words, keys, prefix, (n - 1) as nat);
        if prefix.is_prefix_of(keys[n - 1]) {
            before.push(words[n - 1])
        } else {
            before
        }
    }
}

/// How many words have a key.
pub open spec fn paired(words: Seq<Seq<char>>, keys: Seq<Seq<char>>) -> nat {
    if words.len() <= keys.len() {
        words.len()
    } else {
        keys.len()
    }
}

/// The words whose key begins with `prefix`, in order, cut off after
/// `MAX_COMPLETIONS`. A word without a key is passed over.
pub open spec fn selection(
    words: Seq<Seq<char>>,
    keys: Seq<Seq<char>>,
    prefix: Seq<char>,
) -> Seq<Seq<char>> {
    first_few(keyed(words, keys, prefix, paired(words, keys)), MAX_COMPLETIONS as nat)
}

/// The lowercase form of each word.
pub open spec fn lowered(words: Seq<Seq<char>>) -> Seq<Seq<char>> {
    words.map_values(|word: Seq<char>| lowercase(word))
}

/// A vocabulary after it has learned a word: the word stands at its end,
/// unless the vocabulary held it already. Words are compared character by
/// character, upper and lower case apart.
pub open spec fn learned(session: Seq<Seq<char>>, word: Seq<char>) -> Seq<Seq<char>> {
    if session.contains(word) {
        session
    } else {
        session.push(word)
    }
}

/// A vocabulary holds a word that it has learned, exactly once where it
/// held no word twice before, and to learn the word again changes nothing.
pub proof fn lemma_learned_once(session: Seq<Seq<char>>, word: Seq<char>)
    requires
        session.no_duplicates(),
    ensures
        learned(session, word).no_duplicates(),
        learned(session, word).contains(word),
        learned(session, word).to_multiset().count(word) == 1,
        learned(learned(session, word), word) == learned(session, word),
{
    let after = learned(session, word);
    if !session.contains(word) {
        assert(after[session.len() as int] == word);
        assert forall|i: int, j: int|
            0 <= i < after.len() && 0 <= j < after.len() && i != j implies after[i]
            != after[j] by {
            if i < session.len() && j == session.len() {
                assert(session.contains(session[i]));
            }
            if j < session.len() && i == session.len() {
                assert(session.contains(session[j]));
            }
        }
    }
    assert(after.contains(word));
    after.lemma_multiset_has_no_duplicates();
    vstd::seq_lib::to_multiset_contains(after, word);
}

/// The words found among the first `n` are found among the first `m` too,
/// at the same places, for `n <= m`.
pub proof fn lemma_keyed_grows(
    words: Seq<Seq<char>>,
    keys: Seq<Seq<char>>,
    prefix: Seq<char>,
    n: nat,
    m: nat,
)
    requires
        n <= m,
    ensures
        keyed(words, keys, prefix, n).is_prefix_of(keyed(words, keys, prefix, m)),
    decreases m,
{
    if n < m {
        lemma_keyed_grows(words, keys, prefix, n, (m - 1) as nat);
    }
}

/// With the lowercase forms as keys, selecting by the lowercase form of what
/// was typed gives its completions.
pub proof fn lemma_selection_by_lowercase(words: Seq<Seq<char>>, typed: Seq<char>)
    ensures
        selection(words, lowered(words), lowercase(typed)) == suggestions(words, typed),
{
    lemma_keyed_by_lowercase(words, typed, words.len());
    assert(words.take(words.len() as int) == words);
}

/// Among the first `n` words, those selected by lowercase keys are those
/// that complete what was typed.
proof fn lemma_keyed_by_lowercase(words: Seq<Seq<char>>, typed: Seq<char>, n: nat)
    requires
        n <= words.len(),
    ensures
        keyed(words, lowered(words), lowercase(typed), n) == words.take(n as int).filter(
            |word: Seq<char>| completes(word, typed),
        ),
    decreases n,
{
    let fits = |word: Seq<char>| completes(word, typed);
    if n == 0 {
        reveal(Seq::filter);
        assert(words.take(0).len() == 0);
    } else {
        lemma_keyed_by_lowercase(words, typed, (n - 1) as nat);
        let shorter = words.take(n - 1);
        assert(words.take(n as int) == shorter.push(words[n - 1]));
        shorter.lemma_filter_push(words[n - 1], fits);
    }
}

/// Nothing typed is completed by every word: the completions are the
/// first `MAX_COMPLETIONS` words.
pub proof fn lemma_nothing_typed(words: Seq<Seq<char>>)
    ensures
        suggestions(words, Seq::empty()) == first_few(words, MAX_COMPLETIONS as nat),
{
    lemma_all_complete_nothing(words);
}

/// Every word passes where nothing was typed.
proof fn lemma_all_complete_nothing(words: Seq<Seq<char>>)
    ensures
        words.filter(|word: Seq<char>| completes(word, Seq::empty())) == words,
    decreases words.len(),
{
    let fits = |word: Seq<char>| completes(word, Seq::empty());
    reveal(Seq::filter);
    if words.len() > 0 {
        lemma_all_complete_nothing(words.drop_last());
        assert(fits(words.last()));
        assert(words.drop_last().push(words.last()) == words);
    }
}

/// Every suggestion completes what was typed, and there are no more than
/// `MAX_COMPLETIONS` of them.
pub proof fn lemma_suggestions_complete(words: Seq<Seq<char>>, typed: Seq<char>)
    ensures
        suggestions(words, typed).len() <= MAX_COMPLETIONS,
        forall|i: int|
            0 <= i < suggestions(words, typed).len() ==> completes(
                #[trigger] suggestions(words, typed)[i],
                typed,
            ),
{
    let fits = |word: Seq<char>| completes(word, typed);
    let fitting = words.filter(fits);
    assert forall|i: int| 0 <= i < suggestions(words, typed).len() implies completes(
        #[trigger] suggestions(words, typed)[i],
        typed,
    ) by {
        words.lemma_filter_pred(fits, i);
        assert(suggestions(words, typed)[i] == fitting[i]);
    }
}

/// Tells whether `word` begins with `prefix`.
pub fn starts_with(word: &Vec<char>, prefix: &Vec<char>) -> (yes: bool)
    ensures
        yes == prefix@.is_prefix_of(word@),
{
    if prefix.len() > word.len() {
        return false;
    }
    let mut i: usize = 0;
    while i < prefix.len()
        invariant
            i <= prefix.len() <= word.len(),
            forall|j: int| 0 <= j < i ==> prefix@[j] == word@[j],
        decreases prefix.len() - i,
    {
        if prefix[i] != word[i] {
            assert(word@.subrange(0, prefix@.len() as int)[i as int] != prefix@[i as int]);
            return false;
        }
        i += 1;
    }
    true
}

/// Selects the words whose key begins with `prefix`, in order, and stops
/// after `MAX_COMPLETIONS`. The key of a word is the text at the same place
/// in `keys`.
pub fn select_completions(words: &Vec<String>, keys: &Vec<String>, prefix: &str) -> (picked: Vec<
    String,
>)
    ensures
        views(picked@) == selection(views(words@), views(keys@), prefix@),
{
    let wanted = chars_of(prefix);
    let n = if words.len() <= keys.len() {
        words.len()
    } else {
        keys.len()
    };
    let ghost all = views(words@);
    let ghost marks = views(keys@);
    let mut picked: Vec<String> = Vec::new();
    let mut i: usize = 0;
    while i < n && picked.len() < MAX_COMPLETIONS
        invariant
            i <= n,
            n == paired(all, marks),
            all == views(words@),
            marks == views(keys@),
            wanted@ == prefix@,
            picked@.len() <= MAX_COMPLETIONS,
            views(picked@) == keyed(all, marks, prefix@, i as nat),
        decreases n - i,
    {
        let key = chars_of(keys[i].as_str());
        if starts_with(&key, &wanted) {
            picked.push(words[i].clone());
            assert(views(picked@) == keyed(all, marks, prefix@, i as nat).push(all[i as int]));
        }
        i += 1;
    }
    proof {
        lemma_keyed_grows(all, marks, prefix@, i as nat, n as nat);
    }
    picked
}

/// The lowercase form of each word.
pub fn lowercase_all(words: &Vec<String>) -> (keys: Vec<String>)
    ensures
        views(keys@) == lowered(views(words@)),
{
    let mut keys: Vec<String> = Vec::new();
    let mut i: usize = 0;
    while i < words.len()
        invariant
            i <= words.len(),
            keys@.len() == i,
            forall|j: int| 0 <= j < i ==> (#[trigger] keys@[j])@ == lowercase(words@[j]@),
        decreases words.len() - i,
    {
        keys.push(lower(words[i].as_str()));
        i += 1;
    }
    assert(views(keys@) == lowered(views(words@)));
    keys
}

/// Tells whether the vocabulary holds the word.
pub fn holds_word(words: &Vec<String>, word: &str) -> (held: bool)
    ensures
        held == views(words@).contains(word@),
{
    let wanted: String = word.to_owned();
    let mut i: usize = 0;
    while i < words.len()
        invariant
            i <= words.len(),
            wanted@ == word@,
            forall|j: int| 0 <= j < i ==> views(words@)[j] != word@,
        decreases words.len() - i,
    {
        if words[i] == wanted {
            assert(views(words@)[i as int] == word@);
            return true;
        }
        i += 1;
    }
    false
}

/// Appends a copy of each of `more` to `words`.
pub fn extend_words(words: &mut Vec<String>, more: &Vec<String>)
    ensures
        views(final(words)@) == views(old(words)@) + views(more@),
{
    let ghost before = views(words@);
    let mut i: usize = 0;
    while i < more.len()
        invariant
            i <= more.len(),
            views(words@) == before + views(more@).take(i as int),
        decreases more.len() - i,
    {
        let ghost sofar = views(words@);
        words.push(more[i].clone());
        assert(views(words@) == sofar.push(more@[i as int]@));
        i += 1;
    }
    assert(views(more@).take(i as int) == views(more@));
}

/// Builds the vocabulary that every editor knows from the start.
pub fn default_words() -> (words: Vec<String>)
    ensures
        views(words@) == default_vocabulary(),
{
    let mut words: Vec<String> = Vec::new();
    words.push("Header".to_owned());
    words.push("Table".to_owned());
    words.push("Image".to_owned());
    words.push("Link".to_owned());
    words.push("Code".to_owned());
    words.push("List".to_owned());
    words.push("Checklist".to_owned());
    words.push("Bold".to_owned());
    words.push("Italic".to_owned());
    words.push("Blockquote".to_owned());
    assert(views(words@) == default_vocabulary());
    words
}

} // verus!
