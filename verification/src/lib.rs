//! An in-editor writing assistant: prefix completion over a growing
//! vocabulary, a fixed catalog of text snippets, and realignment of
//! pipe-delimited tables.

pub mod chars;
pub mod completion;
pub mod editor;
pub mod scan;
pub mod scan_laws;
pub mod seqs;
pub mod snippet;
pub mod table;
pub mod table_laws;

pub use completion::AutoCompletion;
pub use editor::SmartEditor;
pub use snippet::SnippetTemplate;
