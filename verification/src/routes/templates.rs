//! The data that each page shows.

use vstd::prelude::*;
use crate::search::Entry;
use crate::routes::database;

verus! {

/// What the last form submission did.
#[derive(Debug, Clone, Copy, PartialEq, Eq, Structural)]
pub enum FormSaved {
    Saved,
    Updated,
    Deleted,
    Nothing,
}

/// A word of the sentence, and whether it was already met.
#[derive(Debug, Default)]
pub struct FlaggedWord {
    pub word: String,
    pub duplicate: bool,
}

/// The start page.
pub struct IndexTemplate {}

/// A deck line with its words and navigation.
pub struct ViewTemplate {
    pub csv_id: u32,
    pub tl_sentence: String,
    pub nl_sentence: String,
    pub row_order: u32,
    pub csv_row_id: u32,
    pub flashcard_entry: database::FlashcardEntriesEntry,
    pub prev_row_order: Option<u32>,
    pub next_row_order: Option<u32>,
    pub hidden: bool,
    pub words_list: Vec<FlaggedWord>,
    pub was_saved: FormSaved,
}

/// A dictionary entry.
pub struct SentenceViewerTemplate {
    pub word_entry: Entry,
}

/// The flashcard form of a deck line.
pub struct FileFormTemplate {
    pub csv_id: u32,
    pub csv_row_id: u32,
    pub row_order: u32,
    pub flashcard_entry: database::FlashcardEntriesEntry,
    pub was_saved: FormSaved,
}

} // verus!
