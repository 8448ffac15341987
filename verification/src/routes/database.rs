//! Records stored for decks, flashcards and known words.

use vstd::prelude::*;

verus! {

/// One stored deck line.
#[derive(Debug, Default)]
pub struct CsvRowEntry {
    pub csv_row_id: u32,
    pub csv_id: u32,
    pub row_order: u32,
    pub tag: String,
    pub sq_marker: String,
    pub audio: String,
    pub picture: String,
    pub tl_subs: String,
    pub nl_subs: String,
}

/// The flashcard saved for a deck line.
#[derive(Debug)]
pub struct FlashcardEntriesEntry {
    pub flashcard_entries_id: u32,
    pub csv_row_id: u32,
    pub word: String,
    pub definition: String,
}

impl Default for FlashcardEntriesEntry {
    /// The blank flashcard: zero ids, empty word and definition.
    fn default() -> (r: FlashcardEntriesEntry)
        ensures
            r.flashcard_entries_id == 0,
            r.csv_row_id == 0,
            r.word@ == Seq::<char>::empty(),
            r.definition@ == Seq::<char>::empty(),
    {
        FlashcardEntriesEntry {
            flashcard_entries_id: 0,
            csv_row_id: 0,
            word: String::new(),
            definition: String::new(),
        }
    }
}

/// A word already met, and whether the learner chose to ignore it.
#[derive(Debug, Default)]
pub struct WordEntry {
    pub word_id: u32,
    pub csv_row_id: u32,
    pub word: String,
    pub is_ignored: bool,
}

/// The id of a deck line.
#[derive(Debug, Default)]
pub struct CsvLastRowId {
    pub csv_row_id: u32,
}

} // verus!
