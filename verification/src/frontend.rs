//! What the browser front end shows: the data it receives for a sentence,
//! whether the upload form or the sentence viewer is on screen, and which
//! word and definition are selected.

use vstd::prelude::*;
use crate::search::Entry;

verus! {

/// A sentence with its dictionary entries and whether there are previous
/// and next sentences.
#[derive(Debug, Clone, Default, PartialEq)]
pub struct RecievedData {
    pub sentence: String,
    pub sentence_entries: Vec<Entry>,
    pub prev_flag: bool,
    pub next_flag: bool,
}

/// A numbered sentence.
#[derive(Debug, Clone, PartialEq)]
pub struct Sentence {
    pub id: usize,
    pub text: String,
}

/// Whether nothing has been received yet (the value equals the default
/// one), in which case the upload form is shown instead of the viewer.
pub fn shows_uploader(data: &RecievedData) -> (b: bool)
    ensures
        b == (data.sentence@.len() == 0 && data.sentence_entries@.len() == 0 && !data.prev_flag
            && !data.next_flag),
{
    data.sentence.as_str().is_empty() && data.sentence_entries.len() == 0 && !data.prev_flag
        && !data.next_flag
}

/// Whether the entry at `entry_index` is the selected word.
pub fn is_selected(word_index: Option<usize>, entry_index: usize) -> (b: bool)
    ensures
        b == (word_index == Some(entry_index)),
{
    match word_index {
        Some(w) => w == entry_index,
        None => false,
    }
}

/// The line shown for a selection: the selected word and the selected
/// definition, or `No Selection` unless both are chosen.
pub fn selection_preview(entries: &Vec<Entry>, word: Option<usize>, def: Option<usize>) -> (s: String)
    requires
        word is Some && def is Some ==> word->0 < entries@.len() && def->0
            < entries@[word->0 as int].definition@.len(),
    ensures
        match (word, def) {
            (Some(w), Some(d)) => s@ == "selected word: "@ + entries@[w as int].word@
                + " | selected def: "@ + entries@[w as int].definition@[d as int]@,
            _ => s@ == "No Selection"@,
        },
{
    match (word, def) {
        (Some(w), Some(d)) => {
            let entry = &entries[w];
            let mut s = "selected word: ".to_owned();
            s.append(entry.word.as_str());
            s.append(" | selected def: ");
            s.append(entry.definition[d].as_str());
            s
        },
        _ => "No Selection".to_owned(),
    }
}

/// The definitions of an entry as shown: each translation paired with its
/// explanation (as many pairs as the shorter list), and whether it is the
/// selected definition of the selected word.
pub fn definition_rows(entry: &Entry, selected_def: Option<usize>, is_selected: bool) -> (r: Vec<
    (String, String, bool),
>)
    ensures
        r@.len() == if entry.definition@.len() <= entry.explaination@.len() {
            entry.definition@.len()
        } else {
            entry.explaination@.len()
        },
        forall|i: int|
            0 <= i < r@.len() ==> (#[trigger] r@[i]).0@ == entry.definition@[i]@ && r@[i].1@
                == entry.explaination@[i]@ && r@[i].2 == (selected_def == Some(i as usize)
                && is_selected),
{
    let mut r: Vec<(String, String, bool)> = Vec::new();
    let mut i: usize = 0;
    while i < entry.definition.len() && i < entry.explaination.len()
        invariant
            i <= entry.definition@.len(),
            i <= entry.explaination@.len(),
            r@.len() == i,
            forall|j: int|
                0 <= j < i ==> (#[trigger] r@[j]).0@ == entry.definition@[j]@ && r@[j].1@
                    == entry.explaination@[j]@ && r@[j].2 == (selected_def == Some(j as usize)
                    && is_selected),
        decreases entry.definition.len() - i,
    {
        let selected = match selected_def {
            Some(s) => s == i && is_selected,
            None => false,
        };
        r.push((entry.definition[i].clone(), entry.explaination[i].clone(), selected));
        i = i + 1;
    }
    r
}

} // verus!
