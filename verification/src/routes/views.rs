//! Which words of a sentence are shown, which deck line is the next, the
//! previous or the first one worth showing, and what the line page holds.
//! Reading the store and analysing sentences happen around these decisions.

use vstd::prelude::*;
use crate::routes::database::{CsvRowEntry, FlashcardEntriesEntry, WordEntry};
use crate::routes::templates::{FlaggedWord, FormSaved, ViewTemplate};
use crate::text::string_views;

verus! {

/// The abstract content of a flagged word.
pub open spec fn flagged_view(f: FlaggedWord) -> (Seq<char>, bool) {
    (f.word@, f.duplicate)
}

/// The words of a sentence worth showing: a word never met is shown as new,
/// a word met before is shown as a repeat unless it is ignored, and an
/// ignored word is dropped. `known[i]` is what the store holds for `words[i]`.
pub open spec fn flag_words(words: Seq<Seq<char>>, known: Seq<Option<bool>>) -> Seq<(Seq<char>, bool)>
    decreases words.len(),
{
    if words.len() == 0 || known.len() != words.len() {
        seq![]
    } else {
        let rest = flag_words(words.drop_last(), known.drop_last());
        match known.last() {
            None => rest.push((words.last(), false)),
            Some(ignored) => if ignored {
                rest
            } else {
                rest.push((words.last(), true))
            },
        }
    }
}

/// Whether each stored word is ignored.
pub open spec fn known_view(v: Seq<Option<WordEntry>>) -> Seq<Option<bool>> {
    v.map_values(|e: Option<WordEntry>| match e {
        Some(w) => Some(w.is_ignored),
        None => None,
    })
}

/// The words of a sentence to show, given what the store holds for each
/// word (`repeated_words[i]` for `sentence[i]`).
pub fn filter_sentence(sentence: Vec<String>, repeated_words: Vec<Option<WordEntry>>) -> (r: Vec<
    FlaggedWord,
>)
    requires
        repeated_words.len() == sentence.len(),
    ensures
        r@.map_values(|f: FlaggedWord| flagged_view(f)) == flag_words(
            string_views(sentence@),
            known_view(repeated_words@),
        ),
{
    let ghost ws = string_views(sentence@);
    let ghost ks = known_view(repeated_words@);
    let mut filtered_sentence: Vec<FlaggedWord> = Vec::new();
    let mut i: usize = 0;
    while i < sentence.len()
        invariant
            i <= sentence.len(),
            repeated_words.len() == sentence.len(),
            ws == string_views(sentence@),
            ks == known_view(repeated_words@),
            filtered_sentence@.map_values(|f: FlaggedWord| flagged_view(f)) == flag_words(
                ws.take(i as int),
                ks.take(i as int),
            ),
        decreases sentence.len() - i,
    {
        assert(ws.take(i + 1).drop_last() =~= ws.take(i as int));
        assert(ks.take(i + 1).drop_last() =~= ks.take(i as int));
        assert(ws.take(i + 1).last() == ws[i as int]);
        assert(ks.take(i + 1).last() == ks[i as int]);
        let ghost before = filtered_sentence@.map_values(|f: FlaggedWord| flagged_view(f));
        let word = sentence[i].clone();
        match &repeated_words[i] {
            Some(entry) => {
                if !entry.is_ignored {
                    let flagged_word = FlaggedWord { word, duplicate: true };
                    filtered_sentence.push(flagged_word);
                    assert(filtered_sentence@.map_values(|f: FlaggedWord| flagged_view(f))
                        =~= before.push((ws[i as int], true)));
                }
            },
            None => {
                let flagged_word = FlaggedWord { word, duplicate: false };
                filtered_sentence.push(flagged_word);
                assert(filtered_sentence@.map_values(|f: FlaggedWord| flagged_view(f))
                    =~= before.push((ws[i as int], false)));
            },
        }
        i = i + 1;
    }
    assert(ws.take(sentence.len() as int) =~= ws);
    assert(ks.take(sentence.len() as int) =~= ks);
    filtered_sentence
}

/// The largest of the ids of a deck's lines, or `None` for a deck with no lines.
pub fn last_csv_row_id(csv_rows: &Vec<u32>) -> (r: Option<u32>)
    ensures
        csv_rows@.len() == 0 <==> r is None,
        r matches Some(m) ==> csv_rows@.contains(m) && forall|i: int|
            0 <= i < csv_rows@.len() ==> csv_rows@[i] <= m,
{
    if csv_rows.len() == 0 {
        return None;
    }
    let mut best: u32 = csv_rows[0];
    let mut i: usize = 1;
    while i < csv_rows.len()
        invariant
            1 <= i <= csv_rows.len(),
            csv_rows@.contains(best),
            forall|j: int| 0 <= j < i ==> csv_rows@[j] <= best,
        decreases csv_rows.len() - i,
    {
        if csv_rows[i] > best {
            best = csv_rows[i];
        }
        i = i + 1;
    }
    Some(best)
}

/// The page of a deck line: its sentences, its saved flashcard (or a blank
/// one), its neighbours worth showing, its words, hidden when no word is
/// worth showing.
pub fn view_page(
    csv_id: u32,
    csv_row: CsvRowEntry,
    flashcard_entry: Option<FlashcardEntriesEntry>,
    prev_row_order: Option<u32>,
    next_row_order: Option<u32>,
    filtered_sentence: Vec<FlaggedWord>,
) -> (t: ViewTemplate)
    ensures
        t.csv_id == csv_id,
        t.csv_row_id == csv_row.csv_row_id,
        t.tl_sentence == csv_row.tl_subs,
        t.nl_sentence == csv_row.nl_subs,
        t.row_order == csv_row.row_order,
        match flashcard_entry {
            Some(f) => t.flashcard_entry == f,
            None => t.flashcard_entry.flashcard_entries_id == 0 && t.flashcard_entry.csv_row_id == 0
                && t.flashcard_entry.word@.len() == 0 && t.flashcard_entry.definition@.len() == 0,
        },
        t.prev_row_order == prev_row_order,
        t.next_row_order == next_row_order,
        t.hidden == (filtered_sentence@.len() == 0),
        t.words_list == filtered_sentence,
        t.was_saved == FormSaved::Nothing,
{
    let flashcard = match flashcard_entry {
        Some(f) => f,
        None => FlashcardEntriesEntry::default(),
    };
    let hidden = filtered_sentence.len() == 0;
    ViewTemplate {
        csv_id,
        csv_row_id: csv_row.csv_row_id,
        tl_sentence: csv_row.tl_subs,
        nl_sentence: csv_row.nl_subs,
        row_order: csv_row.row_order,
        flashcard_entry: flashcard,
        prev_row_order,
        next_row_order,
        hidden,
        words_list: filtered_sentence,
        was_saved: FormSaved::Nothing,
    }
}


/// Which way a flashcard scan moves through a deck.
#[derive(Debug, Clone, Copy, PartialEq, Eq, Structural)]
pub enum ScanDirection {
    Forward,
    Backward,
}

/// A scan through a deck for the nearest line with a word worth showing:
/// the direction, the row order it asked for last and the id of the deck's
/// last line.
#[derive(Debug, Clone, Copy, PartialEq, Eq, Structural)]
pub struct FlashcardScan {
    pub direction: ScanDirection,
    pub row_order: u32,
    pub last_row_id: u32,
}

/// What a scan does next: read the line with this row order, stop on the
/// line just read (its row order), or stop with nothing to show.
#[derive(Debug, Clone, Copy, PartialEq, Eq, Structural)]
pub enum ScanAction {
    Fetch(u32),
    Found(u32),
    Exhausted,
}

/// One step of a scan, after reading the line `(id, row_order)` that has
/// (or has not) a word worth showing: a line with such a word is the
/// answer; otherwise a forward scan stops at or past the deck's last line
/// and a backward scan stops at the first row order, and else asks for the
/// neighbouring row order.
pub open spec fn scan_step(s: FlashcardScan, id: u32, order: u32, has_words: bool) -> (
    FlashcardScan,
    ScanAction,
) {
    if has_words {
        (s, ScanAction::Found(order))
    } else {
        match s.direction {
            ScanDirection::Forward => if id >= s.last_row_id {
                (s, ScanAction::Exhausted)
            } else {
                let n = (s.row_order + 1) as u32;
                (FlashcardScan { row_order: n, ..s }, ScanAction::Fetch(n))
            },
            ScanDirection::Backward => if order <= 1 {
                (s, ScanAction::Exhausted)
            } else {
                let n = (s.row_order - 1) as u32;
                (FlashcardScan { row_order: n, ..s }, ScanAction::Fetch(n))
            },
        }
    }
}

/// A step does not step past the range of row orders.
pub open spec fn scan_step_defined(s: FlashcardScan, id: u32, order: u32, has_words: bool) -> bool {
    !has_words ==> match s.direction {
        ScanDirection::Forward => id < s.last_row_id ==> s.row_order < u32::MAX,
        ScanDirection::Backward => order > 1 ==> s.row_order > 0,
    }
}

impl FlashcardScan {
    /// Starts the search for the next line after `current`: none when
    /// `current` is the deck's last line, else read the following row order.
    pub fn next_flashcard(current: &CsvRowEntry, last_row_id: u32) -> (r: (FlashcardScan, ScanAction))
        requires
            current.csv_row_id != last_row_id ==> current.row_order < u32::MAX,
        ensures
            r.0 == (FlashcardScan {
                direction: ScanDirection::Forward,
                row_order: if current.csv_row_id == last_row_id {
                    current.row_order
                } else {
                    (current.row_order + 1) as u32
                },
                last_row_id,
            }),
            r.1 == if current.csv_row_id == last_row_id {
                ScanAction::Exhausted
            } else {
                ScanAction::Fetch((current.row_order + 1) as u32)
            },
    {
        if current.csv_row_id == last_row_id {
            return (
                FlashcardScan {
                    direction: ScanDirection::Forward,
                    row_order: current.row_order,
                    last_row_id,
                },
                ScanAction::Exhausted,
            );
        }
        let n = current.row_order + 1;
        (FlashcardScan { direction: ScanDirection::Forward, row_order: n, last_row_id }, ScanAction::Fetch(n))
    }

    /// Starts the search for the previous line before `current`: none when
    /// `current` has row order 1, else read the preceding row order.
    pub fn prev_flashcard(current: &CsvRowEntry) -> (r: (FlashcardScan, ScanAction))
        requires
            current.row_order != 0,
        ensures
            r.0 == (FlashcardScan {
                direction: ScanDirection::Backward,
                row_order: if current.row_order == 1 {
                    1
                } else {
                    (current.row_order - 1) as u32
                },
                last_row_id: 0,
            }),
            r.1 == if current.row_order == 1 {
                ScanAction::Exhausted
            } else {
                ScanAction::Fetch((current.row_order - 1) as u32)
            },
    {
        if current.row_order == 1 {
            return (
                FlashcardScan { direction: ScanDirection::Backward, row_order: 1, last_row_id: 0 },
                ScanAction::Exhausted,
            );
        }
        let n = current.row_order - 1;
        (FlashcardScan { direction: ScanDirection::Backward, row_order: n, last_row_id: 0 }, ScanAction::Fetch(n))
    }

    /// Starts the search for the first line worth showing, from the deck's
    /// line with row order 1: none when that line is the deck's last line,
    /// else read it again as the first candidate.
    pub fn current_flashcard(first: &CsvRowEntry, last_row_id: u32) -> (r: (FlashcardScan, ScanAction))
        ensures
            r.0 == (FlashcardScan {
                direction: ScanDirection::Forward,
                row_order: first.row_order,
                last_row_id,
            }),
            r.1 == if first.csv_row_id == last_row_id {
                ScanAction::Exhausted
            } else {
                ScanAction::Fetch(first.row_order)
            },
    {
        let scan = FlashcardScan {
            direction: ScanDirection::Forward,
            row_order: first.row_order,
            last_row_id,
        };
        if first.csv_row_id == last_row_id {
            (scan, ScanAction::Exhausted)
        } else {
            (scan, ScanAction::Fetch(first.row_order))
        }
    }

    /// Takes the line just read and whether it has a word worth showing.
    pub fn step(&mut self, csv_row: &CsvRowEntry, has_words: bool) -> (a: ScanAction)
        requires
            scan_step_defined(*old(self), csv_row.csv_row_id, csv_row.row_order, has_words),
        ensures
            (*final(self), a) == scan_step(*old(self), csv_row.csv_row_id, csv_row.row_order, has_words),
    {
        if has_words {
            return ScanAction::Found(csv_row.row_order);
        }
        match self.direction {
            ScanDirection::Forward => {
                if csv_row.csv_row_id >= self.last_row_id {
                    ScanAction::Exhausted
                } else {
                    self.row_order = self.row_order + 1;
                    ScanAction::Fetch(self.row_order)
                }
            },
            ScanDirection::Backward => {
                if csv_row.row_order <= 1 {
                    ScanAction::Exhausted
                } else {
                    self.row_order = self.row_order - 1;
                    ScanAction::Fetch(self.row_order)
                }
            },
        }
    }
}

/// The result of running a scan over the lines `trace` read in turn (each
/// as `(id, row_order, has_words)`), or `None` when the scan still asks for
/// more lines after them.
pub open spec fn scan_run(s: FlashcardScan, trace: Seq<(u32, u32, bool)>) -> Option<ScanAction>
    decreases trace.len(),
{
    if trace.len() == 0 {
        None
    } else {
        let (next, a) = scan_step(s, trace[0].0, trace[0].1, trace[0].2);
        match a {
            ScanAction::Fetch(_) => scan_run(next, trace.drop_first()),
            _ => Some(a),
        }
    }
}

/// Going forward: the first line read that has a word worth showing, unless
/// a line at or past the deck's last line without such a word comes first.
pub open spec fn first_forward(trace: Seq<(u32, u32, bool)>, last_row_id: u32) -> Option<ScanAction>
    decreases trace.len(),
{
    if trace.len() == 0 {
        None
    } else if trace[0].2 {
        Some(ScanAction::Found(trace[0].1))
    } else if trace[0].0 >= last_row_id {
        Some(ScanAction::Exhausted)
    } else {
        first_forward(trace.drop_first(), last_row_id)
    }
}

/// Going back: the first line read that has a word worth showing, unless a
/// line with row order at most 1 without such a word comes first.
pub open spec fn first_backward(trace: Seq<(u32, u32, bool)>) -> Option<ScanAction>
    decreases trace.len(),
{
    if trace.len() == 0 {
        None
    } else if trace[0].2 {
        Some(ScanAction::Found(trace[0].1))
    } else if trace[0].1 <= 1 {
        Some(ScanAction::Exhausted)
    } else {
        first_backward(trace.drop_first())
    }
}

/// A forward scan answers with the first line read that has a word worth
/// showing, and gives up at the deck's last line.
pub proof fn lemma_forward_scan(s: FlashcardScan, trace: Seq<(u32, u32, bool)>)
    requires
        s.direction == ScanDirection::Forward,
        s.row_order + trace.len() <= u32::MAX,
    ensures
        scan_run(s, trace) == first_forward(trace, s.last_row_id),
    decreases trace.len(),
{
    if trace.len() > 0 {
        let (next, a) = scan_step(s, trace[0].0, trace[0].1, trace[0].2);
        if a is Fetch {
            lemma_forward_scan(next, trace.drop_first());
        }
    }
}

/// A backward scan answers with the first line read that has a word worth
/// showing, and gives up at row order 1.
pub proof fn lemma_backward_scan(s: FlashcardScan, trace: Seq<(u32, u32, bool)>)
    requires
        s.direction == ScanDirection::Backward,
        s.row_order >= trace.len(),
    ensures
        scan_run(s, trace) == first_backward(trace),
    decreases trace.len(),
{
    if trace.len() > 0 {
        let (next, a) = scan_step(s, trace[0].0, trace[0].1, trace[0].2);
        if a is Fetch {
            lemma_backward_scan(next, trace.drop_first());
        }
    }
}

/// Each read a forward scan asks for is the row order after the previous
/// one, and a backward scan the one before.
pub proof fn lemma_scan_moves_by_one(s: FlashcardScan, id: u32, order: u32, has_words: bool)
    requires
        scan_step_defined(s, id, order, has_words),
    ensures
        scan_step(s, id, order, has_words).1 matches ScanAction::Fetch(n) ==> {
            &&& s.direction == ScanDirection::Forward ==> n == s.row_order + 1
            &&& s.direction == ScanDirection::Backward ==> n == s.row_order - 1
        },
{
}

} // verus!
