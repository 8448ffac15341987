use korean_dict::csv_parser::{csv_parse, CsvRow};
use korean_dict::routes::csv_processing::{subtitle_rows, BIND_LIMIT};
use korean_dict::routes::database::{CsvRowEntry, FlashcardEntriesEntry, WordEntry};
use korean_dict::routes::error::{failure_response, RouteFailure};
use korean_dict::routes::templates::{FlaggedWord, FormSaved};
use korean_dict::routes::views::{
    filter_sentence, last_csv_row_id, view_page, FlashcardScan, ScanAction, ScanDirection,
};

fn known(ignored: bool) -> Option<WordEntry> {
    Some(WordEntry { word_id: 1, csv_row_id: 1, word: String::new(), is_ignored: ignored })
}

fn row(id: u32, order: u32) -> CsvRowEntry {
    CsvRowEntry { csv_row_id: id, csv_id: 7, row_order: order, ..Default::default() }
}

#[test]
fn filter_sentence_flags_and_drops() {
    let words = vec!["a".to_string(), "b".to_string(), "c".to_string()];
    let out = filter_sentence(words, vec![None, known(false), known(true)]);
    let got: Vec<(String, bool)> = out.into_iter().map(|f| (f.word, f.duplicate)).collect();
    assert_eq!(got, vec![("a".to_string(), false), ("b".to_string(), true)]);
}

#[test]
fn last_row_id_is_max() {
    assert_eq!(last_csv_row_id(&vec![3, 9, 4]), Some(9));
    assert_eq!(last_csv_row_id(&vec![]), None);
}

#[test]
fn next_scan_stops_on_first_row_with_words() {
    let (mut scan, a) = FlashcardScan::next_flashcard(&row(10, 2), 14);
    assert_eq!(a, ScanAction::Fetch(3));
    assert_eq!(scan.step(&row(11, 3), false), ScanAction::Fetch(4));
    assert_eq!(scan.step(&row(12, 4), true), ScanAction::Found(4));
}

#[test]
fn next_scan_gives_up_at_last_row() {
    let (_, a) = FlashcardScan::next_flashcard(&row(14, 6), 14);
    assert_eq!(a, ScanAction::Exhausted);
    let (mut scan, _) = FlashcardScan::next_flashcard(&row(13, 5), 14);
    assert_eq!(scan.step(&row(14, 6), false), ScanAction::Exhausted);
}

#[test]
fn prev_scan_goes_back_to_first_row() {
    let (_, a) = FlashcardScan::prev_flashcard(&row(10, 1));
    assert_eq!(a, ScanAction::Exhausted);
    let (mut scan, a) = FlashcardScan::prev_flashcard(&row(10, 3));
    assert_eq!(scan.direction, ScanDirection::Backward);
    assert_eq!(a, ScanAction::Fetch(2));
    assert_eq!(scan.step(&row(9, 2), false), ScanAction::Fetch(1));
    assert_eq!(scan.step(&row(8, 1), false), ScanAction::Exhausted);
}

#[test]
fn current_scan_starts_with_first_row() {
    let (mut scan, a) = FlashcardScan::current_flashcard(&row(20, 1), 25);
    assert_eq!(a, ScanAction::Fetch(1));
    assert_eq!(scan.step(&row(20, 1), false), ScanAction::Fetch(2));
    assert_eq!(scan.step(&row(21, 2), true), ScanAction::Found(2));
    let (_, a) = FlashcardScan::current_flashcard(&row(25, 1), 25);
    assert_eq!(a, ScanAction::Exhausted);
}

#[test]
fn failure_responses() {
    assert_eq!(failure_response(RouteFailure::Database), (500, "the was an error retrieving data from database".to_string()));
    assert_eq!(failure_response(RouteFailure::LastCsvRow), (500, "failed to get last csv row error".to_string()));
    assert_eq!(failure_response(RouteFailure::PageNotFound), (404, "failed to get last csv row error".to_string()));
    assert_eq!(failure_response(RouteFailure::Unknown), (500, "Unknown Internal Error".to_string()));
}

#[test]
fn subtitle_rows_number_from_one() {
    let csv = csv_parse("a\tb\tc\td\te\tf\ng\th\ti\tj\tk\tl\n").unwrap();
    let rows = subtitle_rows(&csv.data);
    assert_eq!(rows.len(), 2);
    assert_eq!(rows[0].row_order, 1);
    assert_eq!(rows[1].row_order, 2);
    assert_eq!(rows[1].tl_subs.as_deref(), Some("k"));
    assert_eq!(rows[0].tag.as_deref(), Some("a"));
}

#[test]
fn subtitle_rows_missing_columns_are_none() {
    let data = vec![CsvRow::from_record(vec!["x".to_string(), "y".to_string()])];
    let rows = subtitle_rows(&data);
    assert_eq!(rows[0].sq_marker.as_deref(), Some("y"));
    assert_eq!(rows[0].audio, None);
    assert_eq!(rows[0].nl_subs, None);
}

#[test]
fn subtitle_rows_stop_at_bind_limit() {
    let data: Vec<CsvRow> = (0..(BIND_LIMIT / 8 + 5)).map(|i| CsvRow::from_record(vec![i.to_string()])).collect();
    let rows = subtitle_rows(&data);
    assert_eq!(rows.len(), BIND_LIMIT / 8);
    assert_eq!(rows.last().unwrap().row_order as usize, BIND_LIMIT / 8);
}

#[test]
fn view_page_hides_lines_without_words() {
    let mut r = row(5, 2);
    r.tl_subs = "문장".into();
    r.nl_subs = "sentence".into();
    let t = view_page(7, r, None, Some(1), None, vec![]);
    assert!(t.hidden);
    assert_eq!(t.flashcard_entry.word, "");
    assert_eq!(t.tl_sentence, "문장");
    assert_eq!(t.prev_row_order, Some(1));
    assert!(t.was_saved == FormSaved::Nothing);
    let saved = FlashcardEntriesEntry { flashcard_entries_id: 3, csv_row_id: 5, word: "w".into(), definition: "d".into() };
    let t = view_page(7, row(5, 2), Some(saved), None, Some(3), vec![FlaggedWord { word: "w".into(), duplicate: false }]);
    assert!(!t.hidden);
    assert_eq!(t.flashcard_entry.definition, "d");
    assert_eq!(t.next_row_order, Some(3));
}
