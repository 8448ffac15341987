use korean_dict::frontend::{definition_rows, is_selected, selection_preview, shows_uploader, RecievedData};
use korean_dict::search::Entry;

fn entry() -> Entry {
    Entry::new(
        "나무".into(),
        vec!["tree".into(), "wood".into(), "timber; log".into()],
        vec!["A plant.".into(), "Material.".into()],
    )
}

#[test]
fn uploader_shown_until_data_arrives() {
    assert!(shows_uploader(&RecievedData::default()));
    let data = RecievedData { sentence: "문장".into(), ..Default::default() };
    assert!(!shows_uploader(&data));
    let data = RecievedData { next_flag: true, ..Default::default() };
    assert!(!shows_uploader(&data));
}

#[test]
fn selected_entry() {
    assert!(is_selected(Some(2), 2));
    assert!(!is_selected(Some(1), 2));
    assert!(!is_selected(None, 0));
}

#[test]
fn preview_of_selection() {
    let entries = vec![entry()];
    assert_eq!(selection_preview(&entries, Some(0), Some(1)), "selected word: 나무 | selected def: wood");
    assert_eq!(selection_preview(&entries, Some(0), None), "No Selection");
    assert_eq!(selection_preview(&entries, None, Some(0)), "No Selection");
}

#[test]
fn definition_rows_pair_and_mark() {
    let rows = definition_rows(&entry(), Some(1), true);
    assert_eq!(
        rows,
        vec![
            ("tree".to_string(), "A plant.".to_string(), false),
            ("wood".to_string(), "Material.".to_string(), true),
        ]
    );
    let rows = definition_rows(&entry(), Some(1), false);
    assert!(rows.iter().all(|r| !r.2));
}
