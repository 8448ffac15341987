use korean_dict::search::{parse, Entry, SearchError};

const ANSWER: &str = r#"<?xml version="1.0" encoding="UTF-8"?>
<channel>
<title>search</title>
<item>
  <target_code>1</target_code>
  <word>나무</word>
  <sense>
    <translation><trans_word>tree</trans_word><trans_dfn>A plant with a hard stem, branches and leaves.</trans_dfn></translation>
  </sense>
  <sense>
    <translation><trans_word>wood</trans_word><trans_dfn>The material used to build a house or to make furniture.</trans_dfn></translation>
  </sense>
</item>
<item>
  <word>나무꾼</word>
  <sense><translation><trans_word>woodcutter</trans_word><trans_dfn>x</trans_dfn></translation></sense>
</item>
<item>
  <word>나무</word>
  <sense>
    <translation><trans_word>timber; log</trans_word><trans_dfn>The trunk or branches of a tree cut to be used as firewood.</trans_dfn></translation>
  </sense>
</item>
</channel>"#;

#[test]
fn entry_collects_matching_items() {
    let e = parse(ANSWER.to_string(), "나무".to_string()).unwrap();
    assert_eq!(
        e,
        Entry {
            word: "나무".into(),
            definition: vec!["tree".into(), "wood".into(), "timber; log".into()],
            explaination: vec![
                "A plant with a hard stem, branches and leaves.".into(),
                "The material used to build a house or to make furniture.".into(),
                "The trunk or branches of a tree cut to be used as firewood.".into()
            ],
        }
    );
}

#[test]
fn entry_without_match_is_empty() {
    let e = parse(ANSWER.to_string(), "없다".to_string()).unwrap();
    assert_eq!(e, Entry::new("없다".into(), vec![], vec![]));
}

#[test]
fn empty_translation_text_is_kept_empty() {
    let xml = "<c><item><word>a</word><sense><translation><trans_word/><trans_dfn>d</trans_dfn></translation></sense></item></c>";
    let e = parse(xml.to_string(), "a".to_string()).unwrap();
    assert_eq!(e.definition, vec![String::new()]);
    assert_eq!(e.explaination, vec!["d".to_string()]);
}

#[test]
fn last_word_child_decides() {
    let xml = "<c><item><word>a</word><word>b</word><sense><translation><trans_word>t</trans_word></translation></sense></item></c>";
    assert_eq!(parse(xml.to_string(), "a".to_string()).unwrap().definition, Vec::<String>::new());
    assert_eq!(parse(xml.to_string(), "b".to_string()).unwrap().definition, vec!["t".to_string()]);
}

#[test]
fn leading_comment_is_the_top_node() {
    let xml = "<!-- note --><c><item><word>a</word><sense><translation><trans_word>t</trans_word></translation></sense></item></c>";
    assert_eq!(parse(xml.to_string(), "a".to_string()).unwrap().definition, Vec::<String>::new());
}

#[test]
fn malformed_answer_is_an_error() {
    assert!(matches!(parse("<c>".to_string(), "a".to_string()), Err(SearchError::Xml(_))));
}

#[test]
fn trimmed_entry_trims_texts() {
    let xml = "<c><item><word>a</word><sense><translation><trans_word>  t \n</trans_word><trans_dfn>\n d </trans_dfn></translation></sense></item></c>";
    let e = korean_dict::search::parse_trimmed(xml.to_string(), "a".to_string()).unwrap();
    assert_eq!(e.definition, vec!["t".to_string()]);
    assert_eq!(e.explaination, vec!["d".to_string()]);
    let raw = parse(xml.to_string(), "a".to_string()).unwrap();
    assert_eq!(raw.definition, vec!["  t \n".to_string()]);
}

#[test]
fn request_url_for_query() {
    assert_eq!(
        korean_dict::search::request_url("KEY", "나무"),
        "https://krdict.korean.go.kr/api/search?key=KEY&q=나무&translated=y&trans_lang=1"
    );
}
