use korean_dict::parser::{
    has_ban_morph, khaiii_parse, khaiii_word_processor, komoran_parse, komoran_word_processor, remove_dup, AnalysisError,
    KhaiiiParser, KomoranParser, LanguageParser, Parser as SharedParser,
};
use korean_dict::parser_kind::{Parser, ParserKind};

fn pairs(v: &[(&str, &str)]) -> Vec<(String, String)> {
    v.iter().map(|(a, b)| (a.to_string(), b.to_string())).collect()
}

fn strings(v: &[&str]) -> Vec<String> {
    v.iter().map(|s| s.to_string()).collect()
}

const KOMORAN_SENTENCE: &str = r#"[["제","NP"],["친구","NNG"],["정우","NNP"],["가","JKS"],["공항","NNG"],["에서","JKB"],["저","NP"],["와","JC"],["줄리아","NNP"],["를","JKO"],["기다리","VV"],["고","EC"],["있","VX"],["었","EP"],["어요","EF"],[".","SF"]]"#;

const KHAIII_SENTENCE: &str = r#"[[["제","NP"]],[["친구","NNG"]],[["정우","NNP"],["가","JKS"]],[["공항","NNG"],["에서","JKB"]],[["저","NP"],["와","JKB"]],[["줄리아","NNP"],["를","JKO"]],[["기다리","VV"],["고","EC"]],[["있","VX"],["었","EP"],["어요","EF"],[".","SF"]]]"#;

#[test]
fn test_parser_new() {
    let parser = Parser::new();
    assert_eq!(parser, Parser { parser: ParserKind::Komoran });
}

#[test]
fn test_default_parser() {
    let parser = Parser::new();
    assert_eq!(parser.parser_type(), ParserKind::Komoran);
}

#[test]
fn test_change_parser() {
    for has_khaiii in [true, false] {
        let parser = Parser::new().change_parser(ParserKind::Khaiii, has_khaiii);
        if has_khaiii {
            assert_eq!(parser.parser_type(), ParserKind::Khaiii);
        } else {
            assert_eq!(parser.parser_type(), ParserKind::Komoran);
        }
    }
}

#[test]
fn komoran_processor_joins_suffix_and_adds_da() {
    let out = komoran_word_processor(pairs(&[("생각", "NNG"), ("하", "XSV")]));
    assert_eq!(out, strings(&["생각하다"]));
    let out = komoran_word_processor(pairs(&[("예쁘", "VA"), ("집", "NNG"), ("가", "V")]));
    assert_eq!(out, strings(&["예쁘다", "집", "가다"]));
}

#[test]
fn khaiii_processor_has_no_bare_v_tag() {
    let out = khaiii_word_processor(pairs(&[("가", "V")]));
    assert_eq!(out, strings(&["가"]));
    let out = khaiii_word_processor(pairs(&[("깨끗", "XR"), ("하", "XSA")]));
    assert_eq!(out, strings(&["깨끗하다"]));
}

#[test]
fn remove_dup_keeps_first_occurrences() {
    let out = remove_dup(strings(&["다시", "또", "다시", "또", "새"]));
    assert_eq!(out, strings(&["다시", "또", "새"]));
    assert_eq!(remove_dup(vec![]), Vec::<String>::new());
}

#[test]
fn ban_morph_only_ha_and_doe_verbs() {
    assert!(has_ban_morph(&("하".to_string(), "VV".to_string())));
    assert!(has_ban_morph(&("되".to_string(), "VV".to_string())));
    assert!(!has_ban_morph(&("하".to_string(), "XSV".to_string())));
    assert!(!has_ban_morph(&("가".to_string(), "VV".to_string())));
}

#[test]
fn komoran_sentence_words() {
    let res = KomoranParser {}.parse(KOMORAN_SENTENCE).unwrap();
    assert_eq!(res, strings(&["친구", "정우", "공항", "줄리아", "기다리다"]));
}

#[test]
fn komoran_think_words() {
    let analysis = r#"[["생각","NNG"],["하","XSV"],["다","EC"]]"#;
    assert_eq!(KomoranParser {}.parse(analysis).unwrap(), strings(&["생각하다"]));
    let analysis = r#"[["생각","NNG"],["을","JKO"],["하","VV"],["다","EC"]]"#;
    assert_eq!(KomoranParser {}.parse(analysis).unwrap(), strings(&["생각"]));
}

#[test]
fn komoran_removes_repeats_and_trims_output() {
    let analysis = "  [[\"다시\",\"MAG\"],[\"또\",\"MAG\"],[\"다시\",\"MAG\"]]\n";
    assert_eq!(KomoranParser {}.parse(analysis).unwrap(), strings(&["다시", "또"]));
    assert_eq!(komoran_parse(analysis).unwrap(), strings(&["다시", "또", "다시"]));
}

#[test]
fn khaiii_sentence_words() {
    let parser = SharedParser::new(KhaiiiParser::new());
    let res = parser.parser.parse(KHAIII_SENTENCE).unwrap();
    assert_eq!(res, strings(&["친구", "공항", "기다리다"]));
}

#[test]
fn khaiii_words_are_processed_one_by_one() {
    let analysis = r#"[[["다시","MAG"]],[["시작","NNG"],["하","XSV"],["아","EC"]],[["다시","MAG"]]]"#;
    assert_eq!(KhaiiiParser::new().parse(analysis).unwrap(), strings(&["다시", "시작하다"]));
    assert_eq!(khaiii_parse(analysis).unwrap(), strings(&["다시", "시작하다", "다시"]));
}

#[test]
fn dangling_suffix_is_reported() {
    let r = KomoranParser {}.parse(r#"[["하","XSV"]]"#);
    assert!(matches!(r, Err(AnalysisError::DanglingSuffix)));
    let r = KhaiiiParser::new().parse(r#"[[["집","NNG"]],[["하","XSA"]]]"#);
    assert!(matches!(r, Err(AnalysisError::DanglingSuffix)));
}

#[test]
fn bad_json_is_reported() {
    assert!(matches!(KomoranParser {}.parse("not json"), Err(AnalysisError::Json(_))));
    assert!(matches!(KhaiiiParser::new().parse(KOMORAN_SENTENCE), Err(AnalysisError::Json(_))));
}

#[test]
fn kind_parser_dispatches() {
    let komoran = Parser::new();
    assert_eq!(komoran.parse(KOMORAN_SENTENCE).unwrap(), strings(&["친구", "정우", "공항", "줄리아", "기다리다"]));
    let khaiii = Parser::new().change_parser(ParserKind::Khaiii, true);
    assert_eq!(khaiii.parse(KHAIII_SENTENCE).unwrap(), strings(&["친구", "공항", "기다리다"]));
}

#[test]
fn remove_dup_twice_is_once() {
    let once = remove_dup(strings(&["a", "b", "a", "c", "b"]));
    assert_eq!(remove_dup(once.clone()), once);
}

#[test]
fn word_builders_agree_without_v_tag() {
    let data = pairs(&[("생각", "NNG"), ("하", "XSV"), ("예쁘", "VA"), ("집", "NNG"), ("가", "VV")]);
    assert_eq!(komoran_word_processor(data.clone()), khaiii_word_processor(data));
}
