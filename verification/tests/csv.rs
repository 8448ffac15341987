use korean_dict::csv_parser::{csv_parse, CsvError, CsvRow};
use std::collections::HashMap;

fn deck() -> String {
    let rows = [
        [
            "bite_sisters_10",
            "10_001_0.00.00.431",
            "[sound:bite_sisters_10_0.00.00.431-0.00.04.196.mp3]",
            "<img src=\"bite_sisters_10_0.00.02.314.jpg\">",
            "[\"운명의 기복은 친구의 신뢰를 시험한다\" - 키케로]",
            "[\"The shifts of Fortune test the reliability of friends\" - Cicero]",
        ],
        ["bite_sisters_10", "10_002", "[sound:b.mp3]", "<img src=\"b.jpg\">", "두 번째", "second"],
        ["bite_sisters_10", "10_003", "[sound:c.mp3]", "<img src=\"c.jpg\">", "세 번째", "third"],
        ["bite_sisters_10", "10_004", "[sound:d.mp3]", "<img src=\"d.jpg\">", "네 번째", "fourth"],
        [
            "bite_sisters_10",
            "10_005_0.00.17.133",
            "[sound:bite_sisters_10_0.00.17.133-0.00.20.291.mp3]",
            "<img src=\"bite_sisters_10_0.00.18.712.jpg\">",
            "수없이 닥쳐오다 지들도 지쳤는지",
            "they must have been exhausted themselves",
        ],
    ];
    rows.iter().map(|r| r.join("\t")).collect::<Vec<_>>().join("\n") + "\n"
}

fn as_map(row: &CsvRow) -> HashMap<String, String> {
    row.pairs().into_iter().collect()
}

#[test]
fn csv_parser_test_csv_parse() {
    let csv_data = csv_parse(&deck()).unwrap();
    let test_data_first: HashMap<String, String> = HashMap::from([
        ("tag".into(), "bite_sisters_10".into()),
        ("sq_marker".into(), "10_001_0.00.00.431".into()),
        (
            "audio".into(),
            "[sound:bite_sisters_10_0.00.00.431-0.00.04.196.mp3]".into(),
        ),
        (
            "picture".into(),
            "<img src=\"bite_sisters_10_0.00.02.314.jpg\">".into(),
        ),
        (
            "tl_subs".into(),
            "[\"운명의 기복은 친구의 신뢰를 시험한다\" - 키케로]".into(),
        ),
        (
            "nl_subs".into(),
            "[\"The shifts of Fortune test the reliability of friends\" - Cicero]".into(),
        ),
    ]);

    let test_data_last: HashMap<String, String> = HashMap::from([
        ("tag".into(), "bite_sisters_10".into()),
        ("sq_marker".into(), "10_005_0.00.17.133".into()),
        (
            "audio".into(),
            "[sound:bite_sisters_10_0.00.17.133-0.00.20.291.mp3]".into(),
        ),
        (
            "picture".into(),
            "<img src=\"bite_sisters_10_0.00.18.712.jpg\">".into(),
        ),
        ("tl_subs".into(), "수없이 닥쳐오다 지들도 지쳤는지".into()),
        (
            "nl_subs".into(),
            "they must have been exhausted themselves".into(),
        ),
    ]);
    assert_eq!(as_map(&csv_data.data[0]), test_data_first);
    assert_eq!(as_map(&csv_data.data[4]), test_data_last);
}

#[test]
fn csv_row_get_by_column_name() {
    let csv_data = csv_parse("t\tm\ta\tp\ttl\tnl\n").unwrap();
    let row = &csv_data.data[0];
    assert_eq!(row.get("tag").map(String::as_str), Some("t"));
    assert_eq!(row.get("nl_subs").map(String::as_str), Some("nl"));
    assert_eq!(row.get("other"), None);
}

#[test]
fn csv_row_keeps_first_six_fields() {
    let row = CsvRow::from_record(vec!["a".into(), "b".into()]);
    assert_eq!(row.len(), 2);
    assert_eq!(row.get("sq_marker").map(String::as_str), Some("b"));
    assert_eq!(row.get("audio"), None);
    let long = CsvRow::from_record((0..8).map(|i| i.to_string()).collect());
    assert_eq!(long.len(), 6);
    assert_eq!(long.field(5).map(String::as_str), Some("5"));
    assert_eq!(long.field(6), None);
}

#[test]
fn csv_parse_rejects_uneven_records() {
    let r = csv_parse("a\tb\nc\n");
    assert!(matches!(r, Err(CsvError::Malformed(_))));
}

#[test]
fn csv_data_walks_forward_then_stops() {
    let mut csv_data = csv_parse(&deck()).unwrap();
    assert_eq!(csv_data.current_val().field(1).unwrap(), "10_001_0.00.00.431");
    let mut seen = Vec::new();
    while let Some(row) = csv_data.next_val() {
        seen.push(row.field(1).unwrap().clone());
    }
    assert_eq!(seen, vec!["10_002", "10_003", "10_004", "10_005_0.00.17.133"]);
    assert!(csv_data.next_val().is_none());
    assert_eq!(csv_data.current_val().field(1).unwrap(), "10_005_0.00.17.133");
}

#[test]
fn csv_data_prev_is_disabled() {
    let mut csv_data = csv_parse(&deck()).unwrap();
    assert!(csv_data.prev_val().is_none());
    csv_data.next_val();
    csv_data.next_val();
    assert!(csv_data.prev_val().is_none());
    assert_eq!(csv_data.current_val().field(1).unwrap(), "10_003");
}

#[test]
fn csv_data_kth_call_returns_row_k() {
    let mut csv_data = csv_parse("a\nb\nc\n").unwrap();
    assert_eq!(csv_data.next_val().unwrap().field(0).unwrap(), "b");
    assert_eq!(csv_data.next_val().unwrap().field(0).unwrap(), "c");
    for _ in 0..3 {
        assert!(csv_data.next_val().is_none());
        assert_eq!(csv_data.current_val().field(0).unwrap(), "c");
    }
}
