use korean_dict::srt_parser::{
    srt_in_domain, srt_parser, subtitle_in_domain, time_in_domain, Srt, SrtTime, Subtitle,
};
use korean_dict::text::IntError;

#[test]
fn srt_time_new_keeps_fields() {
    let t = SrtTime::new(1, 2, 3, 4);
    assert_eq!(t, SrtTime { hr: 1, min: 2, sec: 3, ms: 4 });
}

#[test]
fn srt_time_parse_reads_fields() {
    let t = SrtTime::parse("00:01:02,345").unwrap();
    assert_eq!(t, SrtTime::new(0, 1, 2, 345));
}

#[test]
fn srt_time_parse_signed_and_unpadded() {
    let t = SrtTime::parse("+7:-3:5,9").unwrap();
    assert_eq!(t, SrtTime::new(7, -3, 5, 9));
}

#[test]
fn srt_time_parse_rejects_bad_digit() {
    assert_eq!(SrtTime::parse("00:x1:02,345"), Err(IntError::InvalidDigit));
}

#[test]
fn srt_time_parse_rejects_empty_field() {
    assert_eq!(SrtTime::parse("00::02,345"), Err(IntError::Empty));
}

#[test]
fn srt_time_parse_rejects_overflow() {
    assert_eq!(
        SrtTime::parse("99999999999999999999999:00:00,000"),
        Err(IntError::PosOverflow)
    );
    assert_eq!(
        SrtTime::parse("-99999999999999999999999:00:00,000"),
        Err(IntError::NegOverflow)
    );
}

#[test]
fn srt_time_parse_sign_alone_is_invalid() {
    assert_eq!(SrtTime::parse("-:00:00,000"), Err(IntError::InvalidDigit));
}

#[test]
fn srt_time_render_pads() {
    assert_eq!(SrtTime::new(0, 1, 2, 34).render(), "00:01:02,034");
    assert_eq!(SrtTime::new(123, 45, 6, 7890).render(), "123:45:06,7890");
}

#[test]
fn srt_time_render_pads_after_sign() {
    assert_eq!(SrtTime::new(-5, -12, 0, -7).render(), "-5:-12:00,-07");
}

#[test]
fn srt_time_render_then_parse_roundtrip() {
    let times = [
        SrtTime::new(0, 0, 0, 0),
        SrtTime::new(1, 59, 59, 999),
        SrtTime::new(-3, 4, -5, 6),
        SrtTime::new(isize::MIN, isize::MAX, 10, 100),
    ];
    for t in times {
        assert_eq!(SrtTime::parse(&t.render()).unwrap(), t);
    }
}

#[test]
fn subtitle_parse_reads_block() {
    let s = Subtitle::parse("12\r\n00:00:01,000 --> 00:00:02,500\r\nHello\r\nworld\r\n".to_string())
        .unwrap();
    assert_eq!(s.id, 12);
    assert_eq!(s.time_start, SrtTime::new(0, 0, 1, 0));
    assert_eq!(s.time_end, SrtTime::new(0, 0, 2, 500));
    assert_eq!(s.text, "Hello\r\nworld");
}

#[test]
fn subtitle_parse_trims_lines() {
    let s = Subtitle::parse(" 3 \r\n  00:00:01,000 --> 00:00:02,000  \r\n  text  ".to_string())
        .unwrap();
    assert_eq!(s.id, 3);
    assert_eq!(s.text, "text");
}

#[test]
fn subtitle_parse_without_text() {
    let s = Subtitle::parse("1\r\n00:00:01,000 --> 00:00:02,000".to_string()).unwrap();
    assert_eq!(s.text, "");
}

#[test]
fn subtitle_parse_bad_id() {
    let r = Subtitle::parse("one\r\n00:00:01,000 --> 00:00:02,000\r\nx".to_string());
    assert!(matches!(r, Err(IntError::InvalidDigit)));
}

#[test]
fn srt_parser_reads_blocks() {
    let data = "1\r\n00:00:01,000 --> 00:00:02,000\r\nfirst\r\n\r\n2\r\n00:00:03,000 --> 00:00:04,000\r\nsecond".to_string();
    let srt = srt_parser(data).unwrap();
    assert_eq!(srt.subtitles.len(), 2);
    assert_eq!(srt.subtitles[0].text, "first");
    assert_eq!(srt.subtitles[1].id, 2);
    assert_eq!(srt.subtitles[1].time_start, SrtTime::new(0, 0, 3, 0));
}

#[test]
fn srt_parser_first_error_wins() {
    let data = "1\r\n00:00:01,000 --> 00:00:02,000\r\nok\r\n\r\nx\r\n00:00:03,000 --> 00:00:04,000\r\nbad".to_string();
    assert!(matches!(srt_parser(data), Err(IntError::InvalidDigit)));
}

#[test]
fn srt_build_renders_and_trims() {
    let mut srt = Srt::default();
    srt.subtitles.push(Subtitle {
        id: 1,
        time_start: SrtTime::new(0, 0, 1, 0),
        time_end: SrtTime::new(0, 0, 2, 50),
        text: "안녕".to_string(),
    });
    srt.subtitles.push(Subtitle {
        id: 2,
        time_start: SrtTime::new(0, 1, 0, 0),
        time_end: SrtTime::new(1, 0, 0, 0),
        text: "bye".to_string(),
    });
    assert_eq!(
        srt.build(),
        "1\r\n00:00:01,000 --> 00:00:02,050\r\n안녕\r\n\r\n2\r\n00:01:00,000 --> 01:00:00,000\r\nbye"
    );
}

#[test]
fn srt_build_empty() {
    assert_eq!(Srt::default().build(), "");
}

#[test]
fn srt_build_then_parse_roundtrip() {
    let mut srt = Srt::default();
    srt.subtitles.push(Subtitle {
        id: 1,
        time_start: SrtTime::new(0, 0, 1, 0),
        time_end: SrtTime::new(0, 0, 2, 50),
        text: "line one\r\nline two".to_string(),
    });
    srt.subtitles.push(Subtitle {
        id: 2,
        time_start: SrtTime::new(0, 1, 0, 0),
        time_end: SrtTime::new(1, 0, 0, 0),
        text: "bye".to_string(),
    });
    let back = srt_parser(srt.build()).unwrap();
    assert_eq!(back.subtitles.len(), 2);
    assert_eq!(back.subtitles[0].text, "line one\r\nline two");
    assert_eq!(back.subtitles[0].time_end, SrtTime::new(0, 0, 2, 50));
    assert_eq!(back.subtitles[1].id, 2);
    assert_eq!(back.subtitles[1].text, "bye");
}

#[test]
fn canonical_time_parse_then_render() {
    for s in ["00:00:00,000", "01:02:03,004", "99:59:59,999", "07:00:10,100"] {
        assert_eq!(SrtTime::parse(s).unwrap().render(), s);
    }
}

#[test]
fn canonical_text_parse_then_build() {
    let d = "1\r\n00:00:01,000 --> 00:00:02,050\r\n안녕\r\n하세요\r\n\r\n-2\r\n00:01:00,000 --> 01:00:00,000\r\nbye";
    assert_eq!(srt_parser(d.to_string()).unwrap().build(), d);
}

#[test]
fn two_blocks_parse_then_build() {
    let d = "1\r\n00:00:01,000 --> 00:00:02,000\r\nA\r\n\r\n2\r\n00:00:03,000 --> 00:00:04,000\r\nB";
    assert!(srt_in_domain(d));
    assert_eq!(srt_parser(d.to_string()).unwrap().build(), d);
    assert_eq!(Srt::default().build(), "");
}

#[test]
fn time_domain_shapes() {
    assert!(time_in_domain("00:01:02,345"));
    assert!(time_in_domain("0x:01:02,345"));
    assert!(!time_in_domain("00:x1"));
    assert!(time_in_domain("00:01:0x"));
    assert!(!time_in_domain("00:01"));
    assert!(!time_in_domain("00:01:02"));
    assert!(!time_in_domain(""));
}

#[test]
fn subtitle_domain_shapes() {
    assert!(subtitle_in_domain("1\r\n00:00:01,000 --> 00:00:02,000\r\nA"));
    assert!(subtitle_in_domain("x\r\n"));
    assert!(subtitle_in_domain("1\r\n0x:00:01,000"));
    assert!(!subtitle_in_domain("1"));
    assert!(!subtitle_in_domain("1\r\n00:00:01,000"));
    assert!(!subtitle_in_domain("1\r\n00:00:01 --> 00:00:02,000"));
    assert!(!subtitle_in_domain("1\r\n00:00:01,000 --> 00:02"));
}

#[test]
fn srt_domain_stops_at_first_failure() {
    assert!(srt_in_domain("x\r\n\r\n1"));
    assert!(!srt_in_domain("1\r\n00:00:01,000 --> 00:00:02,000\r\nA\r\n\r\n2"));
    assert!(!srt_in_domain(""));
    let d = "1\r\n00:00:01,000 --> 00:00:02,000\r\nA";
    assert!(srt_in_domain(d));
    assert_eq!(srt_parser(d.to_string()).unwrap().subtitles.len(), 1);
}
