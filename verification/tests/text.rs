use korean_dict::text::{chars_of, parse_isize_chars, split_chars, split_inclusive_chars, string_of, trim_chars, IntError};

fn v(s: &str) -> Vec<char> {
    s.chars().collect()
}

fn pieces(r: Vec<Vec<char>>) -> Vec<String> {
    r.into_iter().map(|p| p.into_iter().collect()).collect()
}

#[test]
fn trim_removes_unicode_whitespace() {
    let t = trim_chars(&v("\u{3000}\t a b \r\n\u{a0}"));
    assert_eq!(string_of(&t), "a b");
    assert_eq!(string_of(&trim_chars(&v(" \n "))), "");
}

#[test]
fn split_matches_std() {
    let cases = ["a\r\n\r\nb", "", "\r\n\r\n", "a\r\n\r\n\r\nb", "x"];
    for c in cases {
        let got = pieces(split_chars(&v(c), &v("\r\n\r\n")));
        let want: Vec<String> = c.split("\r\n\r\n").map(String::from).collect();
        assert_eq!(got, want, "case {:?}", c);
    }
}

#[test]
fn split_inclusive_matches_std() {
    let cases = ["a\r\nb\r\n", "", "a", "\r\n", "a\r\n\r\nb"];
    for c in cases {
        let got = pieces(split_inclusive_chars(&v(c), &v("\r\n")));
        let want: Vec<String> = c.split_inclusive("\r\n").map(String::from).collect();
        assert_eq!(got, want, "case {:?}", c);
    }
}

#[test]
fn parse_isize_matches_std() {
    let cases = ["0", "+12", "-12", "", "+", "-", "1a", "a1", "007", "9223372036854775807",
        "9223372036854775808", "-9223372036854775808", "-9223372036854775809", "99999999999999999999x"];
    for c in cases {
        let got = parse_isize_chars(&v(c));
        match c.parse::<isize>() {
            Ok(n) => assert_eq!(got, Ok(n), "case {:?}", c),
            Err(e) => {
                let kind = match e.kind() {
                    std::num::IntErrorKind::Empty => IntError::Empty,
                    std::num::IntErrorKind::InvalidDigit => IntError::InvalidDigit,
                    std::num::IntErrorKind::PosOverflow => IntError::PosOverflow,
                    std::num::IntErrorKind::NegOverflow => IntError::NegOverflow,
                    _ => unreachable!(),
                };
                assert_eq!(got, Err(kind), "case {:?}", c);
            }
        }
    }
}

#[test]
fn chars_of_and_string_of_roundtrip() {
    let s = "운명의 기복";
    assert_eq!(string_of(&chars_of(s)), s);
}
