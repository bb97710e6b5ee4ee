//! Text primitives.

use datafusion_distributed::text::{
    flag_text, number_text, parse_flag, parse_number, same_text, strip_prefix, trim_start_matches,
    NumberError,
};

#[test]
fn decimal_texts() {
    for n in [0, 9, 10, 99, 100, 1234567890, usize::MAX] {
        assert_eq!(number_text(n), n.to_string());
        assert_eq!(parse_number(&number_text(n)).ok(), Some(n));
    }
}

#[test]
fn numbers_are_read_as_the_standard_library_does() {
    let texts = [
        "0", "+7", "007", "", "+", "-", "-1", "1_000", " 1", "1 ", "0x1", "1.5", "é", "++1",
        "18446744073709551615", "18446744073709551616", "99999999999999999999999", "9999999999999999999999x",
    ];
    for text in texts {
        let ours = parse_number(text);
        let theirs = text.parse::<usize>();
        match (ours, theirs) {
            (Ok(a), Ok(b)) => assert_eq!(a, b),
            (Err(e), Err(f)) => {
                let message = match e {
                    NumberError::Empty => "cannot parse integer from empty string",
                    NumberError::InvalidDigit => "invalid digit found in string",
                    NumberError::Overflow => "number too large to fit in target type",
                };
                assert_eq!(message, f.to_string());
            }
            _ => panic!("{text}"),
        }
    }
}

#[test]
fn booleans() {
    assert_eq!(flag_text(true), "true");
    assert_eq!(flag_text(false), "false");
    for text in ["true", "false", "True", "", "1", "truefalse"] {
        assert_eq!(parse_flag(text), text.parse::<bool>().ok());
    }
}

#[test]
fn prefixes() {
    for (s, p) in [("abc", "ab"), ("abc", ""), ("abc", "abcd"), ("ababc", "ab"), ("éé", "é"), ("", "x")] {
        assert_eq!(strip_prefix(s, p), s.strip_prefix(p));
        assert_eq!(trim_start_matches(s, p), s.trim_start_matches(p));
        assert_eq!(same_text(s, p), s == p);
        assert!(same_text(s, s));
    }
}
