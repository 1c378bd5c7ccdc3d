use clantool::text::{
    chars_of, decimal_text, parse_number, parse_number_list, same_text, split,
};

fn number(text: &str) -> Option<i32> {
    parse_number(&chars_of(text))
}

#[test]
fn decimal_of_edges() {
    assert_eq!(decimal_text(0), "0");
    assert_eq!(decimal_text(9), "9");
    assert_eq!(decimal_text(10), "10");
    assert_eq!(decimal_text(-7), "-7");
    assert_eq!(decimal_text(i32::MAX), i32::MAX.to_string());
    assert_eq!(decimal_text(i32::MIN), i32::MIN.to_string());
}

#[test]
fn written_numbers_read_back() {
    for n in [0, 1, -1, 42, 100, -1000, i32::MAX, i32::MIN] {
        assert_eq!(number(&decimal_text(n)), Some(n));
    }
}

#[test]
fn numbers_read_as_std_reads_them() {
    for text in [
        "", "+", "-", "0", "-0", "+0", "007", "+12", "-12", "12 ", " 12", "1_2", "1.0", "--1", "+-1",
        "2147483647", "2147483648", "-2147483648", "-2147483649", "99999999999999999999999999",
        "00000000000000000000000000000012", "a", "1a", "\u{661}",
    ] {
        assert_eq!(number(text), text.parse::<i32>().ok(), "{:?}", text);
    }
}

#[test]
fn split_at_every_separator() {
    for text in ["", ",", "a", "a,b", ",a,,b,", "ab,cd"] {
        let parts: Vec<String> = split(text, ',').into_iter().map(|p| p.into_iter().collect()).collect();
        let expected: Vec<String> = text.split(',').map(|p| p.to_string()).collect();
        assert_eq!(parts, expected);
    }
}

#[test]
fn number_lists() {
    assert_eq!(parse_number_list("6"), Some(vec![6]));
    assert_eq!(parse_number_list("6,8,-1"), Some(vec![6, 8, -1]));
    assert_eq!(parse_number_list(""), None);
    assert_eq!(parse_number_list("6,"), None);
    assert_eq!(parse_number_list("6,x"), None);
    assert_eq!(parse_number_list("6, 8"), None);
}

#[test]
fn texts_compare_by_their_characters() {
    assert!(same_text("clid", "clid"));
    assert!(!same_text("clid", "cid"));
    assert!(!same_text("", "c"));
}
