use stacks::text::dec_string;
use stacks::text::parse_usize;
use stacks::text::trim_str;

#[test]
fn parse_plain_numbers() {
    assert_eq!(parse_usize("0"), Some(0));
    assert_eq!(parse_usize("123"), Some(123));
    assert_eq!(parse_usize("007"), Some(7));
}

#[test]
fn parse_rejects_empty() {
    assert_eq!(parse_usize(""), None);
}

#[test]
fn parse_rejects_non_digits() {
    assert_eq!(parse_usize("12a"), None);
    assert_eq!(parse_usize("+5"), None);
    assert_eq!(parse_usize(" 5"), None);
    assert_eq!(parse_usize("-5"), None);
}

#[test]
fn parse_rejects_overflow() {
    assert_eq!(parse_usize("99999999999999999999999999"), None);
}

#[test]
fn dec_renders_exactly() {
    assert_eq!(dec_string(0), "0");
    assert_eq!(dec_string(9), "9");
    assert_eq!(dec_string(10), "10");
    assert_eq!(dec_string(12345), "12345");
    assert_eq!(dec_string(4294967295), "4294967295");
}

#[test]
fn parse_of_rendered_round_trips() {
    for n in [0usize, 1, 2, 9, 10, 99, 100, 65535, 1000000] {
        assert_eq!(parse_usize(&dec_string(n)), Some(n));
    }
}

#[test]
fn trim_strips_both_ends_only() {
    assert_eq!(trim_str(" a b \n\t"), "a b");
    assert_eq!(trim_str(""), "");
    assert_eq!(trim_str(" \n "), "");
    assert_eq!(trim_str("x"), "x");
    assert_eq!(trim_str("kworker/0:1\n"), "kworker/0:1");
}
