use crush::literals::{parse_integer, unescape, write_integer};

#[test]
fn digits_are_read_in_base_ten() {
    assert_eq!(parse_integer("0"), Some(0));
    assert_eq!(parse_integer("42"), Some(42));
    assert_eq!(parse_integer("007"), Some(7));
    assert_eq!(parse_integer("-15"), Some(-15));
    assert_eq!(parse_integer("+15"), Some(15));
    assert_eq!(parse_integer("-0"), Some(0));
}

#[test]
fn largest_and_smallest_integers_are_read() {
    assert_eq!(parse_integer("170141183460469231731687303715884105727"), Some(i128::MAX));
    assert_eq!(parse_integer("-170141183460469231731687303715884105728"), Some(i128::MIN));
}

#[test]
fn integers_that_do_not_fit_are_rejected() {
    assert_eq!(parse_integer("170141183460469231731687303715884105728"), None);
    assert_eq!(parse_integer("-170141183460469231731687303715884105729"), None);
    assert_eq!(parse_integer("99999999999999999999999999999999999999999999"), None);
}

#[test]
fn text_that_is_no_number_is_rejected() {
    assert_eq!(parse_integer(""), None);
    assert_eq!(parse_integer("-"), None);
    assert_eq!(parse_integer("12ab"), None);
    assert_eq!(parse_integer("1-2"), None);
    assert_eq!(parse_integer("+"), None);
    assert_eq!(parse_integer("+-5"), None);
    assert_eq!(parse_integer("5+"), None);
    assert_eq!(parse_integer("٣"), None);
}

#[test]
fn quotes_are_stripped() {
    assert_eq!(unescape(r#""hello world""#), "hello world");
    assert_eq!(unescape(r#""""#), "");
}

#[test]
fn control_escapes_are_replaced() {
    assert_eq!(unescape(r#""a\nb\rc\td""#), "a\nb\rc\td");
}

#[test]
fn other_escaped_characters_stand_for_themselves() {
    assert_eq!(unescape(r#""say \"hi\" \\ \x""#), r#"say "hi" \ x"#);
}

#[test]
fn escape_applies_to_one_character_only() {
    assert_eq!(unescape(r#""\nn""#), "\nn");
}

#[test]
fn backslash_at_the_very_end_stands_for_nothing() {
    assert_eq!(unescape("\"ab\\\""), "ab");
}

#[test]
fn integers_are_written_in_base_ten() {
    assert_eq!(write_integer(0), "0");
    assert_eq!(write_integer(7), "7");
    assert_eq!(write_integer(10), "10");
    assert_eq!(write_integer(-1), "-1");
    assert_eq!(write_integer(1234567890), "1234567890");
    assert_eq!(write_integer(i128::MAX), "170141183460469231731687303715884105727");
    assert_eq!(write_integer(i128::MIN), "-170141183460469231731687303715884105728");
}

#[test]
fn reading_what_was_written_gives_the_integer() {
    for i in [0, 1, -1, 9, 10, -10, 99, 100, 4711, i128::MAX, i128::MIN] {
        assert_eq!(parse_integer(&write_integer(i)), Some(i));
    }
}
