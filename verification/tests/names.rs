use crush::lang;
use crush::names::{join_path, split_path};
use crush::parser;

fn strings(parts: &[&str]) -> Vec<String> {
    parts.iter().map(|s| s.to_string()).collect()
}

#[test]
fn slash_path_is_split_into_its_segments() {
    assert_eq!(lang::parser::parse_name("a/b/c"), Some(strings(&["a", "b", "c"])));
}

#[test]
fn single_segment_is_a_path() {
    assert_eq!(lang::parser::parse_name("ls"), Some(strings(&["ls"])));
    assert_eq!(parser::parse_name("ls"), Some(strings(&["ls"])));
}

#[test]
fn dot_path_is_split_into_its_segments() {
    assert_eq!(parser::parse_name("global.true"), Some(strings(&["global", "true"])));
}

#[test]
fn each_parser_splits_on_its_own_separator_only() {
    assert_eq!(parser::parse_name("a/b"), Some(strings(&["a/b"])));
    assert_eq!(lang::parser::parse_name("a.b"), Some(strings(&["a.b"])));
}

#[test]
fn empty_text_is_no_path() {
    assert_eq!(lang::parser::parse_name(""), None);
    assert_eq!(parser::parse_name(""), None);
}

#[test]
fn leading_separator_is_rejected() {
    assert_eq!(lang::parser::parse_name("/a/b"), None);
    assert_eq!(parser::parse_name(".a"), None);
}

#[test]
fn trailing_separator_is_rejected() {
    assert_eq!(lang::parser::parse_name("a/b/"), None);
    assert_eq!(parser::parse_name("a."), None);
}

#[test]
fn doubled_separator_is_rejected() {
    assert_eq!(lang::parser::parse_name("a//b"), None);
    assert_eq!(parser::parse_name("a..b"), None);
}

#[test]
fn lone_separator_is_rejected() {
    assert_eq!(lang::parser::parse_name("/"), None);
}

#[test]
fn split_path_takes_any_separator() {
    assert_eq!(split_path("x:y", ':'), Some(strings(&["x", "y"])));
    assert_eq!(split_path("x::y", ':'), None);
}

#[test]
fn segments_keep_characters_outside_ascii() {
    assert_eq!(lang::parser::parse_name("å/ß"), Some(strings(&["å", "ß"])));
}

#[test]
fn joining_the_segments_gives_the_path_back() {
    assert_eq!(join_path(&strings(&["a", "b", "c"]), '/'), "a/b/c");
    assert_eq!(join_path(&strings(&["ls"]), '.'), "ls");
    assert_eq!(join_path(&Vec::new(), '.'), "");
    assert_eq!(split_path(&join_path(&strings(&["x", "y"]), ':'), ':'), Some(strings(&["x", "y"])));
}
