//! Text, names and tags.

use zz::location::Location;
use zz::name::Name;
use zz::tags::Tags;
use zz::text::{decimal_text, equal, join, split};

fn at(line: usize) -> Location {
    Location { file: 0, start: 0, end: 0, line, col: 7 }
}

#[test]
fn numbers_in_decimal() {
    let shown: Vec<String> = [0, 7, 10, 99, 100, 4096].iter().map(|n| decimal_text(*n)).collect();
    assert_eq!(shown, vec!["0", "7", "10", "99", "100", "4096"]);
    assert_eq!(decimal_text(usize::MAX), format!("{}", usize::MAX));
    assert_eq!(at(12).line_col(), "(12, 7)");
}

#[test]
fn texts_are_equal_character_by_character() {
    assert!(equal("", ""));
    assert!(equal("caf\u{e9}", "caf\u{e9}"));
    assert!(!equal("cafe", "caf\u{e9}"));
    assert!(!equal("a", "ab"));
    assert!(!equal("ab", "a"));
}

#[test]
fn splitting_loses_nothing() {
    assert_eq!(split("a::b::c"), vec!["a", "b", "c"]);
    assert_eq!(split("::a"), vec!["", "a"]);
    assert_eq!(split("a"), vec!["a"]);
    assert_eq!(split(""), vec![""]);
    assert_eq!(split("a:b"), vec!["a:b"]);
    assert_eq!(split(":::a"), vec!["", ":a"]);
    assert_eq!(split("a::"), vec!["a", ""]);
    for t in ["a::b::c", "::a", "", "a:b", ":::a", "a::", "::::", "\u{e9}::x"] {
        assert_eq!(join(&split(t)), t);
    }
}

#[test]
fn names() {
    assert!(Name::from("::ext::stdio").is_absolute());
    assert!(Name::from("::ext::stdio").is_ext());
    assert!(!Name::from("ext::stdio").is_ext());
    assert!(!Name::from("::a::ext").is_ext());
    assert!(!Name::from("a").is_absolute());
    assert!(!Name::from("").is_absolute());
    assert!(Name::from("a::b").same(&Name::from("a::b")));
    assert!(!Name::from("a::b").same(&Name::from("a::c")));
    assert!(!Name::from("a::b").same(&Name::from("a")));
    assert_eq!(Name::from("::a::b").to_text(), "::a::b");
}

#[test]
fn tags_hold_each_value_once() {
    let mut tags = Tags::new();
    tags.insert("taint".to_string(), "a".to_string(), at(1));
    tags.insert("taint".to_string(), "b".to_string(), at(2));
    tags.insert("mutable".to_string(), String::new(), at(3));
    tags.insert("taint".to_string(), "a".to_string(), at(4));
    let values: Vec<(String, usize)> = tags
        .get("taint")
        .unwrap()
        .into_iter()
        .map(|t| (t.value, t.loc.line))
        .collect();
    assert_eq!(values, vec![("a".to_string(), 4), ("b".to_string(), 2)]);
    assert!(tags.get("move").is_none());
    assert!(tags.contains_key("mutable"));
    assert!(!tags.contains_key("mutabl"));
    assert!(tags.contains_value("taint", "b"));
    assert!(!tags.contains_value("mutable", "b"));
}

#[test]
fn removing_the_last_value_removes_the_key() {
    let mut tags = Tags::new();
    tags.insert("tainted".to_string(), "a".to_string(), at(1));
    tags.insert("tainted".to_string(), "b".to_string(), at(2));
    tags.insert("unsafe".to_string(), String::new(), at(3));
    tags.remove("tainted", Some("a"));
    assert!(tags.contains_key("tainted"));
    assert!(!tags.contains_value("tainted", "a"));
    tags.remove("tainted", Some("b"));
    assert!(!tags.contains_key("tainted"));
    assert!(tags.contains_key("unsafe"));
    tags.insert("tainted".to_string(), "a".to_string(), at(4));
    tags.insert("tainted".to_string(), "b".to_string(), at(5));
    tags.remove("tainted", None);
    assert!(!tags.contains_key("tainted"));
    tags.remove("nothing", None);
    assert!(tags.contains_key("unsafe"));
}
