use server::http::{QueryString, QueryStringValue};

fn single<'a>(q: &'a QueryString<'a>, key: &str) -> &'a str {
    match q.get(key) {
        Some(QueryStringValue::Single(s)) => s,
        other => panic!("expected a single value, got {:?}", other),
    }
}

fn multiple<'a>(q: &'a QueryString<'a>, key: &str) -> Vec<&'a str> {
    match q.get(key) {
        Some(QueryStringValue::Multiple(v)) => v.clone(),
        other => panic!("expected several values, got {:?}", other),
    }
}

#[test]
fn repeated_key_keeps_values_in_order() {
    let q = QueryString::from("a=1&a=2&a=3");
    assert_eq!(multiple(&q, "a"), vec!["1", "2", "3"]);
}

#[test]
fn second_occurrence_turns_single_into_multiple() {
    let q = QueryString::from("a=1&a=2");
    assert_eq!(multiple(&q, "a"), vec!["1", "2"]);
}

#[test]
fn repeated_key_between_other_keys() {
    let q = QueryString::from("a=1&b=x&a=2&c=y&a=3");
    assert_eq!(multiple(&q, "a"), vec!["1", "2", "3"]);
    assert_eq!(single(&q, "b"), "x");
    assert_eq!(single(&q, "c"), "y");
}

#[test]
fn key_without_equals_has_empty_value() {
    let q = QueryString::from("c");
    assert_eq!(single(&q, "c"), "");
}

#[test]
fn mixed_fragment() {
    let q = QueryString::from("a=1&b=2&c&d=&e===&d=7&d=abc");
    assert_eq!(single(&q, "a"), "1");
    assert_eq!(single(&q, "b"), "2");
    assert_eq!(single(&q, "c"), "");
    assert_eq!(single(&q, "e"), "==");
    assert_eq!(multiple(&q, "d"), vec!["", "7", "abc"]);
    assert!(q.get("f").is_none());
}

#[test]
fn empty_key_and_empty_value_are_entries() {
    let q = QueryString::from("=v&k=");
    assert_eq!(single(&q, ""), "v");
    assert_eq!(single(&q, "k"), "");
}

#[test]
fn empty_fragment_holds_the_empty_key() {
    let q = QueryString::from("");
    assert_eq!(single(&q, ""), "");
}

#[test]
fn empty_sub_fragments_repeat_the_empty_key() {
    let q = QueryString::from("a=1&&");
    assert_eq!(single(&q, "a"), "1");
    assert_eq!(multiple(&q, ""), vec!["", ""]);
}

#[test]
fn values_are_not_decoded() {
    let q = QueryString::from("q=a%20b+c");
    assert_eq!(single(&q, "q"), "a%20b+c");
}

#[test]
fn lookup_is_case_sensitive() {
    let q = QueryString::from("Key=1");
    assert!(q.get("key").is_none());
    assert_eq!(single(&q, "Key"), "1");
}
