use std::collections::HashMap;
use rust_shell::vars::VarTable;

#[test]
fn insert_then_get_reads_back() {
    let mut t = VarTable::new();
    t.insert("a".to_string(), "1".to_string());
    t.insert("b".to_string(), "2".to_string());
    t.insert("a".to_string(), "3".to_string());
    assert_eq!(t.get("a").map(|s| s.as_str()), Some("3"));
    assert_eq!(t.lookup("b"), Some("2"));
    assert_eq!(t.len(), 2);
    assert!(t.contains_key("a"));
    assert!(!t.contains_key("c"));
}

#[test]
fn remove_forgets_only_that_name() {
    let mut t = VarTable::new();
    t.insert("a".to_string(), "1".to_string());
    t.insert("b".to_string(), "2".to_string());
    t.remove("a");
    t.remove("zzz");
    assert!(!t.contains_key("a"));
    assert_eq!(t.lookup("b"), Some("2"));
    assert_eq!(t.len(), 1);
}

#[test]
fn render_matches_pretty_debug_of_a_map() {
    let mut t = VarTable::new();
    assert_eq!(t.render(), format!("{:#?}", HashMap::<String, String>::new()));
    t.insert("k\"ey".to_string(), "v\nal".to_string());
    let mut m = HashMap::new();
    m.insert("k\"ey".to_string(), "v\nal".to_string());
    assert_eq!(t.render(), format!("{:#?}", m));
}

#[test]
fn render_keeps_binding_order() {
    let mut t = VarTable::new();
    t.insert("b".to_string(), "2".to_string());
    t.insert("a".to_string(), "1".to_string());
    t.insert("b".to_string(), "3".to_string());
    assert_eq!(t.render(), "{\n    \"b\": \"3\",\n    \"a\": \"1\",\n}");
}

#[test]
fn duplicate_is_equal_and_independent() {
    let mut t = VarTable::new();
    t.insert("x".to_string(), "1".to_string());
    let mut d = t.duplicate();
    d.insert("x".to_string(), "2".to_string());
    assert_eq!(t.lookup("x"), Some("1"));
    assert_eq!(d.lookup("x"), Some("2"));
}
