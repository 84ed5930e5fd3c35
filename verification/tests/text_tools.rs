//! The text utilities: decimal conversion, parsing, globbing, word order
//! and index-name matching.

use gbs::catalog::Catalog;
use gbs::text::{
    chars_to_string, glob_match, int_to_string, parse_int, str_chars, tokenize, words_in_order,
};
use gbs::value::Val;

#[test]
fn decimal_rendering_round_trips() {
    assert_eq!(int_to_string(0), "0");
    assert_eq!(int_to_string(42), "42");
    assert_eq!(int_to_string(-7), "-7");
    assert_eq!(int_to_string(i64::MAX), "9223372036854775807");
    assert_eq!(int_to_string(i64::MIN), "-9223372036854775808");
    assert_eq!(parse_int(&str_chars("42")), Some(42));
    assert_eq!(parse_int(&str_chars("-7")), Some(-7));
    assert_eq!(parse_int(&str_chars("007")), Some(7));
    assert_eq!(parse_int(&str_chars("9223372036854775807")), Some(i64::MAX));
    assert_eq!(parse_int(&str_chars("-9223372036854775808")), Some(i64::MIN));
    assert_eq!(parse_int(&str_chars("9223372036854775808")), None);
    assert_eq!(parse_int(&str_chars("")), None);
    assert_eq!(parse_int(&str_chars("-")), None);
    assert_eq!(parse_int(&str_chars("1a")), None);
}

#[test]
fn glob_matching_is_anchored() {
    assert!(glob_match(&str_chars("*"), &str_chars("anything")));
    assert!(glob_match(&str_chars("*"), &str_chars("")));
    assert!(glob_match(&str_chars("a*"), &str_chars("abc")));
    assert!(!glob_match(&str_chars("a*"), &str_chars("xa")));
    assert!(glob_match(&str_chars("*rust*"), &str_chars("a rusty nail")));
    assert!(glob_match(&str_chars("a?c"), &str_chars("abc")));
    assert!(!glob_match(&str_chars("a?c"), &str_chars("ac")));
    assert!(glob_match(&str_chars("a.c"), &str_chars("a.c")));
    assert!(!glob_match(&str_chars("a.c"), &str_chars("abc")));
}

#[test]
fn words_in_order_is_a_subsequence_test() {
    let field = tokenize(&str_chars("learn rust programming now"));
    let in_order = tokenize(&str_chars("rust now"));
    assert!(words_in_order(&field, &in_order));
    let out_of_order = tokenize(&str_chars("now rust"));
    assert!(!words_in_order(&field, &out_of_order));
    let empty = tokenize(&str_chars(""));
    assert!(words_in_order(&field, &empty));
}

#[test]
fn chars_round_trip_through_string() {
    let v = str_chars("hello world");
    assert_eq!(chars_to_string(&v), "hello world");
}

#[test]
fn match_indices_uses_glob_patterns() {
    let mut cat = Catalog::new();
    cat.create_index("books", None, None).unwrap();
    cat.create_index("booms", None, None).unwrap();
    cat.create_index("log-1", None, None).unwrap();
    assert_eq!(cat.match_indices("boo*"), vec!["books".to_string(), "booms".to_string()]);
    assert_eq!(cat.match_indices("boo?s"), vec!["books".to_string(), "booms".to_string()]);
    assert_eq!(cat.match_indices("log-1"), vec!["log-1".to_string()]);
    assert_eq!(cat.match_indices("none-*"), Vec::<String>::new());
    assert_eq!(cat.match_indices(""), Vec::<String>::new());
    assert_eq!(cat.match_indices("*"), vec![
        "books".to_string(),
        "booms".to_string(),
        "log-1".to_string(),
    ]);
}

#[test]
fn metadata_updates_merge_one_level() {
    let mut cat = Catalog::new();
    cat.create_index("books", None, None).unwrap();
    // a first mapping lands under `properties`
    let mut m1: Vec<(String, Val)> = Vec::new();
    gbs::value::obj_set(&mut m1, "title".to_string(), Val::Str("text".to_string()));
    cat.update_mapping("books", Val::Obj(m1)).unwrap();
    // a second mapping merges into the same `properties`
    let mut m2: Vec<(String, Val)> = Vec::new();
    gbs::value::obj_set(&mut m2, "year".to_string(), Val::Str("integer".to_string()));
    cat.update_mapping("books", Val::Obj(m2)).unwrap();
    let envelope = cat.get_index("books").unwrap();
    match envelope.get_field(&str_chars("books.mappings.properties.title")) {
        Some(Val::Str(t)) => assert_eq!(t, "text"),
        _ => panic!("first mapping should survive"),
    }
    match envelope.get_field(&str_chars("books.mappings.properties.year")) {
        Some(Val::Str(t)) => assert_eq!(t, "integer"),
        _ => panic!("second mapping should be merged in"),
    }
    match cat.update_mapping("missing", Val::Null) {
        Err(gbs::errors::GbsError::IndexNotFound(name)) => assert_eq!(name, "missing"),
        _ => panic!("expected IndexNotFound"),
    }
}

#[test]
fn settings_updates_merge_keys_directly() {
    let mut cat = Catalog::new();
    cat.create_index("books", None, None).unwrap();
    let mut s1: Vec<(String, Val)> = Vec::new();
    gbs::value::obj_set(&mut s1, "shards".to_string(), Val::Int(1));
    cat.update_settings("books", Val::Obj(s1)).unwrap();
    let mut s2: Vec<(String, Val)> = Vec::new();
    gbs::value::obj_set(&mut s2, "replicas".to_string(), Val::Int(2));
    cat.update_settings("books", Val::Obj(s2)).unwrap();
    let envelope = cat.get_index("books").unwrap();
    match envelope.get_field(&str_chars("books.settings.shards")) {
        Some(Val::Int(n)) => assert_eq!(*n, 1),
        _ => panic!("first settings key should survive"),
    }
    match envelope.get_field(&str_chars("books.settings.replicas")) {
        Some(Val::Int(n)) => assert_eq!(*n, 2),
        _ => panic!("second settings key should be merged in"),
    }
}

#[test]
fn list_indices_and_stats_follow_creation() {
    let mut cat = Catalog::new();
    assert_eq!(cat.list_indices(), Vec::<String>::new());
    cat.create_index("a", None, None).unwrap();
    cat.create_index("b", None, None).unwrap();
    cat.index_document("a", "1", Val::Null).unwrap();
    cat.index_document("a", "2", Val::Null).unwrap();
    assert_eq!(cat.list_indices(), vec!["a".to_string(), "b".to_string()]);
    let stats = cat.get_indices_stats();
    assert_eq!(stats.len(), 2);
    assert_eq!(stats[0].0, "a");
    assert_eq!(stats[0].1, 2);
    assert_eq!(stats[1].0, "b");
    assert_eq!(stats[1].1, 0);
    assert!(cat.index_exists("a"));
    cat.delete_all_indices().unwrap();
    assert!(!cat.index_exists("a"));
    assert_eq!(cat.list_indices(), Vec::<String>::new());
}
