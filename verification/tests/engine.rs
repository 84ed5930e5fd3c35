//! End-to-end engine scenarios: catalog operations, scoring, ranking,
//! pagination, source filtering and highlighting.

use gbs::catalog::Catalog;
use gbs::errors::GbsError;
use gbs::highlight::{highlight_text, tokenize_query, HighlightConfig};
use gbs::query::Query;
use gbs::results::SortDir;
use gbs::score::score_document;
use gbs::source_filter::{filter_source, SourceFilter};
use gbs::text::str_chars;
use gbs::value::{obj_set, value_eq, Val};

fn obj(pairs: Vec<(&str, Val)>) -> Val {
    let mut fields: Vec<(String, Val)> = Vec::new();
    for (k, v) in pairs {
        obj_set(&mut fields, k.to_string(), v);
    }
    Val::Obj(fields)
}

fn s(text: &str) -> Val {
    Val::Str(text.to_string())
}

fn match_q(field: &str, text: &str) -> Query {
    Query::Match { field: field.to_string(), text: text.to_string() }
}

#[test]
fn match_scores_exact_contains_and_words() {
    let doc = obj(vec![("title", s("Rust Programming"))]);
    // exact equality of the whole field scores one full unit
    assert_eq!(score_document(&doc, &match_q("title", "rust programming")), gbs::SCORE_ONE);
    // substring containment
    assert_eq!(score_document(&doc, &match_q("title", "Rust")), 800);
    // half credit per matched word: one of two words
    assert_eq!(score_document(&doc, &match_q("title", "rust cooking")), 250);
    // no word matches
    assert_eq!(score_document(&doc, &match_q("title", "python")), 0);
}

#[test]
fn match_empty_text_scores_full() {
    let doc = obj(vec![("title", s("anything"))]);
    assert_eq!(score_document(&doc, &match_q("title", "")), 1000);
    assert_eq!(score_document(&doc, &match_q("missing_field", "")), 1000);
}

#[test]
fn bool_filter_only_scores_full() {
    let doc = obj(vec![("kind", s("book"))]);
    let q = Query::Bool {
        must: vec![],
        should: vec![],
        must_not: vec![],
        filter: vec![Query::Term { field: "kind".to_string(), value: s("book") }],
    };
    assert_eq!(score_document(&doc, &q), 1000);
}

#[test]
fn term_is_reflexive_on_field_values() {
    let doc = obj(vec![("age", Val::Int(30)), ("name", s("Ada"))]);
    let q = Query::Term { field: "age".to_string(), value: Val::Int(30) };
    assert_eq!(score_document(&doc, &q), 1000);
    let q2 = Query::Term { field: "name".to_string(), value: s("Ada") };
    assert_eq!(score_document(&doc, &q2), 1000);
}

#[test]
fn wildcard_is_anchored_to_the_full_value() {
    let doc = obj(vec![("title", s("xa"))]);
    let star = Query::Wildcard { field: "title".to_string(), pattern: "*".to_string() };
    assert_eq!(score_document(&doc, &star), 1000);
    // `a*` must match from the start: `xa` does not qualify
    let prefixed = Query::Wildcard { field: "title".to_string(), pattern: "a*".to_string() };
    assert_eq!(score_document(&doc, &prefixed), 0);
    let suffixed = Query::Wildcard { field: "title".to_string(), pattern: "*a".to_string() };
    assert_eq!(score_document(&doc, &suffixed), 1000);
}

#[test]
fn match_all_field_searches_every_leaf() {
    let doc = obj(vec![
        ("title", s("Python Tutorial")),
        ("meta", obj(vec![("author", s("Rusty Fan"))])),
    ]);
    assert_eq!(score_document(&doc, &match_q("_all", "rusty")), 800);
}

#[test]
fn phrase_requires_order_for_full_score() {
    let doc = obj(vec![("title", s("learn rust programming now"))]);
    let q = Query::MatchPhrase {
        field: "title".to_string(),
        text: "rust programming".to_string(),
    };
    assert_eq!(score_document(&doc, &q), 1000);
}

#[test]
fn create_index_twice_is_refused() {
    let mut cat = Catalog::new();
    assert!(cat.create_index("books", None, None).is_ok());
    match cat.create_index("books", None, None) {
        Err(GbsError::InvalidRequest(msg)) => {
            assert_eq!(msg, "Index books already exists");
        }
        _ => panic!("expected InvalidRequest"),
    }
    assert!(cat.delete_index("books").is_ok());
    match cat.get_index("books") {
        Err(GbsError::IndexNotFound(name)) => assert_eq!(name, "books"),
        _ => panic!("expected IndexNotFound"),
    }
}

#[test]
fn document_crud_round_trip() {
    let mut cat = Catalog::new();
    cat.create_index("books", None, None).unwrap();
    cat.index_document("books", "1", obj(vec![("title", s("Dune"))])).unwrap();
    let envelope = cat.get_document("books", "1").unwrap();
    let src = envelope.get_field(&str_chars("_source.title"));
    match src {
        Some(Val::Str(t)) => assert_eq!(t, "Dune"),
        _ => panic!("expected the stored title"),
    }
    cat.delete_document("books", "1").unwrap();
    match cat.get_document("books", "1") {
        Err(GbsError::DocumentNotFound(id)) => assert_eq!(id, "1"),
        _ => panic!("expected DocumentNotFound"),
    }
    match cat.get_document("nowhere", "1") {
        Err(GbsError::IndexNotFound(name)) => assert_eq!(name, "nowhere"),
        _ => panic!("expected IndexNotFound"),
    }
}

#[test]
fn create_document_generates_a_fresh_id() {
    let mut cat = Catalog::new();
    cat.create_index("books", None, None).unwrap();
    let id = cat.create_document("books", obj(vec![("title", s("Dune"))])).unwrap();
    assert_eq!(id.chars().count(), 36);
    let envelope = cat.get_document("books", &id).unwrap();
    match envelope.get_field(&str_chars("_source.title")) {
        Some(Val::Str(t)) => assert_eq!(t, "Dune"),
        _ => panic!("expected the stored title"),
    }
}

#[test]
fn search_match_finds_substring_hit() {
    let mut cat = Catalog::new();
    cat.create_index("books", None, None).unwrap();
    cat.index_document("books", "1", obj(vec![("title", s("Rust Programming"))])).unwrap();
    cat.index_document("books", "2", obj(vec![("title", s("Python Tutorial"))])).unwrap();
    let res = cat.search("books", &match_q("title", "Rust"), None, None, None, None, None)
        .unwrap();
    assert_eq!(res.total, 1);
    assert_eq!(res.hits.len(), 1);
    assert_eq!(res.hits[0].id, "1");
    assert_eq!(res.hits[0].score, 800);
    assert_eq!(res.max_score, Some(800));
}

#[test]
fn search_range_matches_inclusive_bounds() {
    let mut cat = Catalog::new();
    cat.create_index("people", None, None).unwrap();
    cat.index_document("people", "a", obj(vec![("age", Val::Int(25))])).unwrap();
    cat.index_document("people", "b", obj(vec![("age", Val::Int(30))])).unwrap();
    cat.index_document("people", "c", obj(vec![("age", Val::Int(35))])).unwrap();
    let q = Query::Range {
        field: "age".to_string(),
        gte: Some(28),
        gt: None,
        lte: Some(40),
        lt: None,
    };
    let res = cat.search("people", &q, None, None, None, None, None).unwrap();
    assert_eq!(res.total, 2);
    let mut ids: Vec<String> = res.hits.iter().map(|h| h.id.clone()).collect();
    ids.sort();
    assert_eq!(ids, vec!["b".to_string(), "c".to_string()]);
}

#[test]
fn search_wildcard_contains_pattern() {
    let mut cat = Catalog::new();
    cat.create_index("books", None, None).unwrap();
    cat.index_document("books", "1", obj(vec![("title", s("Rust Programming"))])).unwrap();
    cat.index_document("books", "2", obj(vec![("title", s("Python Tutorial"))])).unwrap();
    cat.index_document("books", "3", obj(vec![("title", s("Rusty Code"))])).unwrap();
    let q = Query::Wildcard { field: "title".to_string(), pattern: "*rust*".to_string() };
    let res = cat.search("books", &q, None, None, None, None, None).unwrap();
    assert_eq!(res.total, 2);
    let mut ids: Vec<String> = res.hits.iter().map(|h| h.id.clone()).collect();
    ids.sort();
    assert_eq!(ids, vec!["1".to_string(), "3".to_string()]);
}

#[test]
fn search_sorts_by_field_and_reverses_on_desc() {
    let mut cat = Catalog::new();
    cat.create_index("people", None, None).unwrap();
    cat.index_document("people", "a", obj(vec![("age", Val::Int(30))])).unwrap();
    cat.index_document("people", "b", obj(vec![("age", Val::Int(25))])).unwrap();
    cat.index_document("people", "c", obj(vec![("age", Val::Int(35))])).unwrap();
    let keys_asc = vec![("age".to_string(), SortDir::Asc)];
    let res = cat.search("people", &Query::MatchAll, None, None, Some(&keys_asc), None, None)
        .unwrap();
    let ids: Vec<String> = res.hits.iter().map(|h| h.id.clone()).collect();
    assert_eq!(ids, vec!["b".to_string(), "a".to_string(), "c".to_string()]);
    let keys_desc = vec![("age".to_string(), SortDir::Desc)];
    let res = cat.search("people", &Query::MatchAll, None, None, Some(&keys_desc), None, None)
        .unwrap();
    let ids: Vec<String> = res.hits.iter().map(|h| h.id.clone()).collect();
    assert_eq!(ids, vec!["c".to_string(), "a".to_string(), "b".to_string()]);
}

#[test]
fn search_pagination_concatenates_to_the_full_list() {
    let mut cat = Catalog::new();
    cat.create_index("nums", None, None).unwrap();
    for i in 0..7 {
        let id = format!("d{}", i);
        cat.index_document("nums", &id, obj(vec![("n", Val::Int(i))])).unwrap();
    }
    let keys = vec![("n".to_string(), SortDir::Asc)];
    let mut seen: Vec<String> = Vec::new();
    for page in 0..4 {
        let res = cat.search(
            "nums",
            &Query::MatchAll,
            Some(page * 2),
            Some(2),
            Some(&keys),
            None,
            None,
        ).unwrap();
        assert_eq!(res.total, 7);
        for h in &res.hits {
            seen.push(h.id.clone());
        }
    }
    let expected: Vec<String> = (0..7).map(|i| format!("d{}", i)).collect();
    assert_eq!(seen, expected);
}

#[test]
fn filter_source_projects_and_is_idempotent() {
    let doc = obj(vec![("a", Val::Int(1)), ("b", Val::Int(2)), ("c", Val::Int(3))]);
    let keep_all = filter_source(&doc, Some(&SourceFilter::All(true)));
    assert!(value_eq(&keep_all, &doc));
    let none = filter_source(&doc, Some(&SourceFilter::All(false)));
    assert!(value_eq(&none, &Val::Obj(vec![])));
    let f = SourceFilter::Fields(vec!["a".to_string(), "missing".to_string()]);
    let once = filter_source(&doc, Some(&f));
    assert!(value_eq(&once, &obj(vec![("a", Val::Int(1))])));
    let twice = filter_source(&once, Some(&f));
    assert!(value_eq(&twice, &once));
    let part = SourceFilter::Partial {
        includes: Some(vec!["a".to_string(), "b".to_string()]),
        excludes: Some(vec!["b".to_string()]),
    };
    let once = filter_source(&doc, Some(&part));
    assert!(value_eq(&once, &obj(vec![("a", Val::Int(1))])));
    let twice = filter_source(&once, Some(&part));
    assert!(value_eq(&twice, &once));
}

#[test]
fn highlight_wraps_every_occurrence() {
    let terms = vec!["search".to_string()];
    let out = highlight_text("This is a search result", &terms, "<em>", "</em>");
    assert_eq!(out, "This is a <em>search</em> result");
    let out = highlight_text("search me, search you", &terms, "[", "]");
    assert_eq!(out, "[search] me, [search] you");
    // case-insensitive, original casing kept
    let out = highlight_text("Search it", &terms, "<em>", "</em>");
    assert_eq!(out, "<em>Search</em> it");
    // overlapping matches keep the first
    let overlapping = vec!["aa".to_string()];
    let out = highlight_text("aaa", &overlapping, "<", ">");
    assert_eq!(out, "<aa>a");
}

#[test]
fn tokenize_query_lowercases_words() {
    let toks = tokenize_query("  Rust   Programming\tNOW ");
    assert_eq!(toks, vec!["rust".to_string(), "programming".to_string(), "now".to_string()]);
}

#[test]
fn search_highlights_configured_fields() {
    let mut cat = Catalog::new();
    cat.create_index("books", None, None).unwrap();
    cat.index_document("books", "1", obj(vec![("title", s("Rust Programming"))])).unwrap();
    let cfg = HighlightConfig {
        fields: vec!["title".to_string()],
        pre_tag: "<em>".to_string(),
        post_tag: "</em>".to_string(),
    };
    let res = cat.search(
        "books",
        &match_q("title", "rust"),
        None,
        None,
        None,
        None,
        Some(&cfg),
    ).unwrap();
    assert_eq!(res.hits.len(), 1);
    let hl = res.hits[0].highlight.as_ref().expect("expected a highlight");
    match hl.get_field(&str_chars("title")) {
        Some(Val::Arr(items)) => match &items[0] {
            Val::Str(t) => assert_eq!(t, "<em>Rust</em> Programming"),
            _ => panic!("expected highlighted text"),
        },
        _ => panic!("expected highlighted field"),
    }
}
