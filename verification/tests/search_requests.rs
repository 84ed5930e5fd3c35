//! Search requests read from JSON text: the query combinator, sort keys,
//! source filters and highlight configuration, end to end through the
//! engine.

use gbs::catalog::Catalog;
use gbs::from_value::{
    highlight_from_value, query_from_value, sort_keys_from_value, source_filter_from_value,
};
use gbs::query::Query;
use gbs::results::SortDir;
use gbs::score::score_document;
use gbs::source_filter::SourceFilter;
use gbs::trusted::parse_json;
use gbs::value::Val;

fn val(json: &str) -> Val {
    parse_json(json).expect("test JSON should parse")
}

#[test]
fn query_kinds_parse_from_request_values() {
    match query_from_value(&val("{\"match\":{\"title\":\"rust\"}}")) {
        Query::Match { field, text } => {
            assert_eq!(field, "title");
            assert_eq!(text, "rust");
        }
        _ => panic!("expected a match query"),
    }
    match query_from_value(&val("{\"match\":{\"title\":{\"query\":\"rust\"}}}")) {
        Query::Match { field, text } => {
            assert_eq!(field, "title");
            assert_eq!(text, "rust");
        }
        _ => panic!("expected a match query"),
    }
    match query_from_value(&val("{\"term\":{\"age\":30}}")) {
        Query::Term { field, value } => {
            assert_eq!(field, "age");
            assert!(matches!(value, Val::Int(30)));
        }
        _ => panic!("expected a term query"),
    }
    match query_from_value(&val("{\"range\":{\"age\":{\"gte\":28,\"lte\":40}}}")) {
        Query::Range { field, gte, gt, lte, lt } => {
            assert_eq!(field, "age");
            assert_eq!(gte, Some(28));
            assert_eq!(gt, None);
            assert_eq!(lte, Some(40));
            assert_eq!(lt, None);
        }
        _ => panic!("expected a range query"),
    }
    match query_from_value(&val("{\"bool\":{\"must\":[{\"match\":{\"a\":\"x\"}}],\"must_not\":[{\"term\":{\"b\":1}}]}}")) {
        Query::Bool { must, should, must_not, filter } => {
            assert_eq!(must.len(), 1);
            assert_eq!(should.len(), 0);
            assert_eq!(must_not.len(), 1);
            assert_eq!(filter.len(), 0);
        }
        _ => panic!("expected a bool query"),
    }
    assert!(matches!(query_from_value(&val("{}")), Query::MatchAll));
    assert!(matches!(query_from_value(&val("{\"match_all\":{}}")), Query::MatchAll));
    assert!(matches!(query_from_value(&val("{\"nonsense\":1}")), Query::NoMatch));
}

#[test]
fn parsed_bool_query_scores_like_its_clauses() {
    let doc = val("{\"title\":\"Rust Programming\",\"year\":2024}");
    let q = query_from_value(&val(
        "{\"bool\":{\"filter\":[{\"range\":{\"year\":{\"gte\":2020}}}]}}",
    ));
    assert_eq!(score_document(&doc, &q), 1000);
    let q = query_from_value(&val(
        "{\"bool\":{\"must\":[{\"match\":{\"title\":\"rust\"}}],\"must_not\":[{\"term\":{\"year\":2024}}]}}",
    ));
    assert_eq!(score_document(&doc, &q), 0);
}

#[test]
fn sort_keys_parse_in_order() {
    let keys = sort_keys_from_value(&val("[{\"age\":\"desc\"},{\"name\":{\"order\":\"asc\"}}]"));
    assert_eq!(keys.len(), 2);
    assert_eq!(keys[0].0, "age");
    assert!(matches!(keys[0].1, SortDir::Desc));
    assert_eq!(keys[1].0, "name");
    assert!(matches!(keys[1].1, SortDir::Asc));
    let single = sort_keys_from_value(&val("{\"age\":\"desc\"}"));
    assert_eq!(single.len(), 1);
    assert!(matches!(single[0].1, SortDir::Desc));
}

#[test]
fn source_filters_parse_every_shape() {
    assert!(matches!(source_filter_from_value(&val("true")), SourceFilter::All(true)));
    assert!(matches!(source_filter_from_value(&val("false")), SourceFilter::All(false)));
    match source_filter_from_value(&val("[\"a\",\"b\"]")) {
        SourceFilter::Fields(names) => assert_eq!(names, vec!["a".to_string(), "b".to_string()]),
        _ => panic!("expected a field list"),
    }
    match source_filter_from_value(&val("{\"includes\":[\"a\"],\"excludes\":[\"b\"]}")) {
        SourceFilter::Partial { includes, excludes } => {
            assert_eq!(includes, Some(vec!["a".to_string()]));
            assert_eq!(excludes, Some(vec!["b".to_string()]));
        }
        _ => panic!("expected an include/exclude pair"),
    }
}

#[test]
fn highlight_config_parses_fields_and_tags() {
    let cfg = highlight_from_value(&val(
        "{\"fields\":{\"title\":{}},\"pre_tags\":[\"<b>\"],\"post_tags\":[\"</b>\"]}",
    ))
    .expect("expected a config");
    assert_eq!(cfg.fields, vec!["title".to_string()]);
    assert_eq!(cfg.pre_tag, "<b>");
    assert_eq!(cfg.post_tag, "</b>");
    let cfg = highlight_from_value(&val("{\"fields\":{\"title\":{}}}")).expect("config");
    assert_eq!(cfg.pre_tag, "<em>");
    assert_eq!(cfg.post_tag, "</em>");
    assert!(highlight_from_value(&val("{}")).is_none());
}

#[test]
fn json_documents_flow_through_the_whole_engine() {
    let mut cat = Catalog::new();
    cat.create_index("books", None, None).unwrap();
    cat.index_document(
        "books",
        "1",
        val("{\"title\":\"Rust Programming\",\"meta\":{\"year\":2019}}"),
    )
    .unwrap();
    cat.index_document(
        "books",
        "2",
        val("{\"title\":\"Python Tutorial\",\"meta\":{\"year\":2021}}"),
    )
    .unwrap();
    let q = query_from_value(&val("{\"range\":{\"meta.year\":{\"gt\":2020}}}"));
    let res = cat.search("books", &q, None, None, None, None, None).unwrap();
    assert_eq!(res.total, 1);
    assert_eq!(res.hits[0].id, "2");
    // a parsed document equals one built field by field, whatever the key
    // order in the text
    let rebuilt = val("{\"meta\":{\"year\":2021},\"title\":\"Python Tutorial\"}");
    assert!(gbs::value::value_eq(&res.hits[0].source, &rebuilt));
}

#[test]
fn multi_index_results_merge_and_repaginate() {
    let mut cat = Catalog::new();
    cat.create_index("a", None, None).unwrap();
    cat.create_index("b", None, None).unwrap();
    cat.index_document("a", "a1", val("{\"title\":\"rust exact\"}")).unwrap();
    cat.index_document("b", "b1", val("{\"title\":\"has rust inside\"}")).unwrap();
    let q = query_from_value(&val("{\"match\":{\"title\":\"rust exact\"}}"));
    let patterns = vec!["*".to_string()];
    let merged = cat.search_many(&patterns, &q, None, None, None, None, None);
    assert_eq!(merged.total, 2);
    assert_eq!(merged.hits.len(), 2);
    // the exact match outranks the partial one across indices
    assert_eq!(merged.hits[0].id, "a1");
    assert_eq!(merged.hits[0].index, "a");
    assert_eq!(merged.hits[0].score, 1000);
    assert_eq!(merged.hits[1].id, "b1");
    assert_eq!(merged.hits[1].index, "b");
    assert_eq!(merged.max_score, Some(1000));
}
