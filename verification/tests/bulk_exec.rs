//! The bulk executor: per-item isolation, error records and the merge
//! semantics of `Update`.

use gbs::bulk::{BulkAction, BulkItemResponse};
use gbs::catalog::Catalog;
use gbs::errors::GbsError;
use gbs::text::str_chars;
use gbs::value::{obj_set, Val};

fn obj(pairs: Vec<(&str, Val)>) -> Val {
    let mut fields: Vec<(String, Val)> = Vec::new();
    for (k, v) in pairs {
        obj_set(&mut fields, k.to_string(), v);
    }
    Val::Obj(fields)
}

fn s(text: &str) -> Val {
    Val::Str(text.to_string())
}

#[test]
fn bulk_create_on_existing_id_fails() {
    let mut cat = Catalog::new();
    cat.create_index("books", None, None).unwrap();
    cat.index_document("books", "1", obj(vec![("title", s("old"))])).unwrap();
    let action = BulkAction::Create {
        index: "books".to_string(),
        id: Some("1".to_string()),
        document: obj(vec![("title", s("new"))]),
    };
    match cat.execute_bulk_action(action) {
        Err(GbsError::InvalidRequest(msg)) => {
            assert_eq!(msg, "Document 1 already exists");
        }
        _ => panic!("expected InvalidRequest"),
    }
    // the stored document is untouched
    let envelope = cat.get_document("books", "1").unwrap();
    match envelope.get_field(&str_chars("_source.title")) {
        Some(Val::Str(t)) => assert_eq!(t, "old"),
        _ => panic!("expected the old title"),
    }
}

#[test]
fn bulk_update_on_missing_id_creates_the_document() {
    let mut cat = Catalog::new();
    cat.create_index("books", None, None).unwrap();
    let action = BulkAction::Update {
        index: "books".to_string(),
        id: "9".to_string(),
        document: obj(vec![("title", s("fresh"))]),
    };
    let (index, id, status, result) = cat.execute_bulk_action(action).unwrap();
    assert_eq!(index, "books");
    assert_eq!(id, "9");
    assert_eq!(status, 200);
    assert_eq!(result, Some("updated".to_string()));
    let envelope = cat.get_document("books", "9").unwrap();
    match envelope.get_field(&str_chars("_source.title")) {
        Some(Val::Str(t)) => assert_eq!(t, "fresh"),
        _ => panic!("expected the fresh title"),
    }
}

#[test]
fn bulk_update_merges_top_level_fields() {
    let mut cat = Catalog::new();
    cat.create_index("books", None, None).unwrap();
    cat.index_document(
        "books",
        "1",
        obj(vec![("title", s("Dune")), ("year", Val::Int(1965))]),
    ).unwrap();
    let action = BulkAction::Update {
        index: "books".to_string(),
        id: "1".to_string(),
        document: obj(vec![("year", Val::Int(1966)), ("pages", Val::Int(412))]),
    };
    cat.execute_bulk_action(action).unwrap();
    let envelope = cat.get_document("books", "1").unwrap();
    match envelope.get_field(&str_chars("_source.title")) {
        Some(Val::Str(t)) => assert_eq!(t, "Dune"),
        _ => panic!("title should survive the merge"),
    }
    match envelope.get_field(&str_chars("_source.year")) {
        Some(Val::Int(y)) => assert_eq!(*y, 1966),
        _ => panic!("year should be replaced"),
    }
    match envelope.get_field(&str_chars("_source.pages")) {
        Some(Val::Int(p)) => assert_eq!(*p, 412),
        _ => panic!("pages should be added"),
    }
}

#[test]
fn bulk_delete_on_missing_id_fails() {
    let mut cat = Catalog::new();
    cat.create_index("books", None, None).unwrap();
    let action = BulkAction::Delete { index: "books".to_string(), id: "9".to_string() };
    match cat.execute_bulk_action(action) {
        Err(GbsError::DocumentNotFound(id)) => assert_eq!(id, "9"),
        _ => panic!("expected DocumentNotFound"),
    }
}

#[test]
fn bulk_batch_isolates_failures_per_item() {
    let mut cat = Catalog::new();
    cat.create_index("books", None, None).unwrap();
    let actions = vec![
        BulkAction::Index {
            index: "books".to_string(),
            id: Some("1".to_string()),
            document: obj(vec![("title", s("One"))]),
        },
        BulkAction::Delete { index: "books".to_string(), id: "missing".to_string() },
        BulkAction::Index {
            index: "books".to_string(),
            id: Some("2".to_string()),
            document: obj(vec![("title", s("Two"))]),
        },
    ];
    let resp = cat.execute_bulk(actions);
    assert!(resp.errors);
    assert_eq!(resp.items.len(), 3);
    match &resp.items[0] {
        BulkItemResponse::Index { index } => {
            assert_eq!(index.status, 201);
            assert_eq!(index.result, Some("created".to_string()));
            assert!(index.error.is_none());
        }
        _ => panic!("expected an index item"),
    }
    match &resp.items[1] {
        BulkItemResponse::Delete { delete } => {
            assert_eq!(delete.status, 400);
            let err = delete.error.as_ref().expect("expected an error record");
            assert_eq!(err.type_, "invalid_request_exception");
            assert_eq!(err.reason, "Document not found: missing");
        }
        _ => panic!("expected a delete item"),
    }
    // the batch completed: both documents are stored
    assert!(cat.get_document("books", "1").is_ok());
    assert!(cat.get_document("books", "2").is_ok());
}

#[test]
fn bulk_index_without_id_draws_a_fresh_one() {
    let mut cat = Catalog::new();
    cat.create_index("books", None, None).unwrap();
    let action = BulkAction::Index {
        index: "books".to_string(),
        id: None,
        document: obj(vec![("title", s("anon"))]),
    };
    let (_, id, status, _) = cat.execute_bulk_action(action).unwrap();
    assert_eq!(status, 201);
    assert_eq!(id.chars().count(), 36);
    assert!(cat.get_document("books", &id).is_ok());
}
