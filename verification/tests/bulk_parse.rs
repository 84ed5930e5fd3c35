//! Parsing of newline-delimited bulk request bodies.

use gbs::bulk::{parse_bulk_ndjson, value_get, BulkAction};
use gbs::text::str_chars;
use gbs::value::Val;

fn get_str(doc: &Val, path: &str) -> String {
    let key = str_chars(path);
    match doc.get_field(&key) {
        Some(Val::Str(s)) => s.clone(),
        other => panic!("expected string at {}, found {:?}", path, other.is_some()),
    }
}

fn get_int(doc: &Val, path: &str) -> i64 {
    let key = str_chars(path);
    match doc.get_field(&key) {
        Some(Val::Int(n)) => *n,
        _ => panic!("expected number at {}", path),
    }
}

fn get_arr_str(doc: &Val, path: &str, i: usize) -> String {
    let key = str_chars(path);
    match doc.get_field(&key) {
        Some(Val::Arr(items)) => match &items[i] {
            Val::Str(s) => s.clone(),
            _ => panic!("expected string element"),
        },
        _ => panic!("expected array at {}", path),
    }
}

fn err_message(r: Result<Vec<BulkAction>, gbs::errors::GbsError>) -> String {
    match r {
        Err(e) => e.message(),
        Ok(_) => panic!("expected an error"),
    }
}

#[test]
fn test_parse_bulk_index_operations() {
    let bulk_body = "{\"index\":{\"_index\":\"test_index\",\"_id\":\"1\"}}\n{\"title\":\"Document 1\",\"body\":\"Content 1\"}\n{\"index\":{\"_index\":\"test_index\",\"_id\":\"2\"}}\n{\"title\":\"Document 2\",\"body\":\"Content 2\"}\n";
    let actions = parse_bulk_ndjson(bulk_body, None).unwrap();
    assert_eq!(actions.len(), 2);
    match &actions[0] {
        BulkAction::Index { index, id, document } => {
            assert_eq!(index, "test_index");
            assert_eq!(id, &Some("1".to_string()));
            assert_eq!(get_str(document, "title"), "Document 1");
            assert_eq!(get_str(document, "body"), "Content 1");
        }
        _ => panic!("Expected Index action"),
    }
    match &actions[1] {
        BulkAction::Index { index, id, document } => {
            assert_eq!(index, "test_index");
            assert_eq!(id, &Some("2".to_string()));
            assert_eq!(get_str(document, "title"), "Document 2");
        }
        _ => panic!("Expected Index action"),
    }
}

#[test]
fn test_parse_bulk_create_operations() {
    let bulk_body = "{\"create\":{\"_index\":\"test_index\",\"_id\":\"1\"}}\n{\"title\":\"Create Doc 1\",\"body\":\"Content 1\"}\n{\"create\":{\"_index\":\"test_index\",\"_id\":\"2\"}}\n{\"title\":\"Create Doc 2\",\"body\":\"Content 2\"}\n";
    let actions = parse_bulk_ndjson(bulk_body, None).unwrap();
    assert_eq!(actions.len(), 2);
    match &actions[0] {
        BulkAction::Create { index, id, document } => {
            assert_eq!(index, "test_index");
            assert_eq!(id, &Some("1".to_string()));
            assert_eq!(get_str(document, "title"), "Create Doc 1");
        }
        _ => panic!("Expected Create action"),
    }
}

#[test]
fn test_parse_bulk_update_operations() {
    let bulk_body = "{\"update\":{\"_index\":\"test_index\",\"_id\":\"1\"}}\n{\"doc\":{\"title\":\"Updated Title\",\"body\":\"Updated content\"}}\n";
    let actions = parse_bulk_ndjson(bulk_body, None).unwrap();
    assert_eq!(actions.len(), 1);
    match &actions[0] {
        BulkAction::Update { index, id, document } => {
            assert_eq!(index, "test_index");
            assert_eq!(id, "1");
            assert_eq!(get_str(document, "title"), "Updated Title");
            assert_eq!(get_str(document, "body"), "Updated content");
        }
        _ => panic!("Expected Update action"),
    }
}

#[test]
fn test_parse_bulk_delete_operations() {
    let bulk_body = "{\"delete\":{\"_index\":\"test_index\",\"_id\":\"1\"}}\n{\"delete\":{\"_index\":\"test_index\",\"_id\":\"2\"}}\n";
    let actions = parse_bulk_ndjson(bulk_body, None).unwrap();
    assert_eq!(actions.len(), 2);
    match &actions[0] {
        BulkAction::Delete { index, id } => {
            assert_eq!(index, "test_index");
            assert_eq!(id, "1");
        }
        _ => panic!("Expected Delete action"),
    }
    match &actions[1] {
        BulkAction::Delete { index, id } => {
            assert_eq!(index, "test_index");
            assert_eq!(id, "2");
        }
        _ => panic!("Expected Delete action"),
    }
}

#[test]
fn test_parse_bulk_mixed_operations() {
    let bulk_body = "{\"index\":{\"_index\":\"test_index\",\"_id\":\"1\"}}\n{\"title\":\"Indexed Doc\"}\n{\"create\":{\"_index\":\"test_index\",\"_id\":\"2\"}}\n{\"title\":\"Created Doc\"}\n{\"update\":{\"_index\":\"test_index\",\"_id\":\"1\"}}\n{\"doc\":{\"title\":\"Updated\"}}\n{\"delete\":{\"_index\":\"test_index\",\"_id\":\"2\"}}\n";
    let actions = parse_bulk_ndjson(bulk_body, None).unwrap();
    assert_eq!(actions.len(), 4);
    match &actions[0] {
        BulkAction::Index { .. } => {}
        _ => panic!("Expected Index action"),
    }
    match &actions[1] {
        BulkAction::Create { .. } => {}
        _ => panic!("Expected Create action"),
    }
    match &actions[2] {
        BulkAction::Update { .. } => {}
        _ => panic!("Expected Update action"),
    }
    match &actions[3] {
        BulkAction::Delete { .. } => {}
        _ => panic!("Expected Delete action"),
    }
}

#[test]
fn test_parse_bulk_with_default_index() {
    let bulk_body = "{\"index\":{\"_id\":\"1\"}}\n{\"title\":\"Doc 1\"}\n{\"index\":{\"_id\":\"2\"}}\n{\"title\":\"Doc 2\"}\n";
    let actions = parse_bulk_ndjson(bulk_body, Some("default_index")).unwrap();
    assert_eq!(actions.len(), 2);
    match &actions[0] {
        BulkAction::Index { index, id, .. } => {
            assert_eq!(index, "default_index");
            assert_eq!(id, &Some("1".to_string()));
        }
        _ => panic!("Expected Index action"),
    }
}

#[test]
fn test_parse_bulk_auto_generated_id() {
    let bulk_body = "{\"index\":{\"_index\":\"test_index\"}}\n{\"title\":\"Auto ID Doc\",\"body\":\"Content\"}\n";
    let actions = parse_bulk_ndjson(bulk_body, None).unwrap();
    assert_eq!(actions.len(), 1);
    match &actions[0] {
        BulkAction::Index { index, id, document } => {
            assert_eq!(index, "test_index");
            assert_eq!(id, &None);
            assert_eq!(get_str(document, "title"), "Auto ID Doc");
        }
        _ => panic!("Expected Index action"),
    }
}

#[test]
fn test_parse_bulk_update_without_doc_wrapper() {
    let bulk_body = "{\"update\":{\"_index\":\"test_index\",\"_id\":\"1\"}}\n{\"title\":\"Direct Update\",\"body\":\"Content\"}\n";
    let actions = parse_bulk_ndjson(bulk_body, None).unwrap();
    assert_eq!(actions.len(), 1);
    match &actions[0] {
        BulkAction::Update { index, id, document } => {
            assert_eq!(index, "test_index");
            assert_eq!(id, "1");
            assert_eq!(get_str(document, "title"), "Direct Update");
        }
        _ => panic!("Expected Update action"),
    }
}

#[test]
fn test_parse_bulk_missing_document() {
    let bulk_body = "{\"index\":{\"_index\":\"test_index\",\"_id\":\"1\"}}\n";
    let result = parse_bulk_ndjson(bulk_body, None);
    assert!(result.is_err());
    assert!(err_message(result).contains("Missing document"));
}

#[test]
fn test_parse_bulk_invalid_json() {
    let bulk_body = "{\"index\":{\"_index\":\"test_index\",\"_id\":\"1\"}\ninvalid json\n";
    let result = parse_bulk_ndjson(bulk_body, None);
    assert!(result.is_err());
    assert!(err_message(result).contains("Invalid JSON"));
}

#[test]
fn test_parse_bulk_missing_index() {
    let bulk_body = "{\"index\":{\"_id\":\"1\"}}\n{\"title\":\"Doc\"}\n";
    let result = parse_bulk_ndjson(bulk_body, None);
    assert!(result.is_err());
    assert!(err_message(result).contains("Missing _index"));
}

#[test]
fn test_parse_bulk_missing_id_for_update() {
    let bulk_body = "{\"update\":{\"_index\":\"test_index\"}}\n{\"doc\":{\"title\":\"Updated\"}}\n";
    let result = parse_bulk_ndjson(bulk_body, None);
    assert!(result.is_err());
    assert!(err_message(result).contains("Missing _id"));
}

#[test]
fn test_parse_bulk_missing_id_for_delete() {
    let bulk_body = "{\"delete\":{\"_index\":\"test_index\"}}\n";
    let result = parse_bulk_ndjson(bulk_body, None);
    assert!(result.is_err());
    assert!(err_message(result).contains("Missing _id"));
}

#[test]
fn test_parse_bulk_unknown_action() {
    let bulk_body = "{\"unknown\":{\"_index\":\"test_index\",\"_id\":\"1\"}}\n{\"title\":\"Doc\"}\n";
    let result = parse_bulk_ndjson(bulk_body, None);
    assert!(result.is_err());
    assert!(err_message(result).contains("Unknown bulk action"));
}

#[test]
fn test_parse_bulk_empty_body() {
    let bulk_body = "";
    let actions = parse_bulk_ndjson(bulk_body, None).unwrap();
    assert_eq!(actions.len(), 0);
}

#[test]
fn test_parse_bulk_with_whitespace() {
    let bulk_body = "\n{\"index\":{\"_index\":\"test_index\",\"_id\":\"1\"}}\n\n{\"title\":\"Doc 1\"}\n\n\n{\"index\":{\"_index\":\"test_index\",\"_id\":\"2\"}}\n{\"title\":\"Doc 2\"}\n\n";
    let actions = parse_bulk_ndjson(bulk_body, None).unwrap();
    assert_eq!(actions.len(), 2);
}

#[test]
fn test_parse_bulk_large_batch() {
    let mut bulk_body = String::new();
    for i in 1..=10 {
        bulk_body.push_str(&format!(
            "{{\"index\":{{\"_index\":\"test_index\",\"_id\":\"{}\"}}}}\n{{\"title\":\"Doc {}\",\"body\":\"Content {}\"}}\n",
            i, i, i
        ));
    }
    let actions = parse_bulk_ndjson(&bulk_body, None).unwrap();
    assert_eq!(actions.len(), 10);
    for (i, action) in actions.iter().enumerate() {
        match action {
            BulkAction::Index { index, id, document } => {
                assert_eq!(index, "test_index");
                assert_eq!(id, &Some(format!("{}", i + 1)));
                assert_eq!(get_str(document, "title"), format!("Doc {}", i + 1));
            }
            _ => panic!("Expected Index action"),
        }
    }
}

#[test]
fn test_parse_bulk_create_missing_document() {
    let bulk_body = "{\"create\":{\"_index\":\"test_index\",\"_id\":\"1\"}}\n";
    let result = parse_bulk_ndjson(bulk_body, None);
    assert!(result.is_err());
    assert!(err_message(result).contains("Missing document"));
}

#[test]
fn test_parse_bulk_update_missing_document() {
    let bulk_body = "{\"update\":{\"_index\":\"test_index\",\"_id\":\"1\"}}\n";
    let result = parse_bulk_ndjson(bulk_body, None);
    assert!(result.is_err());
    assert!(err_message(result).contains("Missing document"));
}

#[test]
fn test_parse_bulk_index_with_default_index() {
    let bulk_body = "{\"index\":{\"_id\":\"1\"}}\n{\"title\":\"Doc 1\"}\n";
    let actions = parse_bulk_ndjson(bulk_body, Some("default_index")).unwrap();
    assert_eq!(actions.len(), 1);
    match &actions[0] {
        BulkAction::Index { index, .. } => {
            assert_eq!(index, "default_index");
        }
        _ => panic!("Expected Index action"),
    }
}

#[test]
fn test_parse_bulk_create_with_default_index() {
    let bulk_body = "{\"create\":{\"_id\":\"1\"}}\n{\"title\":\"Doc 1\"}\n";
    let actions = parse_bulk_ndjson(bulk_body, Some("default_index")).unwrap();
    assert_eq!(actions.len(), 1);
    match &actions[0] {
        BulkAction::Create { index, .. } => {
            assert_eq!(index, "default_index");
        }
        _ => panic!("Expected Create action"),
    }
}

#[test]
fn test_parse_bulk_update_with_default_index() {
    let bulk_body = "{\"update\":{\"_id\":\"1\"}}\n{\"doc\":{\"title\":\"Updated\"}}\n";
    let actions = parse_bulk_ndjson(bulk_body, Some("default_index")).unwrap();
    assert_eq!(actions.len(), 1);
    match &actions[0] {
        BulkAction::Update { index, .. } => {
            assert_eq!(index, "default_index");
        }
        _ => panic!("Expected Update action"),
    }
}

#[test]
fn test_parse_bulk_delete_with_default_index() {
    let bulk_body = "{\"delete\":{\"_id\":\"1\"}}\n";
    let actions = parse_bulk_ndjson(bulk_body, Some("default_index")).unwrap();
    assert_eq!(actions.len(), 1);
    match &actions[0] {
        BulkAction::Delete { index, .. } => {
            assert_eq!(index, "default_index");
        }
        _ => panic!("Expected Delete action"),
    }
}

#[test]
fn test_parse_bulk_invalid_action_json() {
    let bulk_body = "{\"index\":invalid json}\n{\"title\":\"Doc\"}\n";
    let result = parse_bulk_ndjson(bulk_body, None);
    assert!(result.is_err());
    assert!(err_message(result).contains("Invalid JSON"));
}

#[test]
fn test_parse_bulk_invalid_document_json() {
    let bulk_body = "{\"index\":{\"_index\":\"test_index\",\"_id\":\"1\"}}\ninvalid json document\n";
    let result = parse_bulk_ndjson(bulk_body, None);
    assert!(result.is_err());
    assert!(err_message(result).contains("Invalid document JSON"));
}

#[test]
fn test_parse_bulk_update_with_nested_doc() {
    let bulk_body = "{\"update\":{\"_index\":\"test_index\",\"_id\":\"1\"}}\n{\"doc\":{\"nested\":{\"field\":\"value\"}}}\n";
    let actions = parse_bulk_ndjson(bulk_body, None).unwrap();
    assert_eq!(actions.len(), 1);
    match &actions[0] {
        BulkAction::Update { document, .. } => {
            assert_eq!(get_str(document, "nested.field"), "value");
        }
        _ => panic!("Expected Update action"),
    }
}

#[test]
fn test_parse_bulk_update_without_doc_field() {
    let bulk_body = "{\"update\":{\"_index\":\"test_index\",\"_id\":\"1\"}}\n{\"field\":\"direct_value\"}\n";
    let actions = parse_bulk_ndjson(bulk_body, None).unwrap();
    assert_eq!(actions.len(), 1);
    match &actions[0] {
        BulkAction::Update { document, .. } => {
            assert_eq!(get_str(document, "field"), "direct_value");
        }
        _ => panic!("Expected Update action"),
    }
}

#[test]
fn test_parse_bulk_complex_document() {
    let bulk_body = "{\"index\":{\"_index\":\"test_index\",\"_id\":\"1\"}}\n{\"title\":\"Doc\",\"tags\":[\"tag1\",\"tag2\"],\"metadata\":{\"author\":\"John\",\"year\":2024},\"count\":42}\n";
    let actions = parse_bulk_ndjson(bulk_body, None).unwrap();
    assert_eq!(actions.len(), 1);
    match &actions[0] {
        BulkAction::Index { document, .. } => {
            assert_eq!(get_str(document, "title"), "Doc");
            assert_eq!(get_arr_str(document, "tags", 0), "tag1");
            assert_eq!(get_str(document, "metadata.author"), "John");
            assert_eq!(get_int(document, "count"), 42);
        }
        _ => panic!("Expected Index action"),
    }
}

#[test]
fn test_parse_bulk_multiple_indices() {
    let bulk_body = "{\"index\":{\"_index\":\"index1\",\"_id\":\"1\"}}\n{\"title\":\"Doc 1\"}\n{\"index\":{\"_index\":\"index2\",\"_id\":\"2\"}}\n{\"title\":\"Doc 2\"}\n";
    let actions = parse_bulk_ndjson(bulk_body, None).unwrap();
    assert_eq!(actions.len(), 2);
    match &actions[0] {
        BulkAction::Index { index, .. } => assert_eq!(index, "index1"),
        _ => panic!("Expected Index action"),
    }
    match &actions[1] {
        BulkAction::Index { index, .. } => assert_eq!(index, "index2"),
        _ => panic!("Expected Index action"),
    }
}

#[test]
fn test_parse_bulk_only_whitespace() {
    let bulk_body = "   \n  \t  \n  ";
    let actions = parse_bulk_ndjson(bulk_body, None).unwrap();
    assert_eq!(actions.len(), 0);
}

#[test]
fn test_parse_bulk_trailing_newlines() {
    let bulk_body = "{\"index\":{\"_index\":\"test_index\",\"_id\":\"1\"}}\n{\"title\":\"Doc\"}\n\n\n";
    let actions = parse_bulk_ndjson(bulk_body, None).unwrap();
    assert_eq!(actions.len(), 1);
}

#[test]
fn test_parse_bulk_mixed_with_default_index() {
    let bulk_body = "{\"index\":{\"_id\":\"1\"}}\n{\"title\":\"Indexed\"}\n{\"create\":{\"_id\":\"2\"}}\n{\"title\":\"Created\"}\n{\"update\":{\"_id\":\"1\"}}\n{\"doc\":{\"title\":\"Updated\"}}\n{\"delete\":{\"_id\":\"2\"}}\n";
    let actions = parse_bulk_ndjson(bulk_body, Some("default_index")).unwrap();
    assert_eq!(actions.len(), 4);
    for action in &actions {
        match action {
            BulkAction::Index { index, .. } => assert_eq!(index, "default_index"),
            BulkAction::Create { index, .. } => assert_eq!(index, "default_index"),
            BulkAction::Update { index, .. } => assert_eq!(index, "default_index"),
            BulkAction::Delete { index, .. } => assert_eq!(index, "default_index"),
        }
    }
}
