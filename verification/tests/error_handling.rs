//! The error taxonomy and its message rendering.

use gbs::errors::GbsError;

#[test]
fn test_error_message_formatting() {
    let errors = vec![
        GbsError::IndexNotFound("idx1".to_string()),
        GbsError::DocumentNotFound("doc1".to_string()),
        GbsError::InvalidRequest("Bad input".to_string()),
        GbsError::Serialization("bad bytes".to_string()),
        GbsError::Storage("Storage error".to_string()),
    ];
    for error in errors {
        let message = error.message();
        assert!(!message.is_empty());
        assert!(message.len() > 5);
    }
}

#[test]
fn test_error_result_type() {
    fn returns_error() -> Result<(), GbsError> {
        Err(GbsError::IndexNotFound("test".to_string()))
    }

    let result = returns_error();
    assert!(result.is_err());
    match result.unwrap_err() {
        GbsError::IndexNotFound(name) => {
            assert_eq!(name, "test");
        }
        _ => panic!("Expected IndexNotFound error"),
    }
}

#[test]
fn error_messages_carry_their_detail() {
    assert_eq!(
        GbsError::IndexNotFound("books".to_string()).message(),
        "Index not found: books"
    );
    assert_eq!(
        GbsError::DocumentNotFound("7".to_string()).message(),
        "Document not found: 7"
    );
    assert_eq!(
        GbsError::InvalidRequest("no".to_string()).message(),
        "Invalid request: no"
    );
    assert_eq!(
        GbsError::Storage("disk".to_string()).message(),
        "Storage error: disk"
    );
    assert_eq!(
        GbsError::Serialization("bytes".to_string()).message(),
        "Serialization error: bytes"
    );
}
