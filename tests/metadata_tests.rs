use digrag::index::metadata::CURRENT_SCHEMA_VERSION;
use digrag::index::{DocHashes, IndexMetadata};

#[test]
fn test_new_metadata() {
    let metadata = IndexMetadata::new(10, Some("model".to_string()));
    assert_eq!(metadata.doc_count, 10);
    assert_eq!(metadata.schema_version, CURRENT_SCHEMA_VERSION);
    assert!(metadata.doc_hashes.is_empty());
}

#[test]
fn test_needs_full_rebuild() {
    let old = IndexMetadata {
        doc_count: 0,
        created_at: String::new(),
        embedding_model: None,
        schema_version: "1.0".to_string(),
        doc_hashes: DocHashes::new(),
    };
    assert!(old.needs_full_rebuild());

    let current = IndexMetadata::new(0, None);
    assert!(!current.needs_full_rebuild());
}

#[test]
fn test_metadata_has_schema_version() {
    let metadata = IndexMetadata::new(10, Some("text-embedding-3-small".to_string()));

    assert_eq!(metadata.schema_version, "2.0");
}

#[test]
fn test_metadata_has_doc_hashes() {
    let mut metadata = IndexMetadata::new(10, Some("model".to_string()));

    metadata.doc_hashes.insert("doc1".to_string(), "hash1".to_string());
    metadata.doc_hashes.insert("doc2".to_string(), "hash2".to_string());

    assert_eq!(metadata.doc_hashes.len(), 2);
    assert_eq!(metadata.doc_hashes.get("doc1"), Some(&"hash1".to_string()));
}

#[test]
fn test_needs_full_rebuild_for_old_schema() {
    // Schema version 1.0 or lower requires full rebuild
    let old_metadata = IndexMetadata {
        doc_count: 10,
        created_at: "2025-01-01T00:00:00Z".to_string(),
        embedding_model: Some("model".to_string()),
        schema_version: "1.0".to_string(),
        doc_hashes: DocHashes::new(),
    };

    assert!(old_metadata.needs_full_rebuild());
}

#[test]
fn test_no_full_rebuild_for_current_schema() {
    let metadata = IndexMetadata::new(10, Some("model".to_string()));
    assert!(!metadata.needs_full_rebuild());
}

#[test]
fn test_needs_full_rebuild_for_missing_schema() {
    let old_metadata = IndexMetadata {
        doc_count: 10,
        created_at: "2025-01-01T00:00:00Z".to_string(),
        embedding_model: Some("model".to_string()),
        schema_version: "".to_string(),
        doc_hashes: DocHashes::new(),
    };

    assert!(old_metadata.needs_full_rebuild());
}

#[test]
fn test_default_doc_hashes_is_empty() {
    let metadata = IndexMetadata::new(0, None);
    assert!(metadata.doc_hashes.is_empty());
}

#[test]
fn test_update_doc_hash() {
    let mut metadata = IndexMetadata::new(0, None);

    metadata.update_doc_hash("doc1".to_string(), "hash1".to_string());
    assert_eq!(metadata.doc_hashes.get("doc1"), Some(&"hash1".to_string()));

    metadata.update_doc_hash("doc1".to_string(), "hash2".to_string());
    assert_eq!(metadata.doc_hashes.get("doc1"), Some(&"hash2".to_string()));
}

#[test]
fn test_remove_doc_hash() {
    let mut metadata = IndexMetadata::new(0, None);
    metadata.doc_hashes.insert("doc1".to_string(), "hash1".to_string());

    metadata.remove_doc_hash("doc1");
    assert!(!metadata.doc_hashes.contains_key("doc1"));
}

#[test]
fn test_get_doc_hash() {
    let mut metadata = IndexMetadata::new(0, None);
    metadata.doc_hashes.insert("doc1".to_string(), "hash1".to_string());

    assert_eq!(metadata.get_doc_hash("doc1"), Some(&"hash1".to_string()));
    assert_eq!(metadata.get_doc_hash("doc2"), None);
}

