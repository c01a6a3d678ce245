use vectordb::model::VectorMetadata;

#[test]
fn test_metadata_creation() {
    let meta = VectorMetadata::new("Test Doc".to_string(), "article".to_string(), chrono::Utc::now().timestamp());
    assert_eq!(meta.title, "Test Doc");
    assert_eq!(meta.doc_type, "article");
}

#[test]
fn test_add_tag() {
    let mut meta = VectorMetadata::new("Test".to_string(), "test".to_string(), chrono::Utc::now().timestamp());
    meta.add_tag("important".to_string());
    assert!(meta.has_tag("important"));
}

#[test]
fn add_tag_keeps_tags_unique() {
    let mut meta = VectorMetadata::new("T".to_string(), "doc".to_string(), 7);
    meta.add_tag("x".to_string());
    meta.add_tag("y".to_string());
    meta.add_tag("x".to_string());
    assert_eq!(meta.tags, vec!["x".to_string(), "y".to_string()]);
    assert!(!meta.has_tag("z"));
    assert!(!meta.has_tag(""));
}

#[test]
fn new_metadata_keeps_given_timestamp() {
    let meta = VectorMetadata::new("T".to_string(), "doc".to_string(), 1_700_000_123);
    assert!(meta.tags.is_empty());
    assert_eq!(meta.timestamp, 1_700_000_123);
    assert_eq!(meta.title, "T");
    assert_eq!(meta.doc_type, "doc");
}
