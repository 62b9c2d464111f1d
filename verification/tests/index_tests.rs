use argus::index::{Index, IndexEntry, IndexError, INDEX_VERSION};
use argus::types::{FileType, IndexConfig};

#[test]
fn test_stale_entry_detection() {
    let entry = IndexEntry::new(
        "test.txt".to_string(),
        FileType::Text,
        "content".to_string(),
        1000,
        100,
    );

    // Same timestamp and size - not stale
    assert!(!entry.is_stale(1000, 100));

    // Different timestamp - stale
    assert!(entry.is_stale(1001, 100));

    // Different size - stale
    assert!(entry.is_stale(1000, 101));
}

#[test]
fn test_get_valid_entry() {
    let mut index = Index::new("dir".to_string());
    index.upsert_entry(IndexEntry::new(
        "test.txt".to_string(),
        FileType::Text,
        "Hello".to_string(),
        5000,
        5,
    ));

    // Matching fingerprint: the entry is valid and carries its content.
    let e = index.get_valid_entry("test.txt", 5000, 5);
    assert!(e.is_some());
    assert_eq!(e.unwrap().extracted_text, "Hello");

    // A changed modification time makes the entry stale.
    assert!(index.get_valid_entry("test.txt", 5001, 5).is_none());
    // A changed size makes the entry stale.
    assert!(index.get_valid_entry("test.txt", 5000, 6).is_none());
    // An absent path has no entry.
    assert!(index.get_valid_entry("other.txt", 5000, 5).is_none());
}

#[test]
fn test_create_and_save_index() {
    let mut index = Index::new("dir".to_string());
    index.upsert_entry(IndexEntry::new(
        "test.txt".to_string(),
        FileType::Text,
        "Hello World".to_string(),
        12345,
        11,
    ));

    let doc = index.to_document();
    assert!(!doc.is_empty());
    assert!(Index::from_document(&doc).is_ok());
}

#[test]
fn test_load_index() {
    let mut index = Index::new("dir".to_string());
    index.upsert_entry(IndexEntry::new(
        "test.txt".to_string(),
        FileType::Text,
        "Hello World".to_string(),
        12345,
        11,
    ));
    let doc = index.to_document();

    let loaded = Index::from_document(&doc).unwrap();
    assert_eq!(loaded.entries.len(), 1);
    assert_eq!(loaded.version, INDEX_VERSION);
}

#[test]
fn test_document_round_trip() {
    let mut index = Index::new("some/dir".to_string());
    index.upsert_entry(IndexEntry::new(
        "a.txt".to_string(),
        FileType::Text,
        "first file\nwith lines\n".to_string(),
        100,
        22,
    ));
    index.upsert_entry(IndexEntry::new(
        "b.pdf".to_string(),
        FileType::Pdf,
        "second: colons, 12:34 digits, accents \u{e9}\u{20ac}\nand lines".to_string(),
        200,
        28,
    ));

    let loaded = Index::from_document(&index.to_document()).unwrap();
    assert_eq!(loaded.version, index.version);
    assert_eq!(loaded.directory, index.directory);
    assert_eq!(loaded.created_at, index.created_at);
    assert_eq!(loaded.updated_at, index.updated_at);
    assert_eq!(loaded.entries.len(), 2);
    for (a, b) in loaded.entries.iter().zip(index.entries.iter()) {
        assert_eq!(a.path, b.path);
        assert_eq!(a.file_type, b.file_type);
        assert_eq!(a.extracted_text, b.extracted_text);
        assert_eq!(a.modified_timestamp, b.modified_timestamp);
        assert_eq!(a.file_size, b.file_size);
    }
}

#[test]
fn test_upsert_replaces_by_path() {
    let mut index = Index::new("dir".to_string());
    index.upsert_entry(IndexEntry::new(
        "a.txt".to_string(),
        FileType::Text,
        "old".to_string(),
        1,
        1,
    ));
    index.upsert_entry(IndexEntry::new(
        "a.txt".to_string(),
        FileType::Text,
        "new".to_string(),
        2,
        2,
    ));
    assert_eq!(index.len(), 1);
    let e = index.get_valid_entry("a.txt", 2, 2).unwrap();
    assert_eq!(e.extracted_text, "new");
}

#[test]
fn test_prune_missing() {
    let mut index = Index::new("dir".to_string());
    index.upsert_entry(IndexEntry::new("a".to_string(), FileType::Text, "x".to_string(), 1, 1));
    index.upsert_entry(IndexEntry::new("b".to_string(), FileType::Text, "y".to_string(), 2, 2));
    index.upsert_entry(IndexEntry::new("c".to_string(), FileType::Text, "z".to_string(), 3, 3));
    let present = vec!["a".to_string(), "c".to_string()];
    index.prune_missing(&present);
    assert_eq!(index.len(), 2);
    assert!(index.get_valid_entry("a", 1, 1).is_some());
    assert!(index.get_valid_entry("b", 2, 2).is_none());
    assert!(index.get_valid_entry("c", 3, 3).is_some());
}

#[test]
fn test_len_and_is_empty() {
    let mut index = Index::new("dir".to_string());
    assert!(index.is_empty());
    assert_eq!(index.len(), 0);
    index.upsert_entry(IndexEntry::new("a".to_string(), FileType::Text, "x".to_string(), 1, 1));
    assert!(!index.is_empty());
    assert_eq!(index.len(), 1);
}

#[test]
fn test_version_mismatch_rejected() {
    // A document whose version field reads 2 is rejected whole.
    let doc = "2\n3:dir\n5\n6\n0\n";
    match Index::from_document(doc) {
        Err(IndexError::VersionMismatch { expected, found }) => {
            assert_eq!(expected, INDEX_VERSION);
            assert_eq!(found, 2);
        }
        other => panic!("expected a version mismatch, got {:?}", other),
    }
}

#[test]
fn test_parse_errors() {
    assert!(matches!(Index::from_document(""), Err(IndexError::ParseError(_))));
    assert!(matches!(Index::from_document("xyz"), Err(IndexError::ParseError(_))));
    // Truncated: version only.
    assert!(matches!(Index::from_document("1\n"), Err(IndexError::ParseError(_))));
    // Trailing garbage after a well-formed document.
    let doc = "1\n3:dir\n5\n6\n0\nextra";
    assert!(matches!(Index::from_document(doc), Err(IndexError::ParseError(_))));
    // A well-formed empty document parses.
    let ok = "1\n3:dir\n5\n6\n0\n";
    let idx = Index::from_document(ok).unwrap();
    assert_eq!(idx.directory, "dir");
    assert_eq!(idx.created_at, 5);
    assert_eq!(idx.updated_at, 6);
    assert!(idx.is_empty());
}

#[test]
fn test_error_messages() {
    assert_eq!(
        IndexError::VersionMismatch { expected: 1, found: 2 }.message(),
        "Index version mismatch: expected 1, found 2"
    );
    assert_eq!(
        IndexError::NotFound("x.json".to_string()).message(),
        "Index file not found: x.json"
    );
    assert_eq!(IndexError::IoError("boom".to_string()).message(), "IO error: boom");
    assert_eq!(
        IndexError::ParseError("bad".to_string()).message(),
        "Failed to parse index: bad"
    );
}

#[test]
fn test_get_index_path() {
    let cfg = IndexConfig::default();
    assert_eq!(cfg.get_index_path("/tmp/dir"), "/tmp/dir/.argus_index.json");
    let custom = IndexConfig {
        save_index: false,
        use_index: true,
        index_file: Some("/elsewhere/cache.doc".to_string()),
    };
    assert_eq!(custom.get_index_path("/tmp/dir"), "/elsewhere/cache.doc");
}
