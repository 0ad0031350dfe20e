//! The query surface: filtered search, pagination, file detail and the
//! store statistics.

use cortex::query::{
    get_embedding_status, get_file_detail, get_search_stats, search_files, SearchFilters,
};
use cortex::error::CortexError;
use cortex::store::Database;

fn seeded() -> Database {
    let mut db = Database::new();
    let id1 = db
        .insert_file("/q/rust.txt", "rust.txt", "txt", 100, "2025-01-01T00:00:00Z", "2025-01-01T00:00:00Z", None, "/q")
        .unwrap();
    let id2 = db
        .insert_file("/q/notes.md", "notes.md", "md", 5000, "2025-06-01T00:00:00Z", "2025-06-01T00:00:00Z", None, "/q")
        .unwrap();
    db.upsert_file_content(id1, Some("rust programming language"), None)
        .unwrap();
    db.upsert_file_content(id2, Some("rust notes and more"), None)
        .unwrap();
    db
}

#[test]
fn test_search_files_plain() {
    let db = seeded();
    let res = search_files(&db, "rust", &None, None, None).unwrap();
    assert_eq!(res.total, 2);
    assert_eq!(res.results.len(), 2);
}

#[test]
fn test_search_files_empty_query_rejected() {
    let db = seeded();
    let res = search_files(&db, "  ", &None, None, None);
    assert!(matches!(
        res,
        Err(cortex::error::CortexError::InvalidQuery { .. })
    ));
    let res2 = search_files(&db, "...", &None, None, None);
    assert!(res2.is_err());
}

#[test]
fn test_search_files_filtered_by_type() {
    let db = seeded();
    let filters = SearchFilters {
        file_type: Some("md".to_string()),
        min_size: None,
        max_size: None,
        date_from: None,
        date_to: None,
    };
    let res = search_files(&db, "rust", &Some(filters), None, None).unwrap();
    assert_eq!(res.total, 1);
    assert_eq!(res.results[0].filename, "notes.md");
}

#[test]
fn test_search_files_filtered_by_size_and_date() {
    let db = seeded();
    let filters = SearchFilters {
        file_type: None,
        min_size: Some(1000),
        max_size: Some(10_000),
        date_from: Some("2025-02-01T00:00:00Z".to_string()),
        date_to: Some("2025-12-31T00:00:00Z".to_string()),
    };
    let res = search_files(&db, "rust", &Some(filters), None, None).unwrap();
    assert_eq!(res.total, 1);
    assert_eq!(res.results[0].filename, "notes.md");
}

#[test]
fn test_search_files_pagination() {
    let db = seeded();
    let page1 = search_files(&db, "rust", &None, Some(1), Some(0)).unwrap();
    let page2 = search_files(&db, "rust", &None, Some(1), Some(1)).unwrap();
    assert_eq!(page1.total, 1);
    assert_eq!(page2.total, 1);
    assert_ne!(page1.results[0].file_id, page2.results[0].file_id);
}

#[test]
fn test_get_file_detail() {
    let db = seeded();
    let hit = &db.search_files_fts("programming", 10).unwrap()[0];
    let detail = get_file_detail(&db, hit.file_id, false).unwrap();
    assert_eq!(detail.path, "/q/rust.txt");
    assert_eq!(detail.content_preview.as_deref(), Some("rust programming language"));
    assert!(detail.full_content.is_none());

    let full = get_file_detail(&db, hit.file_id, true).unwrap();
    assert_eq!(full.full_content.as_deref(), Some("rust programming language"));

    assert!(get_file_detail(&db, 999, false).is_err());
}

#[test]
fn test_get_file_detail_preview_truncates() {
    let mut db = Database::new();
    let id = db
        .insert_file("/long.txt", "long.txt", "txt", 1, "t", "t", None, "/")
        .unwrap();
    let text = "x".repeat(600);
    db.upsert_file_content(id, Some(&text), None).unwrap();
    let detail = get_file_detail(&db, id, false).unwrap();
    let preview = detail.content_preview.unwrap();
    assert_eq!(preview.len(), 503);
    assert!(preview.ends_with("..."));
}

#[test]
fn test_get_search_stats() {
    let db = seeded();
    let stats = get_search_stats(&db).unwrap();
    assert_eq!(stats.total_files, 2);
    assert_eq!(stats.indexed_files, 2);
    assert_eq!(stats.total_size_bytes, 5100);
}

#[test]
fn test_get_embedding_status() {
    let mut db = Database::new();
    let id = db
        .insert_file("/s.txt", "s.txt", "txt", 1, "t", "t", None, "/")
        .unwrap();
    db.upsert_file_content(id, Some("text"), None).unwrap();
    let status = get_embedding_status(&db, false).unwrap();
    assert_eq!(status.total_files, 1);
    assert_eq!(status.files_with_embeddings, 0);
    assert_eq!(status.files_without_embeddings, 1);
    assert!(!status.model_downloaded);
    assert_eq!(status.model_version, "all-MiniLM-L6-v2");

    let bits: Vec<u32> = vec![1.0f32].into_iter().map(f32::to_bits).collect();
    db.upsert_embedding(id, &bits, "all-MiniLM-L6-v2").unwrap();
    let status = get_embedding_status(&db, true).unwrap();
    assert_eq!(status.files_with_embeddings, 1);
    assert_eq!(status.files_without_embeddings, 0);
    assert!(status.model_downloaded);
}

#[test]
fn test_embedding_config_defaults() {
    let config = cortex::embed::EmbeddingConfig::default();
    assert_eq!(config.max_length, 128);
    assert_eq!(config.batch_size, 32);
    assert!(config.model_path.ends_with("model.onnx"));
    assert!(config.tokenizer_path.ends_with("tokenizer.json"));
}

#[test]
fn test_pad_to_length() {
    let ids: Vec<u32> = vec![101, 7592, 102];
    let padded = cortex::embed::pad_to_length(&ids, 8);
    assert_eq!(padded, vec![101i64, 7592, 102, 0, 0, 0, 0, 0]);
    let truncated = cortex::embed::pad_to_length(&ids, 2);
    assert_eq!(truncated, vec![101i64, 7592]);
}

#[test]
fn test_error_messages() {
    let e = CortexError::IndexingInProgress;
    assert_eq!(e.message(), "Indexing is already in progress");
    let e = CortexError::InvalidQuery {
        query: "".to_string(),
        reason: "Query cannot be empty".to_string(),
    };
    assert_eq!(e.message(), "Invalid query '': Query cannot be empty");
}

#[test]
fn test_filtered_search_offset_slices() {
    // Three matching txt files; the filtered pages slice one ranked run.
    let mut db = Database::new();
    for i in 1..=3 {
        let id = db
            .insert_file(
                &format!("/fo/{}.txt", i),
                &format!("{}.txt", i),
                "txt",
                100,
                "2025-01-01T00:00:00Z",
                "2025-01-01T00:00:00Z",
                None,
                "/fo",
            )
            .unwrap();
        db.upsert_file_content(id, Some("common token"), None).unwrap();
    }
    let filters = Some(SearchFilters {
        file_type: Some("txt".to_string()),
        min_size: None,
        max_size: None,
        date_from: None,
        date_to: None,
    });
    let full = search_files(&db, "common", &filters, Some(10), Some(0)).unwrap();
    let page1 = search_files(&db, "common", &filters, Some(2), Some(0)).unwrap();
    let page2 = search_files(&db, "common", &filters, Some(2), Some(2)).unwrap();
    assert_eq!(full.total, 3);
    assert_eq!(page1.total, 2);
    assert_eq!(page2.total, 1);
    let joined: Vec<i64> = page1
        .results
        .iter()
        .chain(page2.results.iter())
        .map(|r| r.file_id)
        .collect();
    let full_ids: Vec<i64> = full.results.iter().map(|r| r.file_id).collect();
    assert_eq!(joined, full_ids);
}
