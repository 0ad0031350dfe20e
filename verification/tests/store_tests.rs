//! The store: file records, content rows, counts, statistics, search.

use cortex::store::Database;

#[test]
fn test_insert_and_get_file() {
    let mut db = Database::new();

    let file_id = db
        .insert_file(
            "/test/path/file.txt",
            "file.txt",
            "txt",
            1024,
            "2025-11-29T00:00:00Z",
            "2025-11-29T00:00:00Z",
            Some("abc123"),
            "/test/path",
        )
        .unwrap();

    assert!(file_id > 0);

    let file = db.get_file_by_id(file_id).unwrap();
    assert_eq!(file.path, "/test/path/file.txt");
    assert_eq!(file.filename, "file.txt");
    assert_eq!(file.size, 1024);
    assert_eq!(file.hash, Some("abc123".to_string()));
    assert!(!file.last_indexed.is_empty());
}

#[test]
fn test_get_file_by_path() {
    let mut db = Database::new();

    db.insert_file(
        "/test/file.txt",
        "file.txt",
        "txt",
        100,
        "2025-11-29T00:00:00Z",
        "2025-11-29T00:00:00Z",
        None,
        "/test",
    )
    .unwrap();

    let file = db.get_file_by_path("/test/file.txt").unwrap();
    assert!(file.is_some());
    assert_eq!(file.unwrap().filename, "file.txt");

    let not_found = db.get_file_by_path("/nonexistent.txt").unwrap();
    assert!(not_found.is_none());
}

#[test]
fn test_update_file() {
    let mut db = Database::new();

    let file_id = db
        .insert_file(
            "/test/file.txt",
            "file.txt",
            "txt",
            100,
            "2025-11-29T00:00:00Z",
            "2025-11-29T00:00:00Z",
            None,
            "/test",
        )
        .unwrap();

    db.update_file(file_id, Some(200), Some("2025-11-30T00:00:00Z"), Some("newhash"))
        .unwrap();

    let file = db.get_file_by_id(file_id).unwrap();
    assert_eq!(file.size, 200);
    assert_eq!(file.modified_at, "2025-11-30T00:00:00Z");
    assert_eq!(file.hash, Some("newhash".to_string()));
}

#[test]
fn test_soft_delete() {
    let mut db = Database::new();

    let file_id = db
        .insert_file(
            "/test/file.txt",
            "file.txt",
            "txt",
            100,
            "2025-11-29T00:00:00Z",
            "2025-11-29T00:00:00Z",
            None,
            "/test",
        )
        .unwrap();

    db.mark_file_deleted(file_id).unwrap();

    let file = db.get_file_by_id(file_id).unwrap();
    assert_eq!(file.is_deleted, true);

    let count = db.get_file_count().unwrap();
    assert_eq!(count, 0);
}

#[test]
fn test_upsert_file_content() {
    let mut db = Database::new();

    let file_id = db
        .insert_file(
            "/test/file.txt",
            "file.txt",
            "txt",
            100,
            "2025-11-29T00:00:00Z",
            "2025-11-29T00:00:00Z",
            None,
            "/test",
        )
        .unwrap();

    db.upsert_file_content(file_id, Some("Hello world"), Some("A greeting"))
        .unwrap();

    let content = db.get_file_content(file_id).unwrap().unwrap();
    assert_eq!(content.text_content, Some("Hello world".to_string()));
    assert_eq!(content.word_count, Some(2));
    assert_eq!(content.summary, Some("A greeting".to_string()));

    db.upsert_file_content(file_id, Some("Hello world again"), None)
        .unwrap();

    let updated = db.get_file_content(file_id).unwrap().unwrap();
    assert_eq!(updated.text_content, Some("Hello world again".to_string()));
    assert_eq!(updated.word_count, Some(3));
}

#[test]
fn test_file_counts() {
    let mut db = Database::new();

    let id1 = db
        .insert_file("/test/1.txt", "1.txt", "txt", 100, "2025-11-29T00:00:00Z", "2025-11-29T00:00:00Z", None, "/test")
        .unwrap();
    let id2 = db
        .insert_file("/test/2.txt", "2.txt", "txt", 200, "2025-11-29T00:00:00Z", "2025-11-29T00:00:00Z", None, "/test")
        .unwrap();
    let id3 = db
        .insert_file("/test/3.txt", "3.txt", "txt", 300, "2025-11-29T00:00:00Z", "2025-11-29T00:00:00Z", None, "/test")
        .unwrap();
    assert!(id1 < id2 && id2 < id3);

    db.upsert_file_content(id1, Some("content 1"), None).unwrap();
    db.upsert_file_content(id2, Some("content 2"), None).unwrap();

    let total = db.get_file_count().unwrap();
    let indexed = db.get_indexed_file_count().unwrap();

    assert_eq!(total, 3);
    assert_eq!(indexed, 2);

    db.mark_file_deleted(id3).unwrap();

    let total_after = db.get_file_count().unwrap();
    assert_eq!(total_after, 2);
}

#[test]
fn test_fts_search() {
    let mut db = Database::new();

    let id1 = db
        .insert_file("/test/rust.txt", "rust.txt", "txt", 100, "2025-11-29T00:00:00Z", "2025-11-29T00:00:00Z", None, "/test")
        .unwrap();
    let id2 = db
        .insert_file("/test/python.txt", "python.txt", "txt", 200, "2025-11-29T00:00:00Z", "2025-11-29T00:00:00Z", None, "/test")
        .unwrap();

    db.upsert_file_content(id1, Some("Rust is a systems programming language"), None)
        .unwrap();
    db.upsert_file_content(id2, Some("Python is a high-level programming language"), None)
        .unwrap();

    let results = db.search_files_fts("rust", 10).unwrap();
    assert_eq!(results.len(), 1);
    assert_eq!(results[0].filename, "rust.txt");

    let results = db.search_files_fts("programming", 10).unwrap();
    assert_eq!(results.len(), 2);

    let err = db.search_files_fts("", 10);
    assert!(err.is_err());
}

#[test]
fn test_list_files_pagination() {
    let mut db = Database::new();

    for i in 1..=5 {
        db.insert_file(
            &format!("/test/{}.txt", i),
            &format!("{}.txt", i),
            "txt",
            100 * i as i64,
            "2025-11-29T00:00:00Z",
            "2025-11-29T00:00:00Z",
            None,
            "/test",
        )
        .unwrap();
    }

    let page1 = db.list_files(2, 0).unwrap();
    assert_eq!(page1.len(), 2);

    let page2 = db.list_files(2, 2).unwrap();
    assert_eq!(page2.len(), 2);

    let page3 = db.list_files(2, 4).unwrap();
    assert_eq!(page3.len(), 1);
}

#[test]
fn test_db_stats() {
    let mut db = Database::new();

    db.insert_file("/test/1.txt", "1.txt", "txt", 100, "2025-11-29T00:00:00Z", "2025-11-29T00:00:00Z", None, "/test")
        .unwrap();
    db.insert_file("/test/2.txt", "2.txt", "txt", 200, "2025-11-29T00:00:00Z", "2025-11-29T00:00:00Z", None, "/test")
        .unwrap();

    let (total, indexed, size) = db.get_db_stats().unwrap();
    assert_eq!(total, 2);
    assert_eq!(indexed, 0);
    assert_eq!(size, 300);
}

#[test]
fn test_duplicate_path_rejected() {
    let mut db = Database::new();
    db.insert_file("/a.txt", "a.txt", "txt", 1, "t", "t", None, "/").unwrap();
    let again = db.insert_file("/a.txt", "a.txt", "txt", 1, "t", "t", None, "/");
    assert!(matches!(again, Err(cortex::error::CortexError::DatabaseError { .. })));
}

#[test]
fn test_upsert_without_file_rejected() {
    let mut db = Database::new();
    let r = db.upsert_file_content(42, Some("text"), None);
    assert!(matches!(r, Err(cortex::error::CortexError::DatabaseError { .. })));
}

#[test]
fn test_hard_delete_cascades() {
    let mut db = Database::new();
    let id = db
        .insert_file("/x.txt", "x.txt", "txt", 7, "t", "t", None, "/")
        .unwrap();
    db.upsert_file_content(id, Some("databases everywhere"), None).unwrap();
    db.upsert_embedding(id, &vec![1u32, 2, 3], "all-MiniLM-L6-v2").unwrap();

    db.delete_file(id).unwrap();
    assert!(db.get_file_by_id(id).is_err());
    assert!(db.get_file_content(id).unwrap().is_none());
    assert!(db.get_embedding(id).unwrap().is_none());
    assert_eq!(db.count_embeddings().unwrap(), 0);
}

#[test]
fn test_upsert_replaces_fts() {
    let mut db = Database::new();
    let id = db
        .insert_file("/doc.txt", "doc.txt", "txt", 10, "t", "t", None, "/")
        .unwrap();
    db.upsert_file_content(id, Some("databases"), None).unwrap();
    assert_eq!(db.search_files_fts("databases", 10).unwrap().len(), 1);

    db.upsert_file_content(id, Some("rust programming"), None).unwrap();
    assert_eq!(db.search_files_fts("databases", 10).unwrap().len(), 0);
    assert_eq!(db.search_files_fts("rust", 10).unwrap().len(), 1);
}

#[test]
fn test_upsert_idempotent_results() {
    let mut db = Database::new();
    let id = db
        .insert_file("/i.txt", "i.txt", "txt", 10, "t", "t", None, "/")
        .unwrap();
    db.upsert_file_content(id, Some("alpha beta gamma"), Some("s")).unwrap();
    let first = db.get_file_content(id).unwrap().unwrap();
    let results1 = db.search_files_fts("beta", 10).unwrap();

    db.upsert_file_content(id, Some("alpha beta gamma"), Some("s")).unwrap();
    let second = db.get_file_content(id).unwrap().unwrap();
    let results2 = db.search_files_fts("beta", 10).unwrap();

    assert_eq!(first.text_content, second.text_content);
    assert_eq!(first.word_count, second.word_count);
    assert_eq!(first.summary, second.summary);
    assert_eq!(results1.len(), results2.len());
    assert_eq!(results1[0].file_id, results2[0].file_id);
    assert_eq!(results1[0].snippet, results2[0].snippet);
    assert_eq!(results1[0].score, results2[0].score);
}

#[test]
fn test_soft_deleted_hidden_everywhere() {
    let mut db = Database::new();
    let id1 = db
        .insert_file("/k1.txt", "k1.txt", "txt", 10, "2025-01-01T00:00:00Z", "2025-01-01T00:00:00Z", None, "/")
        .unwrap();
    let id2 = db
        .insert_file("/k2.txt", "k2.txt", "txt", 10, "2025-01-02T00:00:00Z", "2025-01-02T00:00:00Z", None, "/")
        .unwrap();
    db.upsert_file_content(id1, Some("shared keyword"), None).unwrap();
    db.upsert_file_content(id2, Some("shared keyword"), None).unwrap();

    db.mark_file_deleted(id1).unwrap();

    let hits = db.search_files_fts("shared", 10).unwrap();
    assert_eq!(hits.len(), 1);
    assert_eq!(hits[0].file_id, id2);

    let listed = db.list_files(10, 0).unwrap();
    assert_eq!(listed.len(), 1);
    assert_eq!(listed[0].id, id2);

    let exporter = cortex::export::RakeExporter::new(db);
    let config = cortex::export::RakeExportConfig {
        collection_id: None,
        tenant_id: "t".to_string(),
        output_path: ".out.json".to_string(),
        include_embeddings: false,
        export_mode: cortex::export::RakeExportMode::Full,
    };
    let package = exporter.export(&config).unwrap();
    assert_eq!(package.metadata.total_files, 1);
    for chunk in &package.chunks {
        assert_eq!(chunk.metadata.file_path, "/k2.txt");
    }
}

#[test]
fn test_search_snippet_marks() {
    let mut db = Database::new();
    let id = db
        .insert_file("/m.txt", "m.txt", "txt", 10, "t", "t", None, "/")
        .unwrap();
    db.upsert_file_content(id, Some("alpha beta gamma delta"), None).unwrap();
    let hits = db.search_files_fts("gamma", 10).unwrap();
    assert_eq!(hits.len(), 1);
    // The window opens at the first hit word and runs on from there.
    assert_eq!(hits[0].snippet, "...<mark>gamma</mark> delta");
}

#[test]
fn test_search_rank_orders_richer_match_first() {
    let mut db = Database::new();
    let id1 = db
        .insert_file("/r1.txt", "r1.txt", "txt", 10, "t", "t", None, "/")
        .unwrap();
    let id2 = db
        .insert_file("/r2.txt", "r2.txt", "txt", 10, "t", "t", None, "/")
        .unwrap();
    db.upsert_file_content(id1, Some("rust rust rust"), None).unwrap();
    db.upsert_file_content(id2, Some("rust once only"), None).unwrap();
    let hits = db.search_files_fts("rust", 10).unwrap();
    assert_eq!(hits.len(), 2);
    assert_eq!(hits[0].file_id, id1);
    assert!(hits[0].score < hits[1].score);
}

#[test]
fn test_embeddings_roundtrip() {
    let mut db = Database::new();
    let id = db
        .insert_file("/e.txt", "e.txt", "txt", 10, "t", "t", None, "/")
        .unwrap();
    db.upsert_file_content(id, Some("text"), None).unwrap();

    let bits: Vec<u32> = vec![1.0f32, 0.0, 0.0].into_iter().map(f32::to_bits).collect();
    db.upsert_embedding(id, &bits, "all-MiniLM-L6-v2").unwrap();

    let stored = db.get_embedding(id).unwrap().unwrap();
    assert_eq!(stored.vector, bits);
    assert_eq!(stored.model_version, "all-MiniLM-L6-v2");
    assert_eq!(db.count_embeddings().unwrap(), 1);

    let all = db.get_all_embeddings().unwrap();
    assert_eq!(all.len(), 1);
    assert_eq!(all[0].0, id);

    let missing = db.get_files_without_embeddings(10).unwrap();
    assert!(missing.is_empty());

    let refused = db.upsert_embedding(999, &bits, "all-MiniLM-L6-v2");
    assert!(refused.is_err());
}

#[test]
fn test_list_files_newest_first() {
    let mut db = Database::new();
    db.insert_file("/old.txt", "old.txt", "txt", 1, "2025-01-01T00:00:00Z", "2025-01-01T00:00:00Z", None, "/")
        .unwrap();
    db.insert_file("/new.txt", "new.txt", "txt", 1, "2025-06-01T00:00:00Z", "2025-06-01T00:00:00Z", None, "/")
        .unwrap();
    let listed = db.list_files(10, 0).unwrap();
    assert_eq!(listed.len(), 2);
    assert_eq!(listed[0].filename, "new.txt");
    assert_eq!(listed[1].filename, "old.txt");
}

#[test]
fn test_search_stems_variants() {
    // The index stems both sides: a query for one form finds the others.
    let mut db = Database::new();
    let id = db
        .insert_file("/st.txt", "st.txt", "txt", 10, "t", "t", None, "/")
        .unwrap();
    db.upsert_file_content(id, Some("we run daily"), None).unwrap();

    let hits = db.search_files_fts("running", 10).unwrap();
    assert_eq!(hits.len(), 1);
    assert_eq!(hits[0].file_id, id);

    let id2 = db
        .insert_file("/st2.txt", "st2.txt", "txt", 10, "t", "t", None, "/")
        .unwrap();
    db.upsert_file_content(id2, Some("connections and relational databases"), None)
        .unwrap();
    assert_eq!(db.search_files_fts("connected", 10).unwrap().len(), 1);
    assert_eq!(db.search_files_fts("database", 10).unwrap().len(), 1);
    assert_eq!(db.search_files_fts("relation", 10).unwrap().len(), 1);
}

#[test]
fn test_check_inv_admits_and_refuses() {
    let mut db = Database::new();
    let id = db
        .insert_file("/ci.txt", "ci.txt", "txt", 1, "t", "t", None, "/")
        .unwrap();
    db.upsert_file_content(id, Some("two words"), None).unwrap();
    assert!(db.check_inv());

    // A duplicated identifier, as a damaged store on disk could carry.
    let copy = cortex::store::clone_file(&db.files[0]);
    db.files.push(copy);
    assert!(!db.check_inv());

    // A wrong stored word count.
    let mut db2 = Database::new();
    let id2 = db2
        .insert_file("/ci2.txt", "ci2.txt", "txt", 1, "t", "t", None, "/")
        .unwrap();
    db2.upsert_file_content(id2, Some("two words"), None).unwrap();
    db2.contents[0].word_count = Some(99);
    assert!(!db2.check_inv());
}

#[test]
fn test_list_files_pages_partition() {
    // Equal timestamps everywhere: the id tie-break still fixes one
    // ordering, so the pages are disjoint and re-assemble the full listing.
    let mut db = Database::new();
    for i in 1..=5 {
        db.insert_file(
            &format!("/pp/{}.txt", i),
            &format!("{}.txt", i),
            "txt",
            1,
            "2025-01-01T00:00:00Z",
            "2025-01-01T00:00:00Z",
            None,
            "/pp",
        )
        .unwrap();
    }
    let full = db.list_files(5, 0).unwrap();
    let page1 = db.list_files(2, 0).unwrap();
    let page2 = db.list_files(2, 2).unwrap();
    let page3 = db.list_files(2, 4).unwrap();
    assert_eq!(page1.len(), 2);
    assert_eq!(page2.len(), 2);
    assert_eq!(page3.len(), 1);
    let mut joined: Vec<i64> = Vec::new();
    for f in page1.iter().chain(page2.iter()).chain(page3.iter()) {
        assert!(!joined.contains(&f.id));
        joined.push(f.id);
    }
    let full_ids: Vec<i64> = full.iter().map(|f| f.id).collect();
    assert_eq!(joined, full_ids);
}
