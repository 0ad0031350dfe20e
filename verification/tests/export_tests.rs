//! Chunking, token estimates, size formatting, export configuration and the
//! portable package.

use cortex::export::{
    chunk_text, estimate_tokens, format_file_size, list_prompt_templates, parse_export_mode,
    BundleBuilder, ExportConfig, RakeExportConfig, RakeExportMode, RakeExporter,
};
use cortex::store::Database;

#[test]
fn test_format_file_size() {
    assert_eq!(format_file_size(500), "500.00 B");
    assert_eq!(format_file_size(1024), "1.00 KB");
    assert_eq!(format_file_size(1536), "1.50 KB");
    assert_eq!(format_file_size(1048576), "1.00 MB");
    assert_eq!(format_file_size(1073741824), "1.00 GB");
}

#[test]
fn test_export_config_default() {
    let config = ExportConfig::default();
    assert_eq!(config.output_path, ".cortex-export");
    assert_eq!(config.include_embeddings, false);
    assert_eq!(config.include_prompts, true);
    assert!(config.collection_id.is_none());
}

#[test]
fn test_chunk_text() {
    let text = "This is a test. ".repeat(100);
    let chunks = chunk_text(&text, 500);
    assert!(chunks.len() >= 1);
    assert!(chunks.len() <= 3);
}

#[test]
fn test_chunk_text_exact_sizes() {
    // 800 words cut at 375 per chunk: 375, 375, 50.
    let word = "w ";
    let text = word.repeat(800);
    let chunks = chunk_text(&text, 500);
    assert_eq!(chunks.len(), 3);
    assert_eq!(chunks[0].split_whitespace().count(), 375);
    assert_eq!(chunks[1].split_whitespace().count(), 375);
    assert_eq!(chunks[2].split_whitespace().count(), 50);
}

#[test]
fn test_chunk_text_preserves_words() {
    let text = "alpha beta gamma ".repeat(200);
    let total: usize = chunk_text(&text, 500)
        .iter()
        .map(|c| c.split_whitespace().count())
        .sum();
    assert_eq!(total, text.split_whitespace().count());
}

#[test]
fn test_chunk_text_no_words() {
    let chunks = chunk_text("   ", 500);
    assert_eq!(chunks.len(), 1);
    assert_eq!(chunks[0], "   ");
}

#[test]
fn test_estimate_tokens() {
    let text = "Hello world this is a test";
    let tokens = estimate_tokens(text);
    assert!(tokens >= 5 && tokens <= 7);
}

#[test]
fn test_parse_export_mode() {
    assert_eq!(parse_export_mode("full"), Some(RakeExportMode::Full));
    assert_eq!(parse_export_mode("incremental"), Some(RakeExportMode::Incremental));
    assert_eq!(parse_export_mode("collection"), Some(RakeExportMode::Collection));
    assert_eq!(parse_export_mode("other"), None);
}

#[test]
fn test_prompt_templates_list() {
    let templates = list_prompt_templates();
    assert_eq!(templates.len(), 5);

    let feature_template = templates.iter().find(|t| t.id == "add_feature");
    assert!(feature_template.is_some());
    assert_eq!(feature_template.unwrap().name, "Add Feature");
}

#[test]
fn test_package_export_three_files() {
    // Three files of 300 words each: 900 words, chunks of 375 words, so
    // ceil(300/375) = 1 chunk per file and 3 chunks in all.
    let mut db = Database::new();
    for i in 1..=3 {
        let id = db
            .insert_file(
                &format!("/p/{}.txt", i),
                &format!("{}.txt", i),
                "txt",
                10,
                "2025-01-01T00:00:00Z",
                "2025-01-01T00:00:00Z",
                None,
                "/p",
            )
            .unwrap();
        let text = "word ".repeat(300);
        db.upsert_file_content(id, Some(&text), None).unwrap();
    }
    let exporter = RakeExporter::new(db);
    let config = RakeExportConfig {
        collection_id: None,
        tenant_id: "tenant".to_string(),
        output_path: ".pkg.json".to_string(),
        include_embeddings: false,
        export_mode: RakeExportMode::Full,
    };
    let package = exporter.export(&config).unwrap();
    assert_eq!(package.version, "1.0");
    assert_eq!(package.source, "cortex_local");
    assert_eq!(package.tenant_id, "tenant");
    assert_eq!(package.metadata.total_files, 3);
    assert_eq!(package.metadata.has_embeddings, false);
    assert!(package.metadata.embedding_model.is_none());
    assert_eq!(package.metadata.export_mode, "full");
    assert_eq!(package.chunks.len(), 3);
    assert_eq!(package.metadata.total_chunks, 3);
    for chunk in &package.chunks {
        assert_eq!(chunk.position, 0);
        assert!(chunk.embedding.is_none());
        assert_eq!(chunk.content.split_whitespace().count(), 300);
    }
    let mut ids: Vec<&str> = package.chunks.iter().map(|c| c.document_id.as_str()).collect();
    ids.dedup();
    assert_eq!(ids.len(), 3);
}

#[test]
fn test_package_positions_increase_within_document() {
    let mut db = Database::new();
    let id = db
        .insert_file("/big.txt", "big.txt", "txt", 10, "t", "t", None, "/")
        .unwrap();
    let text = "word ".repeat(1000);
    db.upsert_file_content(id, Some(&text), None).unwrap();
    let exporter = RakeExporter::new(db);
    let config = RakeExportConfig {
        collection_id: None,
        tenant_id: "t".to_string(),
        output_path: ".pkg.json".to_string(),
        include_embeddings: false,
        export_mode: RakeExportMode::Full,
    };
    let package = exporter.export(&config).unwrap();
    assert_eq!(package.chunks.len(), 3);
    for (i, chunk) in package.chunks.iter().enumerate() {
        assert_eq!(chunk.position as usize, i);
        assert_eq!(chunk.id, format!("{}-chunk-{}", id, i));
        assert!(chunk.token_count > 0);
    }
}

#[test]
fn test_package_embeddings_ride_along() {
    let mut db = Database::new();
    let id = db
        .insert_file("/v.txt", "v.txt", "txt", 10, "t", "t", None, "/")
        .unwrap();
    db.upsert_file_content(id, Some("short text"), None).unwrap();
    let bits: Vec<u32> = vec![0.6f32, 0.8, 0.0].into_iter().map(f32::to_bits).collect();
    db.upsert_embedding(id, &bits, "all-MiniLM-L6-v2").unwrap();
    let exporter = RakeExporter::new(db);
    let config = RakeExportConfig {
        collection_id: None,
        tenant_id: "t".to_string(),
        output_path: ".pkg.json".to_string(),
        include_embeddings: true,
        export_mode: RakeExportMode::Incremental,
    };
    let package = exporter.export(&config).unwrap();
    assert_eq!(package.metadata.export_mode, "incremental");
    assert_eq!(package.metadata.embedding_model.as_deref(), Some("all-MiniLM-L6-v2"));
    assert_eq!(package.chunks.len(), 1);
    assert_eq!(package.chunks[0].embedding.as_ref().unwrap(), &bits);
}

#[test]
fn test_bundle_plan_layout() {
    let mut db = Database::new();
    let id = db
        .insert_file("/b.txt", "b.txt", "txt", 10, "t", "t", None, "/")
        .unwrap();
    db.upsert_file_content(id, Some("bundle text"), None).unwrap();
    let builder = BundleBuilder::new(db);
    let config = ExportConfig::default();
    let (plan, stats) = builder.build_plan(&config).unwrap();
    assert_eq!(plan.len(), 9);
    assert_eq!(plan[0].rel_path, "CONTEXT.md");
    assert_eq!(plan[1].rel_path, "STARTER_PROMPT.md");
    assert_eq!(plan[2].rel_path, "prompts/ADD_FEATURE.md");
    assert_eq!(plan[7].rel_path, ".assistant/settings.json");
    assert_eq!(plan[8].rel_path, "README.md");
    assert!(plan[0].content.contains("/b.txt"));
    assert!(plan[0].content.contains("bundle text"));
    assert_eq!(stats.total_files, 1);
    assert_eq!(stats.prompts_generated, 6);
    assert!(plan[8].content.contains("Files exported: 1"));
}

#[test]
fn test_preview_counts() {
    let mut db = Database::new();
    let id = db
        .insert_file("/pv.txt", "pv.txt", "txt", 10, "t", "t", None, "/")
        .unwrap();
    let text = "word ".repeat(750);
    db.upsert_file_content(id, Some(&text), None).unwrap();
    let exporter = RakeExporter::new(db);
    let config = RakeExportConfig {
        collection_id: None,
        tenant_id: "t".to_string(),
        output_path: ".pkg.json".to_string(),
        include_embeddings: false,
        export_mode: RakeExportMode::Full,
    };
    let preview = exporter.preview_metadata(&config).unwrap();
    assert_eq!(preview.total_files, 1);
    // ceil(750 * 3 / 1500) = 2 estimated chunks.
    assert_eq!(preview.total_chunks, 2);
}

#[test]
fn test_export_preview_and_stats() {
    let mut db = Database::new();
    let id = db
        .insert_file("/ps.txt", "ps.txt", "txt", 2048, "t", "t", None, "/")
        .unwrap();
    let text = "word ".repeat(600);
    db.upsert_file_content(id, Some(&text), None).unwrap();

    let preview = cortex::export::get_export_preview(&db, false).unwrap();
    assert_eq!(preview.file_count, 1);
    // ceil(600 * 3 / 1500) = 2 estimated chunks.
    assert_eq!(preview.chunk_count, 2);
    assert_eq!(preview.estimated_size, 2048);
    assert_eq!(preview.estimated_size_human, "2.00 KB");
    assert!(!preview.has_embeddings);

    let stats = cortex::export::get_export_stats(&db).unwrap();
    assert_eq!(stats.total_files, 1);
    assert_eq!(stats.indexed_files, 1);
    assert_eq!(stats.total_size, 2048);
    assert_eq!(stats.embedded_files, 0);
}
