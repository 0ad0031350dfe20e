//! The indexing pipeline: runs, progress, cancellation, and the end-to-end
//! lexical scenario over synthetic files.

use cortex::extract::ContentExtractor;
use cortex::pipeline::PipelineController;
use cortex::scanner::{FileScanner, ScanEntry};
use cortex::store::Database;
use cortex::types::IndexJob;

fn entry(path: &str, rel: &str, size: u64, modified: i64) -> ScanEntry {
    ScanEntry {
        path: path.to_string(),
        rel: rel.to_string(),
        is_file: true,
        size,
        modified,
    }
}

#[test]
fn test_indexing_status_initially_inactive() {
    let controller = PipelineController::new();
    let status = controller.get_index_status();
    assert!(!status.is_active);
    assert_eq!(status.total_files, 0);
    assert_eq!(status.indexed_files, 0);
    assert_eq!(status.progress_percentage, 0);
}

#[test]
fn test_cannot_start_indexing_twice() {
    let mut controller = PipelineController::new();
    controller.start_run().unwrap();
    let again = controller.start_run();
    assert!(matches!(
        again,
        Err(cortex::error::CortexError::IndexingInProgress)
    ));
}

#[test]
fn test_stop_indexing_when_not_active() {
    let mut controller = PipelineController::new();
    assert!(controller.request_stop().is_err());
}

#[test]
fn test_stop_indexing_when_active() {
    let mut controller = PipelineController::new();
    controller.start_run().unwrap();
    controller.request_stop().unwrap();
    assert!(!controller.should_continue());
}

#[test]
fn test_indexing_state_reset() {
    let mut controller = PipelineController::new();
    controller.start_run().unwrap();
    controller.record_error("scan failed".to_string());
    controller.finish_run();
    controller.start_run().unwrap();
    let status = controller.get_index_status();
    assert!(status.is_active);
    assert!(status.errors.is_empty());
    assert_eq!(status.indexed_files, 0);
    controller.finish_run();
}

#[test]
fn test_progress_event_cadence() {
    assert!(PipelineController::should_emit_progress(0, 25));
    assert!(PipelineController::should_emit_progress(10, 25));
    assert!(PipelineController::should_emit_progress(20, 25));
    assert!(PipelineController::should_emit_progress(24, 25));
    assert!(!PipelineController::should_emit_progress(7, 25));
}

#[test]
fn test_lexical_basics_end_to_end() {
    // Two synthetic files through the whole pipeline, then lexical queries.
    let mut db = Database::new();
    let mut controller = PipelineController::new();
    let mut scanner = FileScanner::new();
    controller.start_run().unwrap();

    let entries = vec![
        entry("/dir/rust.txt", "rust.txt", 38, 10),
        entry("/dir/python.txt", "python.txt", 44, 20),
    ];
    let jobs = scanner.scan_listing(&entries);
    controller.begin_jobs(jobs.len());

    let contents: &[(&str, &[u8])] = &[
        ("/dir/rust.txt", b"Rust is a systems programming language"),
        ("/dir/python.txt", b"Python is a high-level programming language"),
    ];
    for job in &jobs {
        let bytes = contents
            .iter()
            .find(|(p, _)| *p == job.path)
            .map(|(_, b)| *b)
            .unwrap();
        let outcome = ContentExtractor::extract_bytes(&job.path, bytes, None, None);
        controller.process_job(&mut db, job, outcome, "2025-01-01T00:00:00Z");
    }
    controller.finish_run();

    let rust_hits = db.search_files_fts("rust", 10).unwrap();
    assert_eq!(rust_hits.len(), 1);
    assert_eq!(rust_hits[0].filename, "rust.txt");

    let prog_hits = db.search_files_fts("programming", 10).unwrap();
    assert_eq!(prog_hits.len(), 2);

    assert!(db.search_files_fts("", 10).is_err());
    assert!(db.search_files_fts("   ", 10).is_err());
}

#[test]
fn test_priority_ordering_in_run() {
    // A 500 KB and a 50 MB file: the small one's job retires first.
    let mut scanner = FileScanner::new();
    let entries = vec![
        entry("/d/large.bin.txt", "large.bin.txt", 50_000_000, 5),
        entry("/d/small.txt", "small.txt", 500_000, 5),
    ];
    let jobs = scanner.scan_listing(&entries);
    assert_eq!(jobs.len(), 2);
    assert!(jobs[0].path.ends_with("small.txt"));
    assert!(jobs[1].path.ends_with("large.bin.txt"));
}

#[test]
fn test_cancellation_mid_run() {
    // A thousand synthetic jobs; stop after fifty have been indexed.
    let mut db = Database::new();
    let mut controller = PipelineController::new();
    controller.start_run().unwrap();

    let mut jobs: Vec<IndexJob> = Vec::new();
    for i in 0..1000 {
        jobs.push(IndexJob::new(format!("/gen/file{}.txt", i), 100, i as i64));
    }
    controller.begin_jobs(jobs.len());

    let mut processed = 0usize;
    for job in &jobs {
        if !controller.should_continue() {
            break;
        }
        let outcome = ContentExtractor::extract_bytes(&job.path, b"synthetic body text", None, None);
        let stored = controller.process_job(&mut db, job, outcome, "2025-01-01T00:00:00Z");
        assert!(stored);
        processed += 1;
        if processed == 50 {
            controller.request_stop().unwrap();
        }
    }
    controller.finish_run();
    let complete = controller.complete_event(12);
    let status = controller.get_index_status();

    assert!(!status.is_active);
    assert_eq!(complete.indexed_files, 50);
    assert!(complete.indexed_files >= 50 && complete.indexed_files < 1000);
    assert_eq!(complete.total_files, 1000);
    assert_eq!(complete.duration_ms, 12);
    assert_eq!(db.get_file_count().unwrap(), 50);
}

#[test]
fn test_scanner_filters() {
    // Hidden files, ignored directories, unsupported extensions and
    // oversized files never become jobs.
    let mut scanner = FileScanner::new().with_max_file_size(1000);
    assert!(!scanner.follow_symlinks);
    let entries = vec![
        entry("/r/app.js", "app.js", 10, 1),
        entry("/r/node_modules/lib.js", "node_modules/lib.js", 10, 1),
        entry("/r/.hidden.txt", ".hidden.txt", 10, 1),
        entry("/r/binary.exe", "binary.exe", 10, 1),
        entry("/r/huge.txt", "huge.txt", 5000, 1),
        entry("/r/sub/nested.txt", "sub/nested.txt", 10, 1),
    ];
    let jobs = scanner.scan_listing(&entries);
    let paths: Vec<&str> = jobs.iter().map(|j| j.path.as_str()).collect();
    assert_eq!(jobs.len(), 2);
    assert!(paths.contains(&"/r/app.js"));
    assert!(paths.contains(&"/r/sub/nested.txt"));

    let progress = scanner.get_progress();
    // Five visible files were walked (the hidden one and the pruned
    // directory's file are not), two became jobs.
    assert_eq!(progress.total_files, 4);
    assert_eq!(progress.current_file, 2);
}

#[test]
fn test_scanner_progress_tracking() {
    let mut scanner = FileScanner::new();
    let entries = vec![
        entry("/t/test1.txt", "test1.txt", 9, 1),
        entry("/t/test2.txt", "test2.txt", 9, 2),
    ];
    let _jobs = scanner.scan_listing(&entries);
    let progress = scanner.get_progress();
    assert_eq!(progress.total_files, 2);
    assert_eq!(progress.current_file, 2);
    assert_eq!(progress.percentage(), 100);
}

#[test]
fn test_duplicate_job_records_error() {
    let mut db = Database::new();
    let mut controller = PipelineController::new();
    controller.start_run().unwrap();
    controller.begin_jobs(2);
    let job = IndexJob::new("/dup.txt".to_string(), 10, 1);
    let ok1 = controller.process_job(
        &mut db,
        &job,
        ContentExtractor::extract_bytes("/dup.txt", b"text", None, None),
        "t",
    );
    let ok2 = controller.process_job(
        &mut db,
        &job,
        ContentExtractor::extract_bytes("/dup.txt", b"text", None, None),
        "t",
    );
    controller.finish_run();
    assert!(ok1);
    assert!(!ok2);
    let status = controller.get_index_status();
    assert_eq!(status.errors.len(), 1);
    assert_eq!(db.get_file_count().unwrap(), 1);
}
