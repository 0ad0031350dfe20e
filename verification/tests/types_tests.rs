//! Priorities, jobs, progress counters and the priority queue.

use cortex::scanner::IndexQueue;
use cortex::types::{IndexJob, IndexPriority, ScanProgress};

#[test]
fn test_priority_from_size() {
    assert_eq!(IndexPriority::from_size(500_000), IndexPriority::Immediate);
    assert_eq!(IndexPriority::from_size(5_000_000), IndexPriority::High);
    assert_eq!(IndexPriority::from_size(50_000_000), IndexPriority::Normal);
    assert_eq!(IndexPriority::from_size(150_000_000), IndexPriority::Low);
}

#[test]
fn test_priority_ordering() {
    assert!(IndexPriority::Immediate > IndexPriority::High);
    assert!(IndexPriority::High > IndexPriority::Normal);
    assert!(IndexPriority::Normal > IndexPriority::Low);
}

#[test]
fn test_priority_from_size_boundaries() {
    assert_eq!(IndexPriority::from_size(999_999), IndexPriority::Immediate);
    assert_eq!(IndexPriority::from_size(1_000_000), IndexPriority::High);
    assert_eq!(IndexPriority::from_size(9_999_999), IndexPriority::High);
    assert_eq!(IndexPriority::from_size(10_000_000), IndexPriority::Normal);
    assert_eq!(IndexPriority::from_size(99_999_999), IndexPriority::Normal);
    assert_eq!(IndexPriority::from_size(100_000_000), IndexPriority::Low);
}

#[test]
fn test_scan_progress() {
    let mut progress = ScanProgress::new();
    assert_eq!(progress.percentage(), 0);

    progress.total_files = 100;
    progress.current_file = 50;
    assert_eq!(progress.percentage(), 50);

    progress.current_file = 100;
    assert_eq!(progress.percentage(), 100);
}

#[test]
fn test_priority_queue_ordering() {
    let mut queue = IndexQueue::new();

    let small_file = IndexJob::new(String::from("small.txt"), 500_000, 0);
    let large_file = IndexJob::new(String::from("large.txt"), 50_000_000, 0);

    queue.push(large_file);
    queue.push(small_file);

    let first = queue.pop().unwrap();
    assert!(first.path.ends_with("small.txt"));
    assert_eq!(first.priority, IndexPriority::Immediate);

    let second = queue.pop().unwrap();
    assert!(second.path.ends_with("large.txt"));
    assert_eq!(second.priority, IndexPriority::Normal);
}

#[test]
fn test_priority_queue_modified_tiebreak() {
    let mut queue = IndexQueue::new();
    queue.push(IndexJob::new(String::from("old.txt"), 100, 100));
    queue.push(IndexJob::new(String::from("new.txt"), 100, 200));
    let first = queue.pop().unwrap();
    assert_eq!(first.path, "new.txt");
    assert_eq!(queue.len(), 1);
    assert!(!queue.is_empty());
    let second = queue.pop().unwrap();
    assert_eq!(second.path, "old.txt");
    assert!(queue.is_empty());
    assert!(queue.pop().is_none());
}

#[test]
fn test_queue_extend() {
    let mut queue = IndexQueue::new();
    let jobs = vec![
        IndexJob::new(String::from("a.txt"), 50_000_000, 0),
        IndexJob::new(String::from("b.txt"), 5_000, 0),
        IndexJob::new(String::from("c.txt"), 5_000_000, 0),
    ];
    queue.extend(jobs);
    assert_eq!(queue.len(), 3);
    assert_eq!(queue.pop().unwrap().path, "b.txt");
    assert_eq!(queue.pop().unwrap().path, "c.txt");
    assert_eq!(queue.pop().unwrap().path, "a.txt");
}
