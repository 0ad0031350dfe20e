//! The export path validator.

use cortex::error::CortexError;
use cortex::validate::{PathContext, PathValidator};

fn ctx() -> PathContext {
    PathContext {
        home_dir: "/home/someone".to_string(),
        temp_dir: "/tmp".to_string(),
        current_dir: "/home/someone/work".to_string(),
    }
}

#[test]
fn test_reject_empty_path() {
    let result = PathValidator::validate_export_path("", &ctx());
    assert!(result.is_err());
    assert!(matches!(result.unwrap_err(), CortexError::InvalidPath { .. }));
}

#[test]
fn test_reject_parent_dir_traversal() {
    let result = PathValidator::validate_export_path("../../etc/passwd", &ctx());
    assert!(result.is_err());
    match result.unwrap_err() {
        CortexError::InvalidPath { reason, .. } => {
            assert!(reason.contains("traversal"));
        },
        _ => panic!("expected an invalid-path error"),
    }
}

#[test]
fn test_reject_hidden_parent_traversal() {
    let result = PathValidator::validate_export_path("./foo/../../etc/passwd", &ctx());
    assert!(result.is_err());
}

#[test]
fn test_accept_valid_relative_path() {
    let result = PathValidator::validate_export_path(".cortex-export", &ctx());
    assert!(result.is_ok());
    assert_eq!(result.unwrap(), "/home/someone/work/.cortex-export");
}

#[test]
fn test_accept_subdirectory() {
    let result = PathValidator::validate_export_path("exports/my-export", &ctx());
    assert!(result.is_ok());
}

#[test]
fn test_reject_absolute_system_path() {
    let result = PathValidator::validate_export_path("/etc/passwd", &ctx());
    assert!(result.is_err());
    match result.unwrap_err() {
        CortexError::InvalidPath { reason, .. } => {
            assert!(reason.contains("home directory") || reason.contains("temp directory"));
        },
        _ => panic!("expected an invalid-path error"),
    }
}

#[test]
fn test_accept_absolute_path_in_home() {
    let result = PathValidator::validate_export_path("/home/someone/test-export", &ctx());
    assert!(result.is_ok());
    assert_eq!(result.unwrap(), "/home/someone/test-export");
}

#[test]
fn test_accept_absolute_path_in_temp() {
    let result = PathValidator::validate_export_path("/tmp/out.json", &ctx());
    assert!(result.is_ok());
}

#[test]
fn test_validator_fixed_point_and_stable_rejection() {
    // An accepted absolute path validates to itself, again and again.
    let first = PathValidator::validate_export_path("/home/someone/out", &ctx()).unwrap();
    let second = PathValidator::validate_export_path(&first, &ctx()).unwrap();
    assert_eq!(first, second);

    // A rejected path is rejected on retry too.
    assert!(PathValidator::validate_export_path("/etc/passwd", &ctx()).is_err());
    assert!(PathValidator::validate_export_path("/etc/passwd", &ctx()).is_err());
}

#[test]
fn test_prefix_is_component_wise() {
    // "/tmpx" shares the string prefix but not the component.
    let result = PathValidator::validate_export_path("/tmpx/out.json", &ctx());
    assert!(result.is_err());
}
