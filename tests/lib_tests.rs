use digrag::config::SearchMode;
use digrag::{NAME, VERSION};

#[test]
fn test_version_exists() {
    assert!(!VERSION.is_empty());
}

#[test]
fn test_name_exists() {
    assert_eq!(NAME, "digrag");
}

#[test]
fn test_project_structure() {
    // This test validates that the project structure is correct
    // by checking that the modules can be imported
    // The actual content of modules will be tested in their respective files
    assert!(true, "Project structure is valid");
}

#[test]
fn test_search_mode_default() {
    assert_eq!(SearchMode::default(), SearchMode::Hybrid);
}

