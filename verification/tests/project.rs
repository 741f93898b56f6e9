use ken_core::project::{config_path, normalize_name, NAME_MAX_LEN};
use std::path::{Path, PathBuf};

#[test]
fn normalize_name_trims_and_accepts() {
    assert_eq!(normalize_name("  Atlas Migration  ").unwrap(), "Atlas Migration");
    assert_eq!(normalize_name("Q3 Planning").unwrap(), "Q3 Planning");
}

#[test]
fn normalize_name_rejects_empty() {
    assert!(normalize_name("").is_err());
    assert!(normalize_name("   ").is_err());
    assert!(normalize_name("\t\n").is_err());
}

#[test]
fn normalize_name_rejects_control_chars() {
    assert!(normalize_name("Line one\nLine two").is_err());
    assert!(normalize_name("tab\there").is_err());
}

#[test]
fn normalize_name_rejects_overlong() {
    let long = "x".repeat(NAME_MAX_LEN + 1);
    assert!(normalize_name(&long).is_err());
    assert!(normalize_name(&"x".repeat(NAME_MAX_LEN)).is_ok());
}

#[test]
fn normalize_name_reports_why() {
    assert_eq!(normalize_name(" ").unwrap_err().message(), "project name cannot be empty");
    assert_eq!(
        normalize_name(&"y".repeat(NAME_MAX_LEN + 1)).unwrap_err().message(),
        "project name is too long (max 200 characters)"
    );
    assert_eq!(
        normalize_name("a\u{7}b").unwrap_err().message(),
        "project name cannot contain control characters"
    );
    // Length counts characters, not bytes.
    assert!(normalize_name(&"é".repeat(NAME_MAX_LEN)).is_ok());
}

#[test]
fn config_lives_under_the_project_ken_folder() {
    assert_eq!(PathBuf::from(config_path("/p")), Path::new("/p").join(".ken").join("project.json"));
}
