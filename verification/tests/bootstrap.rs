use kura::bootstrap::{ensure_dir, layout_subdirectories, validate_dir, validate_layout, validate_optional_file, LayoutEntry, PathStatus};
use kura::Error;

fn io_failure() -> PathStatus {
    PathStatus::Failed(std::io::Error::new(std::io::ErrorKind::PermissionDenied, "denied"))
}

#[test]
fn validate_dir_accepts_only_directories() {
    assert!(validate_dir("db", PathStatus::Directory).is_ok());
    let err = validate_dir("db/wal", PathStatus::File).expect_err("file");
    assert!(matches!(err, Error::InvalidLayout { message }
        if message == "expected directory, found different type: db/wal"));
    let err = validate_dir("db/x", PathStatus::Other).expect_err("other");
    assert!(matches!(err, Error::InvalidLayout { message }
        if message == "expected directory, found different type: db/x"));
    let err = validate_dir("db/sst", PathStatus::Missing).expect_err("missing");
    assert!(matches!(err, Error::InvalidLayout { message } if message == "path not found: db/sst"));
    let err = validate_dir("db", io_failure()).expect_err("io");
    assert!(matches!(err, Error::Io(e) if e.kind() == std::io::ErrorKind::PermissionDenied));
}

#[test]
fn validate_optional_file_allows_missing_file() {
    assert!(validate_optional_file("db/LOCK", PathStatus::Missing).is_ok());
    assert!(validate_optional_file("db/LOCK", PathStatus::File).is_ok());
    let err = validate_optional_file("db/LOCK", PathStatus::Directory).expect_err("dir");
    assert!(matches!(err, Error::InvalidLayout { message }
        if message == "expected file, found different type: db/LOCK"));
    assert!(matches!(validate_optional_file("db/LOCK", io_failure()), Err(Error::Io(_))));
}

#[test]
fn ensure_dir_asks_for_creation_only_when_missing() {
    assert!(ensure_dir("db/wal", PathStatus::Missing).expect("missing"));
    assert!(!ensure_dir("db/wal", PathStatus::Directory).expect("dir"));
    let err = ensure_dir("db/wal", PathStatus::File).expect_err("file");
    assert!(matches!(err, Error::InvalidLayout { message }
        if message == "expected directory, found different type: db/wal"));
}

fn entry(path: &str, status: PathStatus) -> LayoutEntry {
    LayoutEntry { path: path.to_owned(), status }
}

#[test]
fn validate_layout_reports_first_invalid_entry() {
    let ok = vec![
        entry("db", PathStatus::Directory),
        entry("db/wal", PathStatus::Directory),
        entry("db/sst", PathStatus::Directory),
        entry("db/tmp", PathStatus::Directory),
    ];
    assert!(validate_layout(ok).is_ok());
    let bad = vec![
        entry("db", PathStatus::Directory),
        entry("db/wal", PathStatus::File),
        entry("db/sst", PathStatus::Missing),
        entry("db/tmp", PathStatus::Directory),
    ];
    let err = validate_layout(bad).expect_err("wal is a file");
    assert!(matches!(err, Error::InvalidLayout { message }
        if message == "expected directory, found different type: db/wal"));
}

#[test]
fn layout_subdirectories_are_wal_sst_tmp() {
    assert_eq!(layout_subdirectories(), vec!["wal".to_owned(), "sst".to_owned(), "tmp".to_owned()]);
}
