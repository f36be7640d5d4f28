use kura::db::{classify, classify_without_current, CurrentRead, DbState, ManifestScan};
use kura::{Error, PrefixEntry};

#[test]
fn scan_counts_only_manifest_names() {
    let mut scan = ManifestScan::new();
    scan.observe("LOCK");
    scan.observe("wal");
    scan.observe("MANIFEST-1");
    assert_eq!(scan.count, 0);
    scan.observe("MANIFEST-00000000000000000001");
    assert_eq!(scan.count, 1);
    assert!(scan.has_initial);
    assert!(!scan.is_complete());
    scan.observe("MANIFEST-00000000000000000007");
    assert_eq!(scan.count, 2);
    assert!(scan.is_complete());
}

#[test]
fn classify_without_current_decides_bootstrap_state() {
    let empty = ManifestScan::new();
    assert_eq!(classify_without_current("db", &empty).expect("new"), DbState::New);

    let mut initial_only = ManifestScan::new();
    initial_only.observe("MANIFEST-00000000000000000001");
    assert_eq!(
        classify_without_current("db", &initial_only).expect("incomplete"),
        DbState::IncompleteBootstrap
    );

    let mut other_only = ManifestScan::new();
    other_only.observe("MANIFEST-00000000000000000002");
    let err = classify_without_current("db", &other_only).expect_err("corrupt");
    assert!(matches!(err, Error::Corruption { message }
        if message == "invalid manifest bootstrap state: db"));

    let mut two = initial_only;
    two.observe("MANIFEST-00000000000000000002");
    assert!(classify_without_current("db", &two).is_err());
}

#[test]
fn prefix_entry_holds_key_and_value() {
    let entry = PrefixEntry { key: b"k".to_vec(), value: b"v".to_vec() };
    assert_eq!(entry.key, b"k");
    assert_eq!(entry.value, b"v");
}

#[test]
fn classify_reads_current_first() {
    assert_eq!(classify("db", CurrentRead::Found).expect("existing"), DbState::Existing);
    let failed = CurrentRead::Failed(std::io::Error::new(std::io::ErrorKind::PermissionDenied, "denied"));
    assert!(matches!(classify("db", failed), Err(Error::Io(e)) if e.kind() == std::io::ErrorKind::PermissionDenied));
    assert_eq!(classify("db", CurrentRead::Missing(ManifestScan::new())).expect("new"), DbState::New);
    let mut scan = ManifestScan::new();
    scan.observe("MANIFEST-00000000000000000003");
    let err = classify("db", CurrentRead::Missing(scan)).expect_err("corrupt");
    assert!(matches!(err, Error::Corruption { message }
        if message == "invalid manifest bootstrap state: db"));
}
