use kura::filename::{current_filename, current_tmp_filename, lock_filename, manifest, manifest_number, validate_manifest};
use kura::Error;

#[test]
fn manifest_formats_file_number_with_zero_padding() {
    assert_eq!(manifest(1), "MANIFEST-00000000000000000001");
    assert_eq!(manifest(u64::MAX), "MANIFEST-18446744073709551615");
}

#[test]
fn manifest_number_parses_valid_manifest_filename() {
    assert_eq!(manifest_number("MANIFEST-00000000000000000001"), Some(1));
    assert_eq!(
        manifest_number("MANIFEST-18446744073709551615"),
        Some(u64::MAX)
    );
}

#[test]
fn manifest_number_rejects_invalid_prefix() {
    assert_eq!(manifest_number("00000000000000000001"), None);
    assert_eq!(manifest_number("CURRENT-00000000000000000001"), None);
}

#[test]
fn manifest_number_rejects_wrong_width() {
    assert_eq!(manifest_number("MANIFEST-1"), None);
    assert_eq!(manifest_number("MANIFEST-000000000000000000001"), None);
}

#[test]
fn manifest_number_rejects_non_digits() {
    assert_eq!(manifest_number("MANIFEST-0000000000000000000x"), None);
    assert_eq!(manifest_number("MANIFEST-0000000000000000000."), None);
}

#[test]
fn manifest_number_rejects_u64_overflow() {
    assert_eq!(manifest_number("MANIFEST-18446744073709551616"), None);
}

#[test]
fn validate_manifest_rejects_invalid_manifest_filename() {
    let err = validate_manifest("MANIFEST-1")
        .expect_err("validate manifest should reject invalid filename");

    assert!(matches!(err, Error::Corruption { message }
        if message == "invalid manifest filename: MANIFEST-1"));
}

#[test]
fn manifest_number_of_formatted_name_is_the_number() {
    for n in [0u64, 1, 9, 10, 12345, 99_999_999_999, u64::MAX - 1, u64::MAX] {
        assert_eq!(manifest_number(&manifest(n)), Some(n));
        assert!(validate_manifest(&manifest(n)).is_ok());
    }
}

#[test]
fn manifest_formats_intermediate_numbers() {
    assert_eq!(manifest(0), "MANIFEST-00000000000000000000");
    assert_eq!(manifest(1234567890), "MANIFEST-00000000001234567890");
}

#[test]
fn manifest_number_rejects_lowercase_prefix_and_sign() {
    assert_eq!(manifest_number("manifest-00000000000000000001"), None);
    assert_eq!(manifest_number("MANIFEST-+0000000000000000001"), None);
    assert_eq!(manifest_number("MANIFEST-99999999999999999999"), None);
}

#[test]
fn fixed_file_names_match_the_layout() {
    assert_eq!(current_filename(), "CURRENT");
    assert_eq!(current_tmp_filename(), "CURRENT.tmp");
    assert_eq!(lock_filename(), "LOCK");
}
