use kura::filename::manifest;
use kura::manifest::current::{current_contents, parse};
use kura::manifest::INITIAL_FILE_NUMBER;
use kura::Error;

#[test]
fn publish_then_parse_roundtrips_current() {
    let manifest_filename = manifest(INITIAL_FILE_NUMBER);

    let bytes = current_contents(&manifest_filename).expect("publish CURRENT");
    let parsed = parse(&bytes).expect("parse CURRENT");

    assert_eq!(parsed, manifest_filename)
}

#[test]
fn parse_valid_current() {
    let manifest_filename = manifest(INITIAL_FILE_NUMBER);
    let current = format!("{manifest_filename}\n");

    let parsed = parse(current.as_bytes()).expect("parse valid CURRENT");

    assert_eq!(parsed, manifest_filename)
}

#[test]
fn parse_rejects_current_with_non_utf8_current() {
    let current = b"MANIFEST-\xFF\n";

    let err = parse(current).expect_err("parse should reject invalid CURRENT");

    assert!(matches!(err, Error::Corruption {message}
        if message == "CURRENT must be valid UTF-8 text"))
}

#[test]
fn parse_rejects_current_without_trailing_newline() {
    let current = manifest(INITIAL_FILE_NUMBER);

    let err = parse(current.as_bytes()).expect_err("parse should reject invalid CURRENT");

    assert!(matches!(err, Error::Corruption {message}
        if message == "CURRENT must end with a single newline"))
}

#[test]
fn parse_rejects_current_without_single_manifest_filename_line() {
    let manifest_filename = manifest(INITIAL_FILE_NUMBER);

    for current in [
        "\n".to_owned(),
        format!("{manifest_filename}\n\n"),
        format!("{manifest_filename}\n{manifest_filename}\n"),
    ] {
        let err = parse(current.as_bytes()).expect_err("parse should reject invalid CURRENT");

        assert!(matches!(err, Error::Corruption { message }
            if message == "CURRENT must contain exactly one manifest filename line"))
    }
}

#[test]
fn current_contents_is_name_and_newline() {
    let name = manifest(42);
    let bytes = current_contents(&name).expect("contents");
    assert_eq!(bytes, format!("{name}\n").into_bytes());
}

#[test]
fn current_contents_rejects_invalid_name() {
    let err = current_contents("MANIFEST-x").expect_err("invalid name");
    assert!(matches!(err, Error::Corruption { message }
        if message == "invalid manifest filename: MANIFEST-x"));
}

#[test]
fn parse_rejects_invalid_manifest_name_line() {
    let err = parse("CURRENT\n".as_bytes()).expect_err("invalid name");
    assert!(matches!(err, Error::Corruption { message }
        if message == "invalid manifest filename: CURRENT"));
    let err = parse("MANIFEST-é\n".as_bytes()).expect_err("invalid name");
    assert!(matches!(err, Error::Corruption { message }
        if message == "invalid manifest filename: MANIFEST-é"));
}

#[test]
fn parse_rejects_empty_current() {
    let err = parse(b"").expect_err("empty");
    assert!(matches!(err, Error::Corruption { message }
        if message == "CURRENT must end with a single newline"));
}

#[test]
fn parse_roundtrips_large_file_number() {
    let name = manifest(u64::MAX);
    let bytes = current_contents(&name).expect("contents");
    assert_eq!(parse(&bytes).expect("parse"), name);
}
