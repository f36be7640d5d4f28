use kura::manifest::codec::{decode_file, encode_file, MANIFEST_FORMAT_VERSION};
use kura::manifest::missing_manifest_error;
use kura::manifest::state::{ManifestState, SstableDescriptor};
use kura::{Error, SequenceNumber};

const MANIFEST_MAGIC: &[u8] = b"KURAMNF";
const MANIFEST_PATH: &str = "db/MANIFEST-00000000000000000001";

#[test]
fn write_then_load_roundtrips_manifest_state() {
    let state = ManifestState::new(
        7,
        SequenceNumber::new(1000),
        vec![3, 4],
        vec![
            SstableDescriptor::new(
                5,
                b"user:000".to_vec(),
                b"user:0499".to_vec(),
                SequenceNumber::new(1),
                SequenceNumber::new(500),
            ),
            SstableDescriptor::new(
                6,
                b"user:0500".to_vec(),
                b"user:0999".to_vec(),
                SequenceNumber::new(501),
                SequenceNumber::new(1000),
            ),
        ],
    );

    let bytes = encode_file(&state).expect("write manifest state");
    let loaded_state = decode_file(&bytes, MANIFEST_PATH).expect("load manifest state");

    assert_eq!(loaded_state, state)
}

#[test]
fn load_rejects_missing_manifest_file() {
    let err = missing_manifest_error(MANIFEST_PATH);

    assert!(matches!(err, Error::Corruption {message}
            if message == format!("manifest not found: {}", MANIFEST_PATH)))
}

#[test]
fn load_rejects_truncated_manifest_header() {
    let err = decode_file(&[], MANIFEST_PATH).expect_err("load should reject truncated manifest header");

    assert!(matches!(err, Error::Corruption {message}
        if message == format!("manifest header is truncated while reading magic: {}", MANIFEST_PATH)))
}

#[test]
fn load_rejects_invalid_manifest_magic() {
    let bytes = [b"INVALID".as_slice(), &MANIFEST_FORMAT_VERSION.to_le_bytes()].concat();
    let err = decode_file(&bytes, MANIFEST_PATH).expect_err("load should reject invalid manifest magic");

    assert!(matches!(err, Error::Corruption {message}
        if message == format!("invalid manifest magic: {}", MANIFEST_PATH)))
}

#[test]
fn load_rejects_unsupported_manifest_format_version() {
    let bytes = [MANIFEST_MAGIC, &(MANIFEST_FORMAT_VERSION + 1).to_le_bytes()].concat();
    let err = decode_file(&bytes, MANIFEST_PATH)
        .expect_err("load should reject unsupported manifest format version");

    assert!(matches!(err, Error::Corruption {message}
        if message == format!("unsupported manifest format version {} in: {}", MANIFEST_FORMAT_VERSION + 1, MANIFEST_PATH)))
}

#[test]
fn load_rejects_truncated_manifest_snapshot() {
    let bytes = [MANIFEST_MAGIC, &MANIFEST_FORMAT_VERSION.to_le_bytes()].concat();
    let err = decode_file(&bytes, MANIFEST_PATH).expect_err("load should reject truncated manifest snapshot");

    assert!(matches!(err, Error::Corruption {message}
        if message == format!("manifest snapshot is truncated while reading next file number: {}", MANIFEST_PATH)))
}

#[test]
fn encode_file_writes_documented_layout() {
    let state = ManifestState::new(
        2,
        SequenceNumber::new(9),
        vec![0x0102],
        vec![SstableDescriptor::new(3, b"a".to_vec(), b"bc".to_vec(), SequenceNumber::new(4), SequenceNumber::new(5))],
    );
    let bytes = encode_file(&state).expect("encode");
    let mut expected: Vec<u8> = Vec::new();
    expected.extend_from_slice(b"KURAMNF");
    expected.extend_from_slice(&[1, 0]);
    expected.extend_from_slice(&2u64.to_le_bytes());
    expected.extend_from_slice(&9u64.to_le_bytes());
    expected.extend_from_slice(&1u32.to_le_bytes());
    expected.extend_from_slice(&0x0102u64.to_le_bytes());
    expected.extend_from_slice(&1u32.to_le_bytes());
    expected.extend_from_slice(&3u64.to_le_bytes());
    expected.extend_from_slice(&1u32.to_le_bytes());
    expected.extend_from_slice(b"a");
    expected.extend_from_slice(&2u32.to_le_bytes());
    expected.extend_from_slice(b"bc");
    expected.extend_from_slice(&4u64.to_le_bytes());
    expected.extend_from_slice(&5u64.to_le_bytes());
    assert_eq!(bytes, expected);
}

#[test]
fn initial_state_roundtrips_through_encoding() {
    let state = ManifestState::initial();
    let bytes = encode_file(&state).expect("encode");
    assert_eq!(bytes.len(), 7 + 2 + 8 + 8 + 4 + 4);
    let loaded = decode_file(&bytes, MANIFEST_PATH).expect("decode");
    assert!(loaded.is_initial());
    assert_eq!(loaded, state);
}

#[test]
fn decode_ignores_trailing_bytes() {
    let state = ManifestState::new(11, SequenceNumber::new(12), vec![], vec![]);
    let mut bytes = encode_file(&state).expect("encode");
    bytes.extend_from_slice(b"trailing");
    assert_eq!(decode_file(&bytes, MANIFEST_PATH).expect("decode"), state);
}

#[test]
fn decode_reports_truncated_wal_file_number() {
    let state = ManifestState::new(11, SequenceNumber::new(12), vec![1, 2], vec![]);
    let bytes = encode_file(&state).expect("encode");
    let cut = &bytes[..bytes.len() - 4 - 3];
    let err = decode_file(cut, "m").expect_err("truncated");
    assert!(matches!(err, Error::Corruption { message }
        if message == "manifest WAL files is truncated while reading file number: m"));
}

#[test]
fn decode_reports_truncated_descriptor_key() {
    let state = ManifestState::new(
        1,
        SequenceNumber::new(1),
        vec![],
        vec![SstableDescriptor::new(3, b"abcdef".to_vec(), b"z".to_vec(), SequenceNumber::new(1), SequenceNumber::new(2))],
    );
    let bytes = encode_file(&state).expect("encode");
    let header_and_counts = 7 + 2 + 8 + 8 + 4 + 4;
    let cut = &bytes[..header_and_counts + 8 + 4 + 3];
    let err = decode_file(cut, "m").expect_err("truncated");
    assert!(matches!(err, Error::Corruption { message }
        if message == "manifest SSTable descriptor is truncated while reading min user key: m"));
    let cut = &bytes[..header_and_counts + 2];
    let err = decode_file(cut, "m").expect_err("truncated");
    assert!(matches!(err, Error::Corruption { message }
        if message == "manifest SSTable descriptor is truncated while reading file number: m"));
}

#[test]
fn decode_reports_unsupported_version_zero_and_large() {
    for version in [0u16, 65535] {
        let bytes = [MANIFEST_MAGIC, &version.to_le_bytes()].concat();
        let err = decode_file(&bytes, "p").expect_err("version");
        assert!(matches!(err, Error::Corruption { message }
            if message == format!("unsupported manifest format version {} in: p", version)));
    }
}
