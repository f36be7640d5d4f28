use kura::manifest::check_initial_state;
use kura::manifest::state::{ManifestState, SstableDescriptor};
use kura::{Error, SequenceNumber};

#[test]
fn initial_state_is_initial() {
    let state = ManifestState::initial();

    assert!(state.is_initial())
}

#[test]
fn initial_state_has_documented_values() {
    let state = ManifestState::initial();
    assert_eq!(state.next_file_number(), 2);
    assert_eq!(state.last_sequence(), SequenceNumber::new(0));
    assert!(state.wal_files().is_empty());
    assert!(state.sstables().is_empty());
}

#[test]
fn states_with_any_change_are_not_initial() {
    assert!(!ManifestState::new(3, SequenceNumber::new(0), vec![], vec![]).is_initial());
    assert!(!ManifestState::new(2, SequenceNumber::new(1), vec![], vec![]).is_initial());
    assert!(!ManifestState::new(2, SequenceNumber::new(0), vec![5], vec![]).is_initial());
    let d = SstableDescriptor::new(3, vec![], vec![], SequenceNumber::new(0), SequenceNumber::new(0));
    assert!(!ManifestState::new(2, SequenceNumber::new(0), vec![], vec![d]).is_initial());
}

#[test]
fn descriptor_getters_return_fields() {
    let d = SstableDescriptor::new(9, b"lo".to_vec(), b"hi".to_vec(), SequenceNumber::new(3), SequenceNumber::new(8));
    assert_eq!(d.file_number(), 9);
    assert_eq!(d.min_user_key(), b"lo");
    assert_eq!(d.max_user_key(), b"hi");
    assert_eq!(d.min_sequence(), SequenceNumber::new(3));
    assert_eq!(d.max_sequence(), SequenceNumber::new(8));
}

#[test]
fn check_initial_state_accepts_only_initial_state() {
    let accepted = check_initial_state(ManifestState::initial(), "db/M").expect("initial");
    assert!(accepted.is_initial());
    let err = check_initial_state(ManifestState::new(5, SequenceNumber::new(0), vec![], vec![]), "db/M")
        .expect_err("not initial");
    assert!(matches!(err, Error::Corruption { message }
        if message == "initial manifest contains non-initial state: db/M"));
}
