use kura::{Options, SyncMode};

#[test]
fn default_options_use_documented_values() {
    let options = Options::default();

    assert_eq!(options.sync_mode, SyncMode::Always);
    assert_eq!(options.memtable_bytes, 4 * 1024 * 1024);
    assert_eq!(options.compaction_trigger_tables, 4);
}
