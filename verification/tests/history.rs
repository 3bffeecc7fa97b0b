use snarkvm_core::history::{history_directory_name, History, MappingName, StorageMode};

/// The names of the mappings, in lower case.
#[test]
fn test_mapping_names() {
    assert_eq!(MappingName::Bonded.to_string(), "bonded");
    assert_eq!(MappingName::Delegated.to_string(), "delegated");
    assert_eq!(MappingName::Unbonding.to_string(), "unbonding");
}

/// The name of the history directory, by storage mode.
#[test]
fn test_history_directory_name() {
    assert_eq!(history_directory_name(3, &StorageMode::Production), "history-3");
    assert_eq!(history_directory_name(0, &StorageMode::Production), "history-0");
    assert_eq!(history_directory_name(65535, &StorageMode::Production), "history-65535");
    assert_eq!(history_directory_name(3, &StorageMode::Custom("/tmp/ledger".to_string())), "history-3");
    assert_eq!(history_directory_name(3, &StorageMode::Development(0)), ".history-3-0");
    assert_eq!(history_directory_name(1, &StorageMode::Development(12)), ".history-1-12");
    assert_eq!(history_directory_name(10, &StorageMode::Development(65535)), ".history-10-65535");
    assert_eq!(StorageMode::Production.dev(), None);
    assert_eq!(StorageMode::Development(7).dev(), Some(7));
    assert_eq!(StorageMode::Custom("x".to_string()).dev(), None);
}

/// The names of the directory of a block and of the file of a mapping.
#[test]
fn test_history_names() {
    let history = History::new(3, StorageMode::Development(1));
    assert_eq!(history.network(), 3);
    assert_eq!(history.storage_mode(), &StorageMode::Development(1));
    assert_eq!(history.directory_name(), ".history-3-1");
    assert_eq!(history.block_directory_name(0), "block-0");
    assert_eq!(history.block_directory_name(1234567), "block-1234567");
    assert_eq!(history.block_directory_name(u32::MAX), "block-4294967295");
    assert_eq!(history.mapping_file_name(0, MappingName::Bonded), "block-0-bonded.json");
    assert_eq!(history.mapping_file_name(100, MappingName::Delegated), "block-100-delegated.json");
    assert_eq!(history.mapping_file_name(u32::MAX, MappingName::Unbonding), "block-4294967295-unbonding.json");
    let history = History::new(0, StorageMode::Production);
    assert_eq!(history.directory_name(), "history-0");
}
