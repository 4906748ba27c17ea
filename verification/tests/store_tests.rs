use guild_config_cache::config::GuildConfig;
use guild_config_cache::errors::{LoadError, SaveError};
use guild_config_cache::store::ConfigStore;

#[test]
fn path_maps_id_to_json_file() {
    assert_eq!(ConfigStore::path(42), "configs/42.json");
    assert_eq!(ConfigStore::path(0), "configs/0.json");
    assert_eq!(ConfigStore::path(18446744073709551615), "configs/18446744073709551615.json");
}

#[test]
fn load_missing_with_create_gives_default_and_no_file() {
    let store = ConfigStore::new();
    let cfg = store.load(5, true).expect("missing file with create flag is a default record");
    assert_eq!(cfg.get_channel("MD"), None);
    assert!(!cfg.has_changed());
    assert_eq!(store.file_contents(5), None);
}

#[test]
fn load_missing_without_create_fails_not_found() {
    let store = ConfigStore::new();
    let err = store.load(5, false).expect_err("a missing file without the create flag fails");
    assert_eq!(err, LoadError::ConfigNotFound(5));
}

#[test]
fn load_existing_file_parses_record() {
    let mut store = ConfigStore::new();
    store.write_file(3, "{\"c\":{\"MU\":77}}".to_string());
    let cfg = store.load(3, false).expect("existing well-formed file loads");
    assert_eq!(cfg.get_channel("MU"), Some(77));
    assert!(!cfg.has_changed());
}

#[test]
fn load_invalid_json_fails_deserialization() {
    let mut store = ConfigStore::new();
    store.write_file(9, "{oops".to_string());
    let err = store.load(9, true).expect_err("text outside the grammar fails");
    assert_eq!(err, LoadError::FailedDeserialization);
}

#[test]
fn save_clean_record_is_a_noop() {
    let mut store = ConfigStore::new();
    let cfg = GuildConfig::new();
    assert_eq!(store.save(42, &cfg), Ok(false));
    assert_eq!(store.file_contents(42), None);
}

#[test]
fn save_clean_record_leaves_existing_file_untouched() {
    let mut store = ConfigStore::new();
    store.write_file(42, "{\"c\":{\"MD\":1}}".to_string());
    let cfg = store.load(42, false).expect("file loads");
    assert_eq!(store.save(42, &cfg), Ok(false));
    assert_eq!(store.file_contents(42), Some("{\"c\":{\"MD\":1}}".to_string()));
}

#[test]
fn save_dirty_record_writes_canonical_file() {
    let mut store = ConfigStore::new();
    let mut cfg = GuildConfig::new();
    cfg.set_channel("MD", Some(100));
    assert_eq!(store.save(42, &cfg), Ok(true));
    assert_eq!(store.file_contents(42), Some("{\"c\":{\"MD\":100}}".to_string()));
}

#[test]
fn save_then_load_round_trips_the_mapping() {
    let mut store = ConfigStore::new();
    let mut cfg = GuildConfig::new();
    cfg.set_channel("MD", Some(100));
    cfg.set_channel("UL", Some(31));
    cfg.set_channel("MD", None);
    assert_eq!(store.save(8, &cfg), Ok(true));
    let loaded = store.load(8, false).expect("saved file loads");
    assert_eq!(loaded.get_channel("MD"), None);
    assert_eq!(loaded.get_channel("UL"), Some(31));
    assert!(!loaded.has_changed());
}

#[test]
fn save_unencodable_key_fails_serialization() {
    let mut store = ConfigStore::new();
    let mut cfg = GuildConfig::new();
    cfg.set_channel("bad\"key", Some(1));
    assert_eq!(store.save(6, &cfg), Err(SaveError::FailedSerialization));
    assert_eq!(store.file_contents(6), None);
}

#[test]
fn save_non_ascii_key_fails_serialization() {
    let mut store = ConfigStore::new();
    let mut cfg = GuildConfig::new();
    cfg.set_channel("sch\u{f6}n", Some(1));
    assert_eq!(store.save(6, &cfg), Err(SaveError::FailedSerialization));
}

#[test]
fn write_file_overwrites() {
    let mut store = ConfigStore::new();
    store.write_file(1, "one".to_string());
    store.write_file(1, "two".to_string());
    assert_eq!(store.file_contents(1), Some("two".to_string()));
}
