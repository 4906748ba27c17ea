use guild_config_cache::config::GuildConfig;

#[test]
fn default_is_empty_and_clean() {
    let cfg = GuildConfig::default();
    assert_eq!(cfg.get_channel("MD"), None);
    assert!(!cfg.has_changed());
}

#[test]
fn set_channel_sets_value_and_dirties() {
    let mut cfg = GuildConfig::new();
    cfg.set_channel("MD", Some(100));
    assert_eq!(cfg.get_channel("MD"), Some(100));
    assert_eq!(cfg.get_channel("MU"), None);
    assert!(cfg.has_changed());
}

#[test]
fn set_then_clear_leaves_key_absent_and_dirty() {
    let mut cfg = GuildConfig::new();
    cfg.set_channel("MD", Some(100));
    cfg.set_channel("MD", None);
    assert_eq!(cfg.get_channel("MD"), None);
    assert!(cfg.has_changed());
}

#[test]
fn set_channel_overwrites_existing_value() {
    let mut cfg = GuildConfig::new();
    cfg.set_channel("UJ", Some(1));
    cfg.set_channel("UJ", Some(2));
    assert_eq!(cfg.get_channel("UJ"), Some(2));
}

#[test]
fn clear_missing_key_is_harmless_but_dirties() {
    let mut cfg = GuildConfig::new();
    cfg.set_channel("UL", None);
    assert_eq!(cfg.get_channel("UL"), None);
    assert!(cfg.has_changed());
}

#[test]
fn clone_preserves_entries_and_flag() {
    let mut cfg = GuildConfig::new();
    cfg.set_channel("MD", Some(7));
    let copy = cfg.clone();
    assert_eq!(copy.get_channel("MD"), Some(7));
    assert!(copy.has_changed());
}

#[test]
fn channel_entries_exposes_stored_order() {
    let mut cfg = GuildConfig::new();
    cfg.set_channel("MD", Some(1));
    cfg.set_channel("MU", Some(2));
    let entries = cfg.channel_entries();
    assert_eq!(entries.len(), 2);
    assert_eq!(entries[0], ("MD".to_string(), 1));
    assert_eq!(entries[1], ("MU".to_string(), 2));
}
