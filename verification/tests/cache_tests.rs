use guild_config_cache::cache::{GuildConfigCache, CACHE_DURATION_IN_SECONDS};
use guild_config_cache::errors::{Error, LoadError};
use guild_config_cache::event::Event;
use guild_config_cache::store::ConfigStore;

#[test]
fn idle_duration_is_twenty_minutes() {
    assert_eq!(CACHE_DURATION_IN_SECONDS, 1200);
}

#[test]
fn unseen_guild_gets_empty_default_and_no_file() {
    let store = ConfigStore::new();
    let mut cache = GuildConfigCache::new();
    let cfg = cache.get_or_insert(&store, 7, 0).expect("a miss with no file creates a default");
    assert_eq!(cfg.get_channel("MD"), None);
    assert!(!cfg.has_changed());
    assert_eq!(store.file_contents(7), None);
}

#[test]
fn second_call_returns_the_cached_value() {
    let store = ConfigStore::new();
    let mut cache = GuildConfigCache::new();
    let first = cache.get_or_insert(&store, 7, 0).expect("first call");
    let second = cache.get_or_insert(&store, 7, 1).expect("second call");
    assert_eq!(first.get_channel("MD"), second.get_channel("MD"));
    assert_eq!(store.file_contents(7), None);
}

#[test]
fn unmutated_entry_is_never_persisted() {
    let mut store = ConfigStore::new();
    let mut cache = GuildConfigCache::new();
    cache.get_or_insert(&store, 7, 0).expect("miss creates default");
    cache.invalidate_all();
    cache.run_pending_tasks(&mut store, 0);
    assert_eq!(store.file_contents(7), None);
}

#[test]
fn mutate_insert_expire_drain_persists_record() {
    let mut store = ConfigStore::new();
    let mut cache = GuildConfigCache::new();
    let mut cfg = cache.get_or_insert(&store, 42, 0).expect("insert default for 42");
    cfg.set_channel(Event::MessageDelete.key(), Some(100));
    cache.insert(42, cfg, 0);
    cache.run_pending_tasks(&mut store, CACHE_DURATION_IN_SECONDS + 1);
    assert_eq!(store.file_contents(42), Some("{\"c\":{\"MD\":100}}".to_string()));
}

#[test]
fn invalid_file_fails_and_is_not_cached() {
    let mut store = ConfigStore::new();
    let mut cache = GuildConfigCache::new();
    store.write_file(9, "{ invalid".to_string());
    let err = cache.get_or_insert(&store, 9, 0).expect_err("parse failure surfaces");
    assert_eq!(err, Error::LoadError(LoadError::FailedDeserialization));
    store.write_file(9, "{\"c\":{\"UJ\":5}}".to_string());
    let cfg = cache.get_or_insert(&store, 9, 0).expect("the next call retries the load");
    assert_eq!(cfg.get_channel("UJ"), Some(5));
}

#[test]
fn invalidate_all_then_drain_persists_every_dirty_entry() {
    let mut store = ConfigStore::new();
    let mut cache = GuildConfigCache::new();
    let mut dirty = cache.get_or_insert(&store, 1, 0).expect("miss");
    dirty.set_channel("MD", Some(11));
    cache.insert(1, dirty, 0);
    cache.get_or_insert(&store, 2, 0).expect("miss stays clean");
    cache.invalidate_all();
    assert_eq!(store.file_contents(1), None, "invalidation only schedules; nothing is saved yet");
    cache.run_pending_tasks(&mut store, 0);
    assert_eq!(store.file_contents(1), Some("{\"c\":{\"MD\":11}}".to_string()));
    assert_eq!(store.file_contents(2), None);
}

#[test]
fn entry_survives_until_the_idle_boundary() {
    let store = ConfigStore::new();
    let mut cache = GuildConfigCache::new();
    let mut cfg = cache.get_or_insert(&store, 5, 0).expect("miss");
    cfg.set_channel("MU", Some(3));
    cache.insert(5, cfg, 0);
    let at_boundary = cache.get_or_insert(&store, 5, CACHE_DURATION_IN_SECONDS).expect("still resident");
    assert_eq!(at_boundary.get_channel("MU"), Some(3));
}

#[test]
fn expired_dirty_entry_is_saved_and_reloaded_from_disk() {
    let mut store = ConfigStore::new();
    let mut cache = GuildConfigCache::new();
    let mut cfg = cache.get_or_insert(&store, 5, 0).expect("miss");
    cfg.set_channel("MU", Some(3));
    cache.insert(5, cfg, 0);
    let after = cache
        .get_or_insert(&store, 5, CACHE_DURATION_IN_SECONDS + 1)
        .expect("expired entry reloads; no file yet, so a default");
    assert_eq!(after.get_channel("MU"), None);
    cache.run_pending_tasks(&mut store, CACHE_DURATION_IN_SECONDS + 1);
    assert_eq!(store.file_contents(5), Some("{\"c\":{\"MU\":3}}".to_string()));
}

#[test]
fn access_refreshes_the_idle_timer() {
    let mut store = ConfigStore::new();
    let mut cache = GuildConfigCache::new();
    let mut cfg = cache.get_or_insert(&store, 5, 0).expect("miss");
    cfg.set_channel("MU", Some(3));
    cache.insert(5, cfg, 0);
    cache.get_or_insert(&store, 5, 1000).expect("touch keeps it warm");
    let later = cache.get_or_insert(&store, 5, 2000).expect("still resident after refresh");
    assert_eq!(later.get_channel("MU"), Some(3));
    cache.run_pending_tasks(&mut store, 2000);
    assert_eq!(store.file_contents(5), None);
}

#[test]
fn concurrent_mutate_then_insert_loses_one_write() {
    let mut store = ConfigStore::new();
    let mut cache = GuildConfigCache::new();
    let mut first = cache.get_or_insert(&store, 1, 0).expect("first reader");
    let mut second = cache.get_or_insert(&store, 1, 0).expect("second reader");
    first.set_channel("MD", Some(1));
    second.set_channel("MU", Some(2));
    cache.insert(1, first, 0);
    cache.insert(1, second, 0);
    let final_cfg = cache.get_or_insert(&store, 1, 0).expect("resident");
    assert_eq!(final_cfg.get_channel("MD"), None);
    assert_eq!(final_cfg.get_channel("MU"), Some(2));
    cache.invalidate_all();
    cache.run_pending_tasks(&mut store, 0);
    assert_eq!(store.file_contents(1), Some("{\"c\":{\"MU\":2}}".to_string()));
}

#[test]
fn replaced_dirty_entry_is_dropped_without_saving() {
    let mut store = ConfigStore::new();
    let mut cache = GuildConfigCache::new();
    let mut cfg = cache.get_or_insert(&store, 3, 0).expect("miss");
    cfg.set_channel("MD", Some(9));
    cache.insert(3, cfg, 0);
    cache.insert(3, guild_config_cache::config::GuildConfig::default(), 0);
    cache.invalidate_all();
    cache.run_pending_tasks(&mut store, 0);
    assert_eq!(store.file_contents(3), None);
}

#[test]
fn failed_eviction_save_is_swallowed() {
    let mut store = ConfigStore::new();
    let mut cache = GuildConfigCache::new();
    let mut cfg = cache.get_or_insert(&store, 4, 0).expect("miss");
    cfg.set_channel("bad\"key", Some(1));
    cache.insert(4, cfg, 0);
    cache.invalidate_all();
    cache.run_pending_tasks(&mut store, 0);
    assert_eq!(store.file_contents(4), None);
}

#[test]
fn default_cache_matches_new() {
    let store = ConfigStore::new();
    let mut cache = GuildConfigCache::default();
    let cfg = cache.get_or_insert(&store, 1, 0).expect("fresh cache misses");
    assert!(!cfg.has_changed());
}
