//! The crate-level guarantees, stated and proved over the same spec
//! functions and views that the executable functions' contracts use. Each
//! law's premises are exactly what the contracts of the functions it speaks
//! of ensure.

use vstd::prelude::*;

use crate::assoc;
use crate::cache::GuildConfigCache;
use crate::codec;
use crate::config::GuildConfig;
use crate::store::ConfigStore;

verus! {

/// Saving a dirty record and loading it back yields the same channel
/// mapping (the dirty flag aside: what is loaded is always clean).
///
/// `store1` is any store on which `ConfigStore::save(id, cfg)` has just
/// returned `Ok(true)` against `store0`, and `loaded` any record that
/// `ConfigStore::load(id, _)` then returns `Ok` on `store1`, both
/// characterised exactly by those functions' contracts.
pub proof fn lemma_save_load_round_trip(
    store0: ConfigStore,
    store1: ConfigStore,
    id: u64,
    cfg: GuildConfig,
    loaded: GuildConfig,
)
    requires
        cfg.dirty(),
        codec::valid_keys(cfg.entries()),
        assoc::distinct_keys(cfg.entries()),
        store1.files() == store0.files().insert(id, codec::encode_config(cfg.entries())),
        store1.files().contains_key(id) ==> codec::parse_config(store1.files()[id]) == Some(
            loaded.entries(),
        ),
    ensures
        loaded.entries() == cfg.entries(),
        loaded.channel_map() == cfg.channel_map(),
{
    codec::lemma_parse_encode(cfg.entries());
    assert(store1.files().contains_key(id));
    assert(store1.files()[id] == codec::encode_config(cfg.entries()));
}

/// Setting a channel for a key and then clearing the same key leaves that
/// key absent from the mapping, with the record marked dirty.
///
/// `cfg1` is any record that `set_channel(key, Some(x))` leaves behind, and
/// `cfg2` any record that `set_channel(key, None)` then leaves behind, both
/// characterised exactly by `set_channel`'s contract.
pub proof fn lemma_set_then_clear(
    cfg0: GuildConfig,
    cfg1: GuildConfig,
    cfg2: GuildConfig,
    key: Seq<char>,
    x: u64,
)
    requires
        cfg1.channel_map() == cfg0.channel_map().insert(key, x),
        cfg1.dirty(),
        cfg2.channel_map() == cfg1.channel_map().remove(key),
        cfg2.dirty(),
    ensures
        !cfg2.channel_map().contains_key(key),
        cfg2.dirty(),
{
}

/// Within the idle window, a later call is served from memory: once a call
/// of `get_or_insert` leaves an entry for `id` resident with its timer at
/// `now`, any call up to `idle_seconds` later finds it resident and is
/// returned the same record, touching no file.
///
/// `cache1` is the cache after the first call, and `cfg2` any record that a
/// second call at `now2` returns, both characterised exactly by
/// `get_or_insert`'s contract.
pub proof fn lemma_second_call_is_served_from_memory(
    cache1: GuildConfigCache,
    id: u64,
    now: u64,
    now2: u64,
    cfg1: GuildConfig,
    cfg2: GuildConfig,
)
    requires
        cache1.residents().contains_key(id),
        cache1.residents()[id].1 == now,
        cache1.residents()[id].0.entries() == cfg1.entries(),
        now <= now2 <= now + cache1.idle_seconds(),
        cache1.swept_residents(now2).contains_key(id) ==> cfg2.entries()
            == cache1.swept_residents(now2)[id].0.entries(),
    ensures
        cache1.swept_residents(now2).contains_key(id),
        cfg2.entries() == cfg1.entries(),
{
    assert(!cache1.expired(id, now2));
}

/// Draining after `invalidate_all` durably persists every record that was
/// dirty (and encodable) at invalidation time.
///
/// `cache1` is any cache that `invalidate_all` leaves behind on `cache0`,
/// and `store1` any store that `run_pending_tasks(store0, now)` then leaves
/// behind, both characterised exactly by those functions' contracts.
pub proof fn lemma_drain_persists_dirty(
    cache0: GuildConfigCache,
    cache1: GuildConfigCache,
    store0: ConfigStore,
    store1: ConfigStore,
    now: u64,
    id: u64,
)
    requires
        cache1.residents() == Map::<u64, (GuildConfig, u64)>::empty(),
        cache1.pending_saves() == Map::new(
            |id2: u64| cache0.pending_saves().contains_key(id2) || cache0.residents().contains_key(
                id2,
            ),
            |id2: u64|
                if cache0.residents().contains_key(id2) {
                    cache0.residents()[id2].0
                } else {
                    cache0.pending_saves()[id2]
                },
        ),
        forall|id2: u64|
            cache1.swept_pending(now).contains_key(id2) && (#[trigger] cache1.swept_pending(
                now,
            )[id2]).dirty() && codec::valid_keys(cache1.swept_pending(now)[id2].entries())
                ==> store1.files().contains_key(id2) && store1.files()[id2]
                == codec::encode_config(cache1.swept_pending(now)[id2].entries()),
        cache0.residents().contains_key(id),
        cache0.residents()[id].0.dirty(),
        codec::valid_keys(cache0.residents()[id].0.entries()),
    ensures
        store1.files().contains_key(id),
        store1.files()[id] == codec::encode_config(cache0.residents()[id].0.entries()),
{
    let sp = cache1.swept_pending(now);
    assert(!cache1.expired(id, now));
    assert(sp.contains_key(id));
    assert(sp[id] == cache0.residents()[id].0);
}

/// A record that was never mutated is never written: draining a cache whose
/// entry for `id` is clean leaves the store's file for `id` exactly as it
/// was — in particular, a default record created by a miss of
/// `get_or_insert` makes no file until it is mutated and evicted.
///
/// The premises characterise `invalidate_all` and `run_pending_tasks`
/// exactly as in [`lemma_drain_persists_dirty`], with the entry clean.
pub proof fn lemma_clean_record_never_written(
    cache0: GuildConfigCache,
    cache1: GuildConfigCache,
    store0: ConfigStore,
    store1: ConfigStore,
    now: u64,
    id: u64,
)
    requires
        cache1.residents() == Map::<u64, (GuildConfig, u64)>::empty(),
        cache1.pending_saves() == Map::new(
            |id2: u64| cache0.pending_saves().contains_key(id2) || cache0.residents().contains_key(
                id2,
            ),
            |id2: u64|
                if cache0.residents().contains_key(id2) {
                    cache0.residents()[id2].0
                } else {
                    cache0.pending_saves()[id2]
                },
        ),
        forall|id2: u64|
            !(#[trigger] cache1.swept_pending(now).contains_key(id2) && cache1.swept_pending(
                now,
            )[id2].dirty() && codec::valid_keys(cache1.swept_pending(now)[id2].entries())) ==> (
            store1.files().contains_key(id2) <==> store0.files().contains_key(id2)) && (
            store0.files().contains_key(id2) ==> store1.files()[id2] == store0.files()[id2]),
        cache0.residents().contains_key(id),
        !cache0.residents()[id].0.dirty(),
    ensures
        store1.files().contains_key(id) <==> store0.files().contains_key(id),
        store0.files().contains_key(id) ==> store1.files()[id] == store0.files()[id],
{
    let sp = cache1.swept_pending(now);
    assert(!cache1.expired(id, now));
    assert(sp.contains_key(id));
    assert(sp[id] == cache0.residents()[id].0);
    assert(!sp[id].dirty());
}

} // verus!
