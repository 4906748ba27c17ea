//! The guild configuration cache: an in-memory mapping from guild identifier
//! to configuration record, with idle-based expiration and write-back
//! persistence.
//!
//! Every operation that observes time takes the current time in seconds as an
//! argument and first processes expiry: an entry untouched for longer than
//! the idle duration leaves the residents and joins the save queue. The queue
//! is drained by [`GuildConfigCache::run_pending_tasks`], which persists each
//! dirty queued record through [`ConfigStore::save`] and swallows save
//! failures, as eviction can never fail. The only supported shutdown sequence
//! is [`GuildConfigCache::invalidate_all`] followed by
//! [`GuildConfigCache::run_pending_tasks`].

use vstd::prelude::*;

use crate::assoc;
use crate::codec;
use crate::config::GuildConfig;
use crate::errors::{Error, LoadError};
use crate::store::ConfigStore;

verus! {

/// How long an entry may sit unused before it is evicted.
pub const CACHE_DURATION_IN_SECONDS: u64 = 20 * 60;

/// Whether an entry last touched at `last` has outlived the idle duration
/// `idle` at time `now`.
pub open spec fn spec_expired(last: u64, idle: u64, now: u64) -> bool {
    now > last + idle
}

/// The in-memory cache of guild configuration records.
pub struct GuildConfigCache {
    entries: Vec<(u64, (GuildConfig, u64))>,
    pending: Vec<(u64, GuildConfig)>,
    idle_secs: u64,
}

impl GuildConfigCache {
    /// The resident entries: each guild's record and the time it was last
    /// touched.
    pub closed spec fn residents(self) -> Map<u64, (GuildConfig, u64)> {
        assoc::map_of(self.entries@)
    }

    /// The records queued for write-back, one per guild.
    pub closed spec fn pending_saves(self) -> Map<u64, GuildConfig> {
        assoc::map_of(self.pending@)
    }

    /// The idle duration, in seconds.
    pub closed spec fn idle_seconds(self) -> u64 {
        self.idle_secs
    }

    #[verifier::type_invariant]
    spec fn wf(self) -> bool {
        assoc::distinct_keys(self.entries@) && assoc::distinct_keys(self.pending@)
    }

    /// Whether the entry for `id` has expired by `now`.
    pub open spec fn expired(self, id: u64, now: u64) -> bool {
        self.residents().contains_key(id) && spec_expired(
            self.residents()[id].1,
            self.idle_seconds(),
            now,
        )
    }

    /// The entries still resident once expiry at `now` is processed.
    pub open spec fn swept_residents(self, now: u64) -> Map<u64, (GuildConfig, u64)> {
        self.residents().restrict(Set::new(|id: u64| !self.expired(id, now)))
    }

    /// The save queue once expiry at `now` is processed: an expired entry's
    /// record is queued, replacing any older task for the same guild.
    pub open spec fn swept_pending(self, now: u64) -> Map<u64, GuildConfig> {
        Map::new(
            |id: u64| self.pending_saves().contains_key(id) || self.expired(id, now),
            |id: u64|
                if self.expired(id, now) {
                    self.residents()[id].0
                } else {
                    self.pending_saves()[id]
                },
        )
    }

    /// An empty cache with the configured idle duration.
    pub fn new() -> (r: Self)
        ensures
            r.residents() == Map::<u64, (GuildConfig, u64)>::empty(),
            r.pending_saves() == Map::<u64, GuildConfig>::empty(),
            r.idle_seconds() == CACHE_DURATION_IN_SECONDS,
    {
        let r = GuildConfigCache {
            entries: Vec::new(),
            pending: Vec::new(),
            idle_secs: CACHE_DURATION_IN_SECONDS,
        };
        proof {
            assert(r.residents() =~= Map::<u64, (GuildConfig, u64)>::empty());
            assert(r.pending_saves() =~= Map::<u64, GuildConfig>::empty());
        }
        r
    }

    /// Moves every entry that has expired by `now` out of the residents and
    /// into the save queue.
    fn sweep(&mut self, now: u64)
        ensures
            final(self).residents() == old(self).swept_residents(now),
            final(self).pending_saves() == old(self).swept_pending(now),
            final(self).idle_seconds() == old(self).idle_seconds(),
    {
        proof {
            use_type_invariant(&*self);
        }
        let ghost orig = *self;
        let mut entries: Vec<(u64, (GuildConfig, u64))> = Vec::new();
        std::mem::swap(&mut entries, &mut self.entries);
        let mut pending: Vec<(u64, GuildConfig)> = Vec::new();
        std::mem::swap(&mut pending, &mut self.pending);
        let idle = self.idle_secs;
        let ghost mut evicted: Set<u64> = Set::empty();
        proof {
            assert(assoc::map_of(entries@) =~= orig.residents().remove_keys(evicted));
            assert(assoc::map_of(pending@) =~= Map::new(
                |id: u64| orig.pending_saves().contains_key(id) || evicted.contains(id),
                |id: u64|
                    if evicted.contains(id) {
                        orig.residents()[id].0
                    } else {
                        orig.pending_saves()[id]
                    },
            ));
        }
        let mut i: usize = 0;
        while i < entries.len()
            invariant
                i <= entries.len(),
                idle == orig.idle_secs,
                assoc::distinct_keys(entries@),
                assoc::distinct_keys(pending@),
                forall|id: u64|
                    #[trigger] evicted.contains(id) ==> orig.residents().contains_key(id)
                        && orig.expired(id, now),
                assoc::map_of(entries@) == orig.residents().remove_keys(evicted),
                assoc::map_of(pending@) == Map::new(
                    |id: u64| orig.pending_saves().contains_key(id) || evicted.contains(id),
                    |id: u64|
                        if evicted.contains(id) {
                            orig.residents()[id].0
                        } else {
                            orig.pending_saves()[id]
                        },
                ),
                forall|t: int|
                    0 <= t < i ==> !spec_expired((#[trigger] entries@[t]).1.1, idle, now),
            decreases entries.len() - i,
        {
            let last = entries[i].1.1;
            let is_expired = now > last && now - last > idle;
            proof {
                assert(is_expired == spec_expired(last, idle, now));
            }
            if is_expired {
                let ghost es = entries@;
                let id = entries[i].0;
                proof {
                    assoc::lemma_map_of_index(es, i as int);
                    assert(orig.residents().remove_keys(evicted).contains_key(id));
                    assert(orig.residents().contains_key(id));
                    assert(orig.residents()[id] == es[i as int].1);
                    assert(orig.expired(id, now));
                    assert(!evicted.contains(id));
                }
                let e = entries.remove(i);
                proof {
                    assoc::lemma_map_of_remove(es, i as int);
                    assoc::lemma_distinct_remove(es, i as int);
                }
                assoc::put(&mut pending, e.0, e.1.0);
                proof {
                    let evicted2 = evicted.insert(id);
                    assert(assoc::map_of(entries@) =~= orig.residents().remove_keys(evicted2));
                    assert(assoc::map_of(pending@) =~= Map::new(
                        |id2: u64| orig.pending_saves().contains_key(id2) || evicted2.contains(
                            id2,
                        ),
                        |id2: u64|
                            if evicted2.contains(id2) {
                                orig.residents()[id2].0
                            } else {
                                orig.pending_saves()[id2]
                            },
                    ));
                    evicted = evicted2;
                }
            } else {
                i = i + 1;
            }
        }
        proof {
            assert forall|id: u64| #[trigger]
                orig.residents().contains_key(id) && orig.expired(id, now) implies evicted.contains(
                id,
            ) by {
                if !evicted.contains(id) {
                    assert(assoc::map_of(entries@).contains_key(id));
                    assoc::lemma_map_of_contains(entries@, id);
                    let t = choose|t: int| 0 <= t < entries@.len() && (#[trigger] entries@[t]).0
                        == id;
                    assoc::lemma_map_of_index(entries@, t);
                    assert(entries@[t].1 == orig.residents()[id]);
                    assert(!spec_expired(entries@[t].1.1, idle, now));
                }
            }
            assert(assoc::map_of(entries@) =~= orig.swept_residents(now));
            assert(assoc::map_of(pending@) =~= orig.swept_pending(now));
        }
        self.entries = entries;
        self.pending = pending;
    }

    /// Returns the record for `id`: the cached one if it is resident (its
    /// idle timer restarts), else the one loaded from the store — the file's
    /// record if a file exists, a default record otherwise. A file outside
    /// the grammar fails, and nothing is cached for `id`, so a later call
    /// retries the load. No call ever touches the store's files.
    pub fn get_or_insert(&mut self, store: &ConfigStore, id: u64, now: u64) -> (r: Result<
        GuildConfig,
        Error,
    >)
        ensures
            final(self).idle_seconds() == old(self).idle_seconds(),
            final(self).pending_saves() == old(self).swept_pending(now),
            ({
                let sr = old(self).swept_residents(now);
                match r {
                    Ok(cfg) => if sr.contains_key(id) {
                        &&& cfg.entries() == sr[id].0.entries()
                        &&& cfg.dirty() == sr[id].0.dirty()
                        &&& final(self).residents() == sr.insert(id, (sr[id].0, now))
                    } else {
                        &&& !cfg.dirty()
                        &&& if store.files().contains_key(id) {
                            codec::parse_config(store.files()[id]) == Some(cfg.entries())
                        } else {
                            cfg.entries() == Seq::<(Seq<char>, u64)>::empty()
                        }
                        &&& final(self).residents().contains_key(id)
                        &&& final(self).residents()[id].1 == now
                        &&& final(self).residents()[id].0.entries() == cfg.entries()
                        &&& !final(self).residents()[id].0.dirty()
                        &&& final(self).residents().remove(id) == sr
                    },
                    Err(e) => match e {
                        Error::LoadError(le) => {
                            &&& le == LoadError::FailedDeserialization
                            &&& !sr.contains_key(id)
                            &&& store.files().contains_key(id)
                            &&& codec::parse_config(store.files()[id]) is None
                            &&& final(self).residents() == sr
                        },
                        Error::SaveError(_) => false,
                    },
                }
            }),
    {
        self.sweep(now);
        proof {
            use_type_invariant(&*self);
        }
        let ghost sr = self.residents();
        let found = assoc::find_index(&self.entries, id);
        match found {
            Some(t) => {
                proof {
                    assoc::lemma_map_of_index(self.entries@, t as int);
                }
                let ghost es = self.entries@;
                let mut entries: Vec<(u64, (GuildConfig, u64))> = Vec::new();
                std::mem::swap(&mut entries, &mut self.entries);
                let e = entries.remove(t);
                proof {
                    assoc::lemma_map_of_remove(es, t as int);
                    assoc::lemma_distinct_remove(es, t as int);
                    assoc::lemma_map_of_contains(es.remove(t as int), id);
                    assert(!assoc::keys_contain(es.remove(t as int), id)) by {
                        assert(assoc::map_of(es.remove(t as int)) == assoc::map_of(es).remove(
                            id,
                        ));
                    }
                }
                let ret = e.1.0.clone();
                entries.push((e.0, (e.1.0, now)));
                proof {
                    let es2 = entries@;
                    assert(es2.drop_last() =~= es.remove(t as int));
                    assert(assoc::distinct_keys(es2)) by {
                        assert(forall|a: int|
                            0 <= a < es2.len() - 1 ==> (#[trigger] es2[a]) == es.remove(
                                t as int,
                            )[a]);
                        if !assoc::distinct_keys(es2) {
                            let (a, b) = choose|a: int, b: int|
                                0 <= a < b < es2.len() && (#[trigger] es2[a]).0 == (
                                #[trigger] es2[b]).0;
                            assert(assoc::keys_contain(es.remove(t as int), id));
                        }
                    }
                    assert(assoc::map_of(entries@) =~= sr.insert(id, (es[t as int].1.0, now)));
                }
                self.entries = entries;
                Ok(ret)
            },
            None => {
                proof {
                    assoc::lemma_map_of_contains(self.entries@, id);
                }
                match store.load(id, true) {
                    Ok(cfg) => {
                        let ret = cfg.clone();
                        let ghost es = self.entries@;
                        let mut entries: Vec<(u64, (GuildConfig, u64))> = Vec::new();
                        std::mem::swap(&mut entries, &mut self.entries);
                        entries.push((id, (cfg, now)));
                        proof {
                            let es2 = entries@;
                            assert(es2.drop_last() =~= es);
                            assert(assoc::distinct_keys(es2)) by {
                                assert(forall|a: int|
                                    0 <= a < es.len() ==> (#[trigger] es2[a]) == es[a]);
                            }
                            assert(assoc::map_of(es2) =~= sr.insert(id, (es2.last().1.0, now)));
                            assert(assoc::map_of(es2).remove(id) =~= sr);
                        }
                        self.entries = entries;
                        Ok(ret)
                    },
                    Err(le) => {
                        proof {
                            assert(le == LoadError::FailedDeserialization);
                        }
                        Err(Error::LoadError(le))
                    },
                }
            },
        }
    }

    /// Unconditional upsert: the record becomes resident for `id` with a
    /// fresh idle timer, replacing any resident record. The replaced record
    /// is dropped without being queued for saving.
    pub fn insert(&mut self, id: u64, config: GuildConfig, now: u64)
        ensures
            final(self).residents() == old(self).swept_residents(now).insert(id, (config, now)),
            final(self).pending_saves() == old(self).swept_pending(now),
            final(self).idle_seconds() == old(self).idle_seconds(),
    {
        self.sweep(now);
        proof {
            use_type_invariant(&*self);
        }
        let mut entries: Vec<(u64, (GuildConfig, u64))> = Vec::new();
        std::mem::swap(&mut entries, &mut self.entries);
        assoc::put(&mut entries, id, (config, now));
        self.entries = entries;
    }

    /// Schedules every resident entry for eviction: the residents empty into
    /// the save queue at once. Nothing is saved yet; the queue is drained by
    /// `run_pending_tasks`.
    pub fn invalidate_all(&mut self)
        ensures
            final(self).residents() == Map::<u64, (GuildConfig, u64)>::empty(),
            final(self).pending_saves() == Map::new(
                |id: u64| old(self).pending_saves().contains_key(id) || old(
                    self,
                ).residents().contains_key(id),
                |id: u64|
                    if old(self).residents().contains_key(id) {
                        old(self).residents()[id].0
                    } else {
                        old(self).pending_saves()[id]
                    },
            ),
            final(self).idle_seconds() == old(self).idle_seconds(),
    {
        proof {
            use_type_invariant(&*self);
        }
        let ghost orig = *self;
        let mut entries: Vec<(u64, (GuildConfig, u64))> = Vec::new();
        std::mem::swap(&mut entries, &mut self.entries);
        let mut pending: Vec<(u64, GuildConfig)> = Vec::new();
        std::mem::swap(&mut pending, &mut self.pending);
        let ghost mut moved: Set<u64> = Set::empty();
        proof {
            assert(assoc::map_of(entries@) =~= orig.residents().remove_keys(moved));
            assert(assoc::map_of(pending@) =~= Map::new(
                |id: u64| orig.pending_saves().contains_key(id) || moved.contains(id),
                |id: u64|
                    if moved.contains(id) {
                        orig.residents()[id].0
                    } else {
                        orig.pending_saves()[id]
                    },
            ));
        }
        while entries.len() > 0
            invariant
                assoc::distinct_keys(entries@),
                assoc::distinct_keys(pending@),
                forall|id: u64| #[trigger]
                    moved.contains(id) ==> orig.residents().contains_key(id),
                assoc::map_of(entries@) == orig.residents().remove_keys(moved),
                assoc::map_of(pending@) == Map::new(
                    |id: u64| orig.pending_saves().contains_key(id) || moved.contains(id),
                    |id: u64|
                        if moved.contains(id) {
                            orig.residents()[id].0
                        } else {
                            orig.pending_saves()[id]
                        },
                ),
            decreases entries.len(),
        {
            let ghost es = entries@;
            let e = entries.pop().unwrap();
            proof {
                assert(e == es.last());
                assoc::lemma_map_of_index(es, es.len() - 1);
                assert(orig.residents().remove_keys(moved).contains_key(e.0));
                assert(!moved.contains(e.0));
                assoc::lemma_distinct_drop_last(es);
            }
            let ghost id = e.0;
            assoc::put(&mut pending, e.0, e.1.0);
            proof {
                let moved2 = moved.insert(id);
                assert(assoc::map_of(entries@) =~= orig.residents().remove_keys(moved2));
                assert(assoc::map_of(pending@) =~= Map::new(
                    |id2: u64| orig.pending_saves().contains_key(id2) || moved2.contains(id2),
                    |id2: u64|
                        if moved2.contains(id2) {
                            orig.residents()[id2].0
                        } else {
                            orig.pending_saves()[id2]
                        },
                ));
                moved = moved2;
            }
        }
        proof {
            assert(entries@.len() == 0);
            assert(assoc::map_of(entries@) =~= Map::<u64, (GuildConfig, u64)>::empty());
            assert forall|id: u64| #[trigger]
                orig.residents().contains_key(id) implies moved.contains(id) by {
                if !moved.contains(id) {
                    assert(orig.residents().remove_keys(moved).contains_key(id));
                }
            }
            assert(assoc::map_of(pending@) =~= Map::new(
                |id: u64| orig.pending_saves().contains_key(id) || orig.residents().contains_key(
                    id,
                ),
                |id: u64|
                    if orig.residents().contains_key(id) {
                        orig.residents()[id].0
                    } else {
                        orig.pending_saves()[id]
                    },
            ));
        }
        self.entries = entries;
        self.pending = pending;
    }

    /// Drains the save queue: processes expiry at `now`, then saves every
    /// queued dirty record through the store, swallowing save failures.
    /// When this returns, every record queued before the call is durable in
    /// the store (or was clean, or could not be encoded), and the queue is
    /// empty.
    pub fn run_pending_tasks(&mut self, store: &mut ConfigStore, now: u64)
        ensures
            final(self).residents() == old(self).swept_residents(now),
            final(self).pending_saves() == Map::<u64, GuildConfig>::empty(),
            final(self).idle_seconds() == old(self).idle_seconds(),
            ({
                let sp = old(self).swept_pending(now);
                &&& forall|id: u64|
                    sp.contains_key(id) && (#[trigger] sp[id]).dirty() && codec::valid_keys(
                        sp[id].entries(),
                    ) ==> final(store).files().contains_key(id) && final(store).files()[id]
                        == codec::encode_config(sp[id].entries())
                &&& forall|id: u64|
                    !(#[trigger] sp.contains_key(id) && sp[id].dirty() && codec::valid_keys(
                        sp[id].entries(),
                    )) ==> (final(store).files().contains_key(id) <==> old(
                        store,
                    ).files().contains_key(id)) && (old(store).files().contains_key(id)
                        ==> final(store).files()[id] == old(store).files()[id])
            }),
    {
        self.sweep(now);
        proof {
            use_type_invariant(&*self);
        }
        let ghost sp = self.pending_saves();
        let ghost files0 = store.files();
        let mut pending: Vec<(u64, GuildConfig)> = Vec::new();
        std::mem::swap(&mut pending, &mut self.pending);
        let ghost mut done: Set<u64> = Set::empty();
        proof {
            assert(assoc::map_of(pending@) =~= sp.remove_keys(done));
        }
        while pending.len() > 0
            invariant
                assoc::distinct_keys(pending@),
                assoc::map_of(pending@) == sp.remove_keys(done),
                forall|id: u64| #[trigger] done.contains(id) ==> sp.contains_key(id),
                forall|id: u64|
                    #[trigger] done.contains(id) && sp[id].dirty() && codec::valid_keys(
                        sp[id].entries(),
                    ) ==> store.files().contains_key(id) && store.files()[id]
                        == codec::encode_config(sp[id].entries()),
                forall|id: u64|
                    !(#[trigger] done.contains(id) && sp[id].dirty() && codec::valid_keys(
                        sp[id].entries(),
                    )) ==> (store.files().contains_key(id) <==> files0.contains_key(id)) && (
                    files0.contains_key(id) ==> store.files()[id] == files0[id]),
            decreases pending.len(),
        {
            let ghost ps = pending@;
            let task = pending.pop().unwrap();
            proof {
                assert(task == ps.last());
                assoc::lemma_map_of_index(ps, ps.len() - 1);
                assert(sp.remove_keys(done).contains_key(task.0));
                assert(!done.contains(task.0));
                assert(sp[task.0] == task.1);
                assoc::lemma_distinct_drop_last(ps);
            }
            let ghost id = task.0;
            let _ = store.save(task.0, &task.1);
            proof {
                let done2 = done.insert(id);
                assert(assoc::map_of(pending@) =~= sp.remove_keys(done2));
                done = done2;
            }
        }
        proof {
            assert(assoc::map_of(pending@) =~= Map::<u64, GuildConfig>::empty());
            assert forall|id: u64| #[trigger] sp.contains_key(id) implies done.contains(id) by {
                if !done.contains(id) {
                    assert(sp.remove_keys(done).contains_key(id));
                }
            }
            assert forall|id: u64|
                sp.contains_key(id) && (#[trigger] sp[id]).dirty() && codec::valid_keys(
                    sp[id].entries(),
                ) implies store.files().contains_key(id) && store.files()[id]
                == codec::encode_config(sp[id].entries()) by {
                assert(done.contains(id));
            }
            assert forall|id: u64|
                !(#[trigger] sp.contains_key(id) && sp[id].dirty() && codec::valid_keys(
                    sp[id].entries(),
                )) implies (store.files().contains_key(id) <==> files0.contains_key(id)) && (
            files0.contains_key(id) ==> store.files()[id] == files0[id]) by {
                if done.contains(id) {
                    assert(sp.contains_key(id));
                    assert(!(done.contains(id) && sp[id].dirty() && codec::valid_keys(
                        sp[id].entries(),
                    )));
                } else {
                    assert(!(done.contains(id) && sp[id].dirty() && codec::valid_keys(
                        sp[id].entries(),
                    )));
                }
            }
        }
        self.pending = pending;
    }
}

impl Default for GuildConfigCache {
    /// An empty cache with the configured idle duration.
    fn default() -> (r: Self)
        ensures
            r.residents() == Map::<u64, (GuildConfig, u64)>::empty(),
            r.pending_saves() == Map::<u64, GuildConfig>::empty(),
            r.idle_seconds() == CACHE_DURATION_IN_SECONDS,
    {
        Self::new()
    }
}

} // verus!
