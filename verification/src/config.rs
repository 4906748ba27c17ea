//! One guild's configuration record: a mapping from short event keys to
//! channel identifiers, together with a transient dirty flag that is set by
//! every mutation and never persisted.

use vstd::prelude::*;

use crate::assoc;
use crate::codec;

verus! {

/// One guild's configuration: the channel mapping and the dirty flag.
#[derive(Debug)]
pub struct GuildConfig {
    channels: Vec<(String, u64)>,
    has_changed: bool,
}

impl GuildConfig {
    /// The channel entries, in their stored order.
    pub closed spec fn entries(self) -> Seq<(Seq<char>, u64)> {
        codec::entry_views(self.channels@)
    }

    /// The channel mapping this record holds.
    pub open spec fn channel_map(self) -> Map<Seq<char>, u64> {
        assoc::map_of(self.entries())
    }

    /// Whether the record was mutated since it was last loaded or saved.
    pub closed spec fn dirty(self) -> bool {
        self.has_changed
    }

    #[verifier::type_invariant]
    spec fn wf(self) -> bool {
        assoc::distinct_keys(self.entries())
    }

    /// An empty, clean record.
    pub fn new() -> (r: Self)
        ensures
            r.channel_map() == Map::<Seq<char>, u64>::empty(),
            r.entries() == Seq::<(Seq<char>, u64)>::empty(),
            !r.dirty(),
    {
        let r = GuildConfig { channels: Vec::new(), has_changed: false };
        proof {
            assert(r.entries() =~= Seq::<(Seq<char>, u64)>::empty());
            assert(r.channel_map() =~= Map::<Seq<char>, u64>::empty());
        }
        r
    }

    /// A clean record holding the given entries.
    pub fn from_entries(entries: Vec<(String, u64)>) -> (r: Self)
        requires
            assoc::distinct_keys(codec::entry_views(entries@)),
        ensures
            r.entries() == codec::entry_views(entries@),
            !r.dirty(),
    {
        GuildConfig { channels: entries, has_changed: false }
    }

    /// Whether the record was mutated since it was last loaded or saved.
    pub fn has_changed(&self) -> (r: bool)
        ensures
            r == self.dirty(),
    {
        self.has_changed
    }

    /// The entries as stored, for encoding or for walking the record.
    pub fn channel_entries(&self) -> (r: &Vec<(String, u64)>)
        ensures
            codec::entry_views(r@) == self.entries(),
            assoc::distinct_keys(self.entries()),
    {
        proof {
            use_type_invariant(self);
        }
        &self.channels
    }

    /// The channel configured for `key`, if any.
    pub fn get_channel(&self, key: &str) -> (r: Option<u64>)
        ensures
            r == if self.channel_map().contains_key(key@) {
                Some(self.channel_map()[key@])
            } else {
                None::<u64>
            },
    {
        proof {
            use_type_invariant(self);
        }
        let k = key.to_owned();
        let mut i: usize = 0;
        while i < self.channels.len()
            invariant
                i <= self.channels.len(),
                k@ == key@,
                self.wf(),
                forall|t: int| 0 <= t < i ==> (#[trigger] self.entries()[t]).0 != key@,
            decreases self.channels.len() - i,
        {
            if self.channels[i].0 == k {
                proof {
                    assert(self.entries()[i as int].0 == key@);
                    assoc::lemma_map_of_index(self.entries(), i as int);
                }
                return Some(self.channels[i].1);
            }
            proof {
                assert(self.entries()[i as int].0 != key@);
            }
            i = i + 1;
        }
        proof {
            assoc::lemma_map_of_contains(self.entries(), key@);
            if assoc::keys_contain(self.entries(), key@) {
                let t = choose|t: int|
                    0 <= t < self.entries().len() && (#[trigger] self.entries()[t]).0 == key@;
            }
        }
        None
    }

    /// Sets (`Some`) or clears (`None`) the channel for `key`, and marks the
    /// record dirty.
    pub fn set_channel(&mut self, key: &str, channel_id: Option<u64>)
        ensures
            final(self).dirty(),
            final(self).channel_map() == match channel_id {
                Some(x) => old(self).channel_map().insert(key@, x),
                None => old(self).channel_map().remove(key@),
            },
    {
        proof {
            use_type_invariant(&*self);
        }
        let k = key.to_owned();
        let ghost es = self.entries();
        let mut i: usize = 0;
        let mut found: Option<usize> = None;
        while i < self.channels.len()
            invariant
                i <= self.channels.len(),
                k@ == key@,
                es == self.entries(),
                assoc::distinct_keys(es),
                match found {
                    Some(t) => t < i && es[t as int].0 == key@,
                    None => forall|t: int| 0 <= t < i ==> (#[trigger] es[t]).0 != key@,
                },
            decreases self.channels.len() - i,
        {
            if found.is_none() && self.channels[i].0 == k {
                proof {
                    assert(es[i as int].0 == key@);
                }
                found = Some(i);
            }
            i = i + 1;
        }
        proof {
            assoc::lemma_map_of_contains(es, key@);
            if found is None && assoc::keys_contain(es, key@) {
                let t = choose|t: int| 0 <= t < es.len() && (#[trigger] es[t]).0 == key@;
            }
        }
        let mut channels: Vec<(String, u64)> = Vec::new();
        std::mem::swap(&mut channels, &mut self.channels);
        proof {
            assert(self.entries() =~= Seq::<(Seq<char>, u64)>::empty());
        }
        match channel_id {
            Some(x) => {
                match found {
                    Some(t) => {
                        let entry_key = k;
                        channels.set(t, (entry_key, x));
                        proof {
                            assert(codec::entry_views(channels@) =~= es.update(
                                t as int,
                                (es[t as int].0, x),
                            ));
                            assoc::lemma_map_of_update(es, t as int, x);
                            assert(assoc::distinct_keys(codec::entry_views(channels@))) by {
                                assert(forall|a: int|
                                    0 <= a < es.len() ==> (#[trigger] codec::entry_views(
                                        channels@,
                                    )[a]).0 == es[a].0);
                            }
                        }
                    },
                    None => {
                        channels.push((k, x));
                        proof {
                            assert(codec::entry_views(channels@) =~= es.push((key@, x)));
                            assert(codec::entry_views(channels@).drop_last() =~= es);
                            assert(assoc::distinct_keys(codec::entry_views(channels@))) by {
                                assert(forall|a: int|
                                    0 <= a < es.len() ==> (#[trigger] codec::entry_views(
                                        channels@,
                                    )[a]) == es[a]);
                            }
                            assert(assoc::map_of(codec::entry_views(channels@)) =~= assoc::map_of(es).insert(
                                key@,
                                x,
                            ));
                        }
                    },
                }
            },
            None => {
                match found {
                    Some(t) => {
                        channels.remove(t);
                        proof {
                            assert(codec::entry_views(channels@) =~= es.remove(t as int));
                            assoc::lemma_map_of_remove(es, t as int);
                            assoc::lemma_distinct_remove(es, t as int);
                        }
                    },
                    None => {
                        proof {
                            assert(assoc::map_of(es).remove(key@) =~= assoc::map_of(es));
                        }
                    },
                }
            },
        }
        self.channels = channels;
        self.has_changed = true;
    }
}

impl Clone for GuildConfig {
    /// An exact copy: the same entries, the same dirty flag.
    fn clone(&self) -> (r: Self)
        ensures
            r.entries() == self.entries(),
            r.dirty() == self.dirty(),
    {
        proof {
            use_type_invariant(self);
        }
        let mut channels: Vec<(String, u64)> = Vec::new();
        let mut i: usize = 0;
        while i < self.channels.len()
            invariant
                i <= self.channels.len(),
                channels@ =~= self.channels@.take(i as int),
            decreases self.channels.len() - i,
        {
            let key = self.channels[i].0.clone();
            channels.push((key, self.channels[i].1));
            proof {
                assert(channels@ =~= self.channels@.take(i as int + 1));
            }
            i = i + 1;
        }
        proof {
            assert(channels@ =~= self.channels@);
            assert(codec::entry_views(channels@) =~= codec::entry_views(self.channels@));
        }
        GuildConfig { channels, has_changed: self.has_changed }
    }
}

impl Default for GuildConfig {
    /// An empty, clean record.
    fn default() -> (r: Self)
        ensures
            r.channel_map() == Map::<Seq<char>, u64>::empty(),
            r.entries() == Seq::<(Seq<char>, u64)>::empty(),
            !r.dirty(),
    {
        Self::new()
    }
}

} // verus!
