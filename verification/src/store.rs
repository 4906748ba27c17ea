//! The record store: one file per guild, named after the guild identifier,
//! holding the record in the format of [`crate::codec`].
//!
//! The store keeps the files as in-memory contents keyed by guild identifier;
//! the surrounding program mirrors them to the `configs` directory, reading a
//! guild's file into the store before a load and writing changed contents
//! back after a save.

use vstd::prelude::*;

use crate::assoc;
use crate::codec;
use crate::config::GuildConfig;
use crate::errors::{LoadError, SaveError};

verus! {

/// Where a guild's record file lives, relative to the working directory.
pub open spec fn path_spec(id: u64) -> Seq<char> {
    "configs/"@ + codec::dec_digits(id as nat) + ".json"@
}

/// The record files, keyed by guild identifier.
pub struct ConfigStore {
    files: Vec<(u64, String)>,
}

impl ConfigStore {
    /// The contents of each existing file.
    pub closed spec fn file_entries(self) -> Seq<(u64, Seq<char>)> {
        self.files@.map_values(|p: (u64, String)| (p.0, p.1@))
    }

    /// The files as a map from guild identifier to contents.
    pub open spec fn files(self) -> Map<u64, Seq<char>> {
        assoc::map_of(self.file_entries())
    }

    #[verifier::type_invariant]
    spec fn wf(self) -> bool {
        assoc::distinct_keys(self.file_entries())
    }

    /// An empty store: no file exists yet.
    pub fn new() -> (r: Self)
        ensures
            r.files() == Map::<u64, Seq<char>>::empty(),
    {
        let r = ConfigStore { files: Vec::new() };
        proof {
            assert(r.file_entries() =~= Seq::<(u64, Seq<char>)>::empty());
            assert(r.files() =~= Map::<u64, Seq<char>>::empty());
        }
        r
    }

    /// The path of the record file for `id`: `configs/<id>.json`.
    pub fn path(id: u64) -> (r: String)
        ensures
            r@ == path_spec(id),
    {
        let mut r = "configs/".to_owned();
        let digits = codec::u64_to_string(id);
        r.append(digits.as_str());
        r.append(".json");
        r
    }

    /// The contents of the file for `id`, if one exists.
    pub fn file_contents(&self, id: u64) -> (r: Option<String>)
        ensures
            match r {
                Some(s) => self.files().contains_key(id) && s@ == self.files()[id],
                None => !self.files().contains_key(id),
            },
    {
        proof {
            use_type_invariant(self);
        }
        match assoc::find_index(&self.files, id) {
            Some(t) => {
                proof {
                    assert(self.file_entries()[t as int].0 == id);
                    assoc::lemma_map_of_index(self.file_entries(), t as int);
                    assert(self.file_entries()[t as int].1 == self.files@[t as int].1@);
                }
                Some(self.files[t].1.clone())
            },
            None => {
                proof {
                    assoc::lemma_map_of_contains(self.file_entries(), id);
                    if assoc::keys_contain(self.file_entries(), id) {
                        let t = choose|t: int|
                            0 <= t < self.file_entries().len() && (#[trigger] self.file_entries(
                            )[t]).0 == id;
                        assert(self.files@[t].0 == id);
                    }
                }
                None
            },
        }
    }

    /// The identifiers of all existing files, each once.
    pub fn file_ids(&self) -> (r: Vec<u64>)
        ensures
            forall|t: int| 0 <= t < r@.len() ==> self.files().contains_key(#[trigger] r@[t]),
            forall|id: u64| #[trigger]
                self.files().contains_key(id) ==> r@.contains(id),
            forall|a: int, b: int| 0 <= a < b < r@.len() ==> r@[a] != r@[b],
    {
        proof {
            use_type_invariant(self);
        }
        let mut r: Vec<u64> = Vec::new();
        let mut i: usize = 0;
        while i < self.files.len()
            invariant
                i <= self.files.len(),
                self.wf(),
                r@.len() == i,
                forall|t: int| 0 <= t < i ==> (#[trigger] r@[t]) == self.file_entries()[t].0,
            decreases self.files.len() - i,
        {
            r.push(self.files[i].0);
            proof {
                assert(self.file_entries()[i as int].0 == self.files@[i as int].0);
            }
            i = i + 1;
        }
        proof {
            assert forall|t: int|
                0 <= t < r@.len() implies self.files().contains_key(#[trigger] r@[t]) by {
                assoc::lemma_map_of_index(self.file_entries(), t);
            }
            assert forall|id: u64| #[trigger]
                self.files().contains_key(id) implies r@.contains(id) by {
                assoc::lemma_map_of_contains(self.file_entries(), id);
                let t = choose|t: int|
                    0 <= t < self.file_entries().len() && (#[trigger] self.file_entries()[t]).0
                        == id;
                assert(r@[t] == id);
            }
            assert forall|a: int, b: int| 0 <= a < b < r@.len() implies r@[a] != r@[b] by {
                assert(r@[a] == self.file_entries()[a].0);
                assert(r@[b] == self.file_entries()[b].0);
            }
        }
        r
    }

    /// Puts the given contents into the file for `id`, creating or
    /// overwriting it.
    pub fn write_file(&mut self, id: u64, contents: String)
        ensures
            final(self).files() == old(self).files().insert(id, contents@),
    {
        proof {
            use_type_invariant(&*self);
        }
        let ghost es = self.file_entries();
        let mut files: Vec<(u64, String)> = Vec::new();
        std::mem::swap(&mut files, &mut self.files);
        match assoc::find_index(&files, id) {
            Some(t) => {
                proof {
                    assert(es[t as int].0 == id);
                }
                files.set(t, (id, contents));
                proof {
                    let es2 = files@.map_values(|p: (u64, String)| (p.0, p.1@));
                    assert(es2 =~= es.update(t as int, (es[t as int].0, contents@)));
                    assoc::lemma_map_of_update(es, t as int, contents@);
                    assert(assoc::distinct_keys(es2)) by {
                        assert(forall|a: int| 0 <= a < es.len() ==> (#[trigger] es2[a]).0
                            == es[a].0);
                    }
                }
            },
            None => {
                proof {
                    assoc::lemma_map_of_contains(es, id);
                    if assoc::keys_contain(es, id) {
                        let t = choose|t: int| 0 <= t < es.len() && (#[trigger] es[t]).0 == id;
                        assert(files@[t].0 == id);
                    }
                }
                files.push((id, contents));
                proof {
                    let es2 = files@.map_values(|p: (u64, String)| (p.0, p.1@));
                    assert(es2 =~= es.push((id, contents@)));
                    assert(es2.drop_last() =~= es);
                    assert(assoc::distinct_keys(es2)) by {
                        assert(forall|a: int| 0 <= a < es.len() ==> (#[trigger] es2[a]) == es[a]);
                    }
                    assert(assoc::map_of(es2) =~= assoc::map_of(es).insert(id, contents@));
                }
            },
        }
        self.files = files;
    }

    /// Loads the record for `id`. A missing file is a default record when
    /// `insert_if_not_found` is set, and `ConfigNotFound` otherwise; an
    /// existing file is parsed, and text outside the grammar is
    /// `FailedDeserialization`.
    pub fn load(&self, id: u64, insert_if_not_found: bool) -> (r: Result<GuildConfig, LoadError>)
        ensures
            match r {
                Ok(cfg) => !cfg.dirty() && if self.files().contains_key(id) {
                    codec::parse_config(self.files()[id]) == Some(cfg.entries())
                } else {
                    insert_if_not_found && cfg.entries() == Seq::<(Seq<char>, u64)>::empty()
                },
                Err(e) => match e {
                    LoadError::ConfigNotFound(i) => i == id && !insert_if_not_found
                        && !self.files().contains_key(id),
                    LoadError::FailedDeserialization => self.files().contains_key(id)
                        && codec::parse_config(self.files()[id]) is None,
                    LoadError::FailedReading => false,
                },
            },
    {
        match self.file_contents(id) {
            None => {
                if insert_if_not_found {
                    Ok(GuildConfig::new())
                } else {
                    Err(LoadError::ConfigNotFound(id))
                }
            },
            Some(raw) => {
                match codec::decode(raw.as_str()) {
                    Some(entries) => {
                        proof {
                            codec::lemma_parse_config_sound(raw@);
                        }
                        Ok(GuildConfig::from_entries(entries))
                    },
                    None => Err(LoadError::FailedDeserialization),
                }
            },
        }
    }

    /// Saves the record for `id` if it is dirty. Returns `Ok(false)`
    /// ("nothing to do") for a clean record, without touching any file;
    /// writes the canonical encoding and returns `Ok(true)` for a dirty one.
    /// A record with a key outside the canonical encoding's reach is
    /// `FailedSerialization`, and no file changes.
    pub fn save(&mut self, id: u64, config: &GuildConfig) -> (r: Result<bool, SaveError>)
        ensures
            match r {
                Ok(saved) => if saved {
                    config.dirty() && codec::valid_keys(config.entries()) && final(self).files()
                        == old(self).files().insert(
                        id,
                        codec::encode_config(config.entries()),
                    )
                } else {
                    !config.dirty() && final(self).files() == old(self).files()
                },
                Err(e) => e == SaveError::FailedSerialization && config.dirty()
                    && !codec::valid_keys(config.entries()) && final(self).files() == old(
                    self,
                ).files(),
            },
            assoc::distinct_keys(config.entries()),
    {
        let entries = config.channel_entries();
        if !config.has_changed() {
            return Ok(false);
        }
        if !keys_all_valid(entries) {
            return Err(SaveError::FailedSerialization);
        }
        let json = codec::encode(entries);
        self.write_file(id, json);
        Ok(true)
    }
}

/// Whether every key of the given entries can stand in the canonical
/// encoding.
fn keys_all_valid(entries: &Vec<(String, u64)>) -> (r: bool)
    ensures
        r == codec::valid_keys(codec::entry_views(entries@)),
{
    let ghost es = codec::entry_views(entries@);
    let mut i: usize = 0;
    while i < entries.len()
        invariant
            i <= entries.len(),
            es == codec::entry_views(entries@),
            forall|t: int| 0 <= t < i ==> codec::valid_key(#[trigger] es[t].0),
        decreases entries.len() - i,
    {
        if !key_is_valid(&entries[i].0) {
            proof {
                assert(es[i as int].0 == entries@[i as int].0@);
                assert(!codec::valid_key(es[i as int].0));
            }
            return false;
        }
        proof {
            assert(es[i as int].0 == entries@[i as int].0@);
        }
        i = i + 1;
    }
    true
}

/// Whether every character of `s` can stand in a key of the canonical
/// encoding.
fn key_is_valid(s: &String) -> (r: bool)
    ensures
        r == codec::valid_key(s@),
{
    let text = s.as_str();
    let n = text.unicode_len();
    let mut i: usize = 0;
    while i < n
        invariant
            i <= n,
            n == text@.len(),
            text@ == s@,
            forall|t: int| 0 <= t < i ==> codec::is_key_char(#[trigger] s@[t]),
        decreases n - i,
    {
        let c = text.get_char(i);
        let u = c as u32;
        if !(32 <= u && u <= 126 && c != '"' && c != '\\') {
            return false;
        }
        i = i + 1;
    }
    true
}

} // verus!
