//! An in-memory store of per-guild configuration records with idle-based
//! expiration and write-back persistence to one JSON file per guild.
//!
//! [`cache::GuildConfigCache`] maps guild identifiers to
//! [`config::GuildConfig`] records, expires records that sit idle too long,
//! and queues expired or invalidated records for persistence through
//! [`store::ConfigStore`], whose on-disk record format is implemented and
//! proved round-trippable in [`codec`]. The crate-level guarantees are
//! stated and proved in [`laws`]. Around the core sit the event keys and
//! notification builders ([`event`] and its submodules), the command guard
//! decisions ([`command`]), the reply and notification texts ([`texts`],
//! [`handler`]), and template substitution and grapheme-aware text splitting
//! for outgoing messages ([`text`]).

pub mod assoc;
pub mod cache;
pub mod codec;
pub mod command;
pub mod config;
pub mod errors;
pub mod event;
pub mod handler;
pub mod laws;
pub mod store;
pub mod text;
pub mod texts;
