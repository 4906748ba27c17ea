//! The guard decisions of the channel-configuration commands: which reply an
//! invocation earns before any record is touched. Reading the invocation's
//! context and sending the reply are the rim's work.

use vstd::prelude::*;

verus! {

/// The reply a command invocation earns. Only `Proceed` goes on to read and
/// mutate the guild's record and then reports success; `Silent` answers
/// nothing (the caller's membership could not be read).
#[derive(Clone, Copy, PartialEq, Eq, Structural, Debug)]
pub enum Reply {
    NotInGuild,
    Silent,
    MissingAdministrator,
    InternalError,
    NotValidChannel,
    Proceed,
}

/// What a `set` invocation earns: it must come from a guild, from a known
/// member holding the administrator permission, and any channel it names
/// must be a guild channel (else the failure is internal) of text or voice
/// kind. The channel argument carries those two facts; `None` clears the
/// mapping and needs no channel at all.
pub open spec fn set_reply(
    in_guild: bool,
    member_known: bool,
    is_administrator: bool,
    channel: Option<(bool, bool)>,
) -> Reply {
    if !in_guild {
        Reply::NotInGuild
    } else if !member_known {
        Reply::Silent
    } else if !is_administrator {
        Reply::MissingAdministrator
    } else {
        match channel {
            Some((is_guild_channel, is_text_or_voice)) => {
                if !is_guild_channel {
                    Reply::InternalError
                } else if !is_text_or_voice {
                    Reply::NotValidChannel
                } else {
                    Reply::Proceed
                }
            },
            None => Reply::Proceed,
        }
    }
}

/// Decides a `set` invocation. `channel` carries, for a named channel,
/// whether it is a guild channel and whether its kind is text or voice.
pub fn set_reply_choice(
    in_guild: bool,
    member_known: bool,
    is_administrator: bool,
    channel: Option<(bool, bool)>,
) -> (r: Reply)
    ensures
        r == set_reply(in_guild, member_known, is_administrator, channel),
{
    if !in_guild {
        Reply::NotInGuild
    } else if !member_known {
        Reply::Silent
    } else if !is_administrator {
        Reply::MissingAdministrator
    } else {
        match channel {
            Some((is_guild_channel, is_text_or_voice)) => {
                if !is_guild_channel {
                    Reply::InternalError
                } else if !is_text_or_voice {
                    Reply::NotValidChannel
                } else {
                    Reply::Proceed
                }
            },
            None => Reply::Proceed,
        }
    }
}

/// What an `unset` invocation earns: it must come from a guild, from a known
/// member holding the administrator permission; it names no channel.
pub open spec fn unset_reply(in_guild: bool, member_known: bool, is_administrator: bool) -> Reply {
    if !in_guild {
        Reply::NotInGuild
    } else if !member_known {
        Reply::Silent
    } else if !is_administrator {
        Reply::MissingAdministrator
    } else {
        Reply::Proceed
    }
}

/// Decides an `unset` invocation.
pub fn unset_reply_choice(in_guild: bool, member_known: bool, is_administrator: bool) -> (r: Reply)
    ensures
        r == unset_reply(in_guild, member_known, is_administrator),
{
    if !in_guild {
        Reply::NotInGuild
    } else if !member_known {
        Reply::Silent
    } else if !is_administrator {
        Reply::MissingAdministrator
    } else {
        Reply::Proceed
    }
}

} // verus!
