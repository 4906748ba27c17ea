//! The guild events a channel can be configured for, the short key under
//! which each one is stored in a guild's configuration record, and the small
//! chat-markup pieces the event notifications are built from.

use vstd::prelude::*;

use crate::codec;

pub mod guild_member_addition;
pub mod guild_member_removal;
pub mod message_delete;
pub mod message_update;

verus! {

/// A guild event that can have a notification channel configured.
#[derive(Clone, Copy, PartialEq, Eq, Structural, Debug)]
pub enum Event {
    MessageDelete,
    MessageUpdate,
    GuildMemberAddition,
    GuildMemberRemoval,
}

impl Event {
    /// The short key under which this event's channel is stored in a guild's
    /// configuration record.
    pub open spec fn spec_key(self) -> Seq<char> {
        match self {
            Event::MessageDelete => "MD"@,
            Event::MessageUpdate => "MU"@,
            Event::GuildMemberAddition => "UJ"@,
            Event::GuildMemberRemoval => "UL"@,
        }
    }

    /// The configuration key for this event.
    pub fn key(&self) -> (r: &'static str)
        ensures
            r@ == self.spec_key(),
    {
        match self {
            Event::MessageDelete => "MD",
            Event::MessageUpdate => "MU",
            Event::GuildMemberAddition => "UJ",
            Event::GuildMemberRemoval => "UL",
        }
    }
}

/// The size budget of one embed field, in characters: longer message content
/// is split into blocks of at most this many.
pub const MAX_FIELD_SIZE: usize = 1024;

/// The chat markup mentioning a user: `<@ID>`.
pub open spec fn user_mention(id: u64) -> Seq<char> {
    seq!['<', '@'] + codec::dec_digits(id as nat) + seq!['>']
}

/// The chat markup mentioning a channel: `<#ID>`.
pub open spec fn channel_mention(id: u64) -> Seq<char> {
    seq!['<', '#'] + codec::dec_digits(id as nat) + seq!['>']
}

/// The chat markup for a timestamp: `<t:SECONDS>`.
pub open spec fn time_mark(ts: int) -> Seq<char> {
    seq!['<', 't', ':'] + codec::int_digits(ts) + seq!['>']
}

/// The chat markup for a timestamp shown as a full date: `<t:SECONDS:F>`.
pub open spec fn time_mark_full(ts: int) -> Seq<char> {
    seq!['<', 't', ':'] + codec::int_digits(ts) + seq![':', 'F', '>']
}

/// The chat markup for a timestamp shown relatively: `<t:SECONDS:R>`.
pub open spec fn time_mark_relative(ts: int) -> Seq<char> {
    seq!['<', 't', ':'] + codec::int_digits(ts) + seq![':', 'R', '>']
}

/// A user named with their identifier: `@name (ID)`.
pub open spec fn user_tag(name: Seq<char>, id: u64) -> Seq<char> {
    seq!['@'] + name + seq![' ', '('] + codec::dec_digits(id as nat) + seq![')']
}

/// Writes `<@ID>`.
pub fn user_mention_string(id: u64) -> (r: String)
    ensures
        r@ == user_mention(id),
{
    let mut r = "<@".to_owned();
    let digits = codec::u64_to_string(id);
    r.append(digits.as_str());
    r.append(">");
    proof {
        reveal_strlit("<@");
        reveal_strlit(">");
        assert(r@ =~= user_mention(id));
    }
    r
}

/// Writes `<#ID>`.
pub fn channel_mention_string(id: u64) -> (r: String)
    ensures
        r@ == channel_mention(id),
{
    let mut r = "<#".to_owned();
    let digits = codec::u64_to_string(id);
    r.append(digits.as_str());
    r.append(">");
    proof {
        reveal_strlit("<#");
        reveal_strlit(">");
        assert(r@ =~= channel_mention(id));
    }
    r
}

/// Writes `<t:SECONDS>`.
pub fn time_mark_string(ts: i64) -> (r: String)
    ensures
        r@ == time_mark(ts as int),
{
    let mut r = "<t:".to_owned();
    let digits = codec::i64_to_string(ts);
    r.append(digits.as_str());
    r.append(">");
    proof {
        reveal_strlit("<t:");
        reveal_strlit(">");
        assert(r@ =~= time_mark(ts as int));
    }
    r
}

/// Writes `<t:SECONDS:F>`.
pub fn time_mark_full_string(ts: i64) -> (r: String)
    ensures
        r@ == time_mark_full(ts as int),
{
    let mut r = "<t:".to_owned();
    let digits = codec::i64_to_string(ts);
    r.append(digits.as_str());
    r.append(":F>");
    proof {
        reveal_strlit("<t:");
        reveal_strlit(":F>");
        assert(r@ =~= time_mark_full(ts as int));
    }
    r
}

/// Writes `<t:SECONDS:R>`.
pub fn time_mark_relative_string(ts: i64) -> (r: String)
    ensures
        r@ == time_mark_relative(ts as int),
{
    let mut r = "<t:".to_owned();
    let digits = codec::i64_to_string(ts);
    r.append(digits.as_str());
    r.append(":R>");
    proof {
        reveal_strlit("<t:");
        reveal_strlit(":R>");
        assert(r@ =~= time_mark_relative(ts as int));
    }
    r
}

/// Writes `@name (ID)`.
pub fn user_tag_string(name: &str, id: u64) -> (r: String)
    ensures
        r@ == user_tag(name@, id),
{
    let mut r = "@".to_owned();
    r.append(name);
    r.append(" (");
    let digits = codec::u64_to_string(id);
    r.append(digits.as_str());
    r.append(")");
    proof {
        reveal_strlit("@");
        reveal_strlit(" (");
        reveal_strlit(")");
        assert(r@ =~= user_tag(name@, id));
    }
    r
}

} // verus!
