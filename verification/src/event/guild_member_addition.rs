//! The member-joined notification: its template texts, and what the sent
//! embed shows.

use vstd::prelude::*;

use crate::codec;
use crate::event;
use crate::text;

verus! {

/// The template texts of the member-joined notification.
pub struct Texts {
    pub title: String,
    pub id: String,
    pub account_creation: String,
    pub member_count: String,
}

impl Default for Texts {
    /// The built-in texts.
    fn default() -> (r: Self)
        ensures
            r.title@ == "%user% joined this guild"@,
            r.id@ == "ID"@,
            r.account_creation@ == "Account Creation"@,
            r.member_count@ == "Member Count: %count%"@,
    {
        Texts {
            title: "%user% joined this guild".to_owned(),
            id: "ID".to_owned(),
            account_creation: "Account Creation".to_owned(),
            member_count: "Member Count: %count%".to_owned(),
        }
    }
}

/// What the member-joined notification shows: the title, the mention in the
/// description, the two inline fields, and the footer. Sending it, the
/// colour, and the avatar thumbnail are the rim's work.
pub struct Notice {
    pub title: String,
    pub description: String,
    pub fields: Vec<(String, String, bool)>,
    pub footer: String,
}

/// Builds the member-joined notification: the title with `%user%` replaced
/// by the member's display name, the member's mention, an inline `ID` field
/// tagging the user, an inline account-creation field with the timestamp
/// mark, and the footer with `%count%` replaced by the member count.
pub fn member_added_notice(
    texts: &Texts,
    display_name: &str,
    user_name: &str,
    user_id: u64,
    created_at_timestamp: i64,
    member_count: u64,
) -> (r: Notice)
    ensures
        r.title@ == text::replace_spec(texts.title@, "%user%"@, display_name@),
        r.description@ == event::user_mention(user_id),
        r.fields@.len() == 2,
        r.fields@[0].0@ == texts.id@,
        r.fields@[0].1@ == event::user_tag(user_name@, user_id),
        r.fields@[0].2,
        r.fields@[1].0@ == texts.account_creation@,
        r.fields@[1].1@ == event::time_mark(created_at_timestamp as int),
        r.fields@[1].2,
        r.footer@ == text::replace_spec(
            texts.member_count@,
            "%count%"@,
            codec::dec_digits(member_count as nat),
        ),
{
    let title = text::replace(texts.title.as_str(), "%user%", display_name);
    let description = event::user_mention_string(user_id);
    let mut fields: Vec<(String, String, bool)> = Vec::new();
    fields.push((texts.id.clone(), event::user_tag_string(user_name, user_id), true));
    fields.push((
        texts.account_creation.clone(),
        event::time_mark_string(created_at_timestamp),
        true,
    ));
    let count = codec::u64_to_string(member_count);
    let footer = text::replace(texts.member_count.as_str(), "%count%", count.as_str());
    Notice { title, description, fields, footer }
}

} // verus!
