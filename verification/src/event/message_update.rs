//! The message-edited notification: its template texts, and what the sent
//! embed shows.

use vstd::prelude::*;

use crate::codec;
use crate::event;
use crate::text;

verus! {

/// The template texts of the message-updated notification.
pub struct Texts {
    pub description: String,
    pub now: String,
    pub previous: String,
    pub date: String,
    pub id: String,
    pub id_body: String,
}

impl Default for Texts {
    /// The built-in texts.
    fn default() -> (r: Self)
        ensures
            r.description@ == "Updated their [message](%link%) in %channel%"@,
            r.now@ == "Now N.%i%"@,
            r.previous@ == "Previous N.%i%"@,
            r.date@ == "Date"@,
            r.id@ == "ID"@,
            r.id_body@ == "```toml\nUser = %user_id%\nMessage = %message_id%\n```"@,
    {
        Texts {
            description: "Updated their [message](%link%) in %channel%".to_owned(),
            now: "Now N.%i%".to_owned(),
            previous: "Previous N.%i%".to_owned(),
            date: "Date".to_owned(),
            id: "ID".to_owned(),
            id_body: "```toml\nUser = %user_id%\nMessage = %message_id%\n```".to_owned(),
        }
    }
}

/// What the message-edited notification shows: the description naming the
/// channel and linking the message, and the fields — the new content in
/// numbered blocks, the previous content in numbered blocks, the date, and
/// the user and message identifiers. Sending it, the colour, and the author
/// line are the rim's work.
pub struct Notice {
    pub description: String,
    pub fields: Vec<(String, String, bool)>,
}

/// Builds the message-edited notification: the description with `%channel%`
/// replaced by the channel mention and `%link%` by the message link; one
/// field per block of the new content and then of the previous content, each
/// of at most [`event::MAX_FIELD_SIZE`] characters and labelled with `%i%`
/// replaced by the block's zero-based number; a full-date timestamp field;
/// and the identifier field with `%user_id%` and `%message_id%` filled in.
pub fn message_updated_notice(
    texts: &Texts,
    channel_id: u64,
    message_link: &str,
    message_id: u64,
    author_id: u64,
    new_content: &str,
    old_content: &str,
    timestamp: i64,
) -> (r: Notice)
    ensures
        r.description@ == text::replace_spec(
            text::replace_spec(
                texts.description@,
                "%channel%"@,
                event::channel_mention(channel_id),
            ),
            "%link%"@,
            message_link@,
        ),
        ({
            let now_blocks = text::blocks_of(
                text::graphemes_of(new_content@),
                event::MAX_FIELD_SIZE as nat,
            );
            let prev_blocks = text::blocks_of(
                text::graphemes_of(old_content@),
                event::MAX_FIELD_SIZE as nat,
            );
            let n = now_blocks.len() as int;
            let p = prev_blocks.len() as int;
            &&& r.fields@.len() == n + p + 2
            &&& forall|t: int|
                0 <= t < n ==> {
                    &&& (#[trigger] r.fields@[t]).0@ == text::replace_spec(
                        texts.now@,
                        "%i%"@,
                        codec::dec_digits(t as nat),
                    )
                    &&& r.fields@[t].1@ == now_blocks[t]
                    &&& !r.fields@[t].2
                }
            &&& forall|t: int|
                0 <= t < p ==> {
                    &&& (#[trigger] r.fields@[n + t]).0@ == text::replace_spec(
                        texts.previous@,
                        "%i%"@,
                        codec::dec_digits(t as nat),
                    )
                    &&& r.fields@[n + t].1@ == prev_blocks[t]
                    &&& !r.fields@[n + t].2
                }
            &&& r.fields@[n + p].0@ == texts.date@
            &&& r.fields@[n + p].1@ == event::time_mark_full(timestamp as int)
            &&& !r.fields@[n + p].2
            &&& r.fields@[n + p + 1].0@ == texts.id@
            &&& r.fields@[n + p + 1].1@ == text::replace_spec(
                text::replace_spec(
                    texts.id_body@,
                    "%user_id%"@,
                    codec::dec_digits(author_id as nat),
                ),
                "%message_id%"@,
                codec::dec_digits(message_id as nat),
            )
            &&& !r.fields@[n + p + 1].2
        }),
{
    let channel = event::channel_mention_string(channel_id);
    let with_channel = text::replace(texts.description.as_str(), "%channel%", channel.as_str());
    let description = text::replace(with_channel.as_str(), "%link%", message_link);
    let author_digits = codec::u64_to_string(author_id);
    let message_digits = codec::u64_to_string(message_id);
    let with_user = text::replace(texts.id_body.as_str(), "%user_id%", author_digits.as_str());
    let id_body = text::replace(with_user.as_str(), "%message_id%", message_digits.as_str());
    let now_blocks = text::into_blocks(new_content, event::MAX_FIELD_SIZE);
    let prev_blocks = text::into_blocks(old_content, event::MAX_FIELD_SIZE);
    let ghost nbs = text::blocks_of(text::graphemes_of(new_content@), event::MAX_FIELD_SIZE as nat);
    let ghost pbs = text::blocks_of(text::graphemes_of(old_content@), event::MAX_FIELD_SIZE as nat);
    let mut fields: Vec<(String, String, bool)> = Vec::new();
    let mut t: usize = 0;
    while t < now_blocks.len()
        invariant
            t <= now_blocks.len(),
            now_blocks@.map_values(|b: String| b@) == nbs,
            now_blocks@.len() == nbs.len(),
            fields@.len() == t,
            forall|q: int|
                0 <= q < t ==> {
                    &&& (#[trigger] fields@[q]).0@ == text::replace_spec(
                        texts.now@,
                        "%i%"@,
                        codec::dec_digits(q as nat),
                    )
                    &&& fields@[q].1@ == nbs[q]
                    &&& !fields@[q].2
                },
        decreases now_blocks.len() - t,
    {
        let number = codec::u64_to_string(t as u64);
        let label = text::replace(texts.now.as_str(), "%i%", number.as_str());
        fields.push((label, now_blocks[t].clone(), false));
        proof {
            assert(now_blocks@[t as int]@ == nbs[t as int]);
        }
        t = t + 1;
    }
    let ghost n0 = fields@.len() as int;
    let mut u: usize = 0;
    while u < prev_blocks.len()
        invariant
            u <= prev_blocks.len(),
            prev_blocks@.map_values(|b: String| b@) == pbs,
            prev_blocks@.len() == pbs.len(),
            n0 == nbs.len(),
            fields@.len() == n0 + u,
            forall|q: int|
                0 <= q < n0 ==> {
                    &&& (#[trigger] fields@[q]).0@ == text::replace_spec(
                        texts.now@,
                        "%i%"@,
                        codec::dec_digits(q as nat),
                    )
                    &&& fields@[q].1@ == nbs[q]
                    &&& !fields@[q].2
                },
            forall|q: int|
                0 <= q < u ==> {
                    &&& (#[trigger] fields@[n0 + q]).0@ == text::replace_spec(
                        texts.previous@,
                        "%i%"@,
                        codec::dec_digits(q as nat),
                    )
                    &&& fields@[n0 + q].1@ == pbs[q]
                    &&& !fields@[n0 + q].2
                },
        decreases prev_blocks.len() - u,
    {
        let number = codec::u64_to_string(u as u64);
        let label = text::replace(texts.previous.as_str(), "%i%", number.as_str());
        fields.push((label, prev_blocks[u].clone(), false));
        proof {
            assert(prev_blocks@[u as int]@ == pbs[u as int]);
        }
        u = u + 1;
    }
    fields.push((texts.date.clone(), event::time_mark_full_string(timestamp), false));
    fields.push((texts.id.clone(), id_body, false));
    Notice { description, fields }
}

} // verus!
