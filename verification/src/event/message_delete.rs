//! The message-deleted notification: its template texts, and what the sent
//! embed shows.

use vstd::prelude::*;

use crate::codec;
use crate::event;
use crate::text;

verus! {

/// The template texts of the message-deleted notification.
pub struct Texts {
    pub description: String,
    pub content: String,
    pub date: String,
    pub id: String,
    pub id_body: String,
}

impl Default for Texts {
    /// The built-in texts.
    fn default() -> (r: Self)
        ensures
            r.description@ == "Message deleted in %channel%"@,
            r.content@ == "Content N.%i%"@,
            r.date@ == "Date"@,
            r.id@ == "ID"@,
            r.id_body@ == "```toml\nUser = %user_id%\nMessage = %message_id%\n```"@,
    {
        Texts {
            description: "Message deleted in %channel%".to_owned(),
            content: "Content N.%i%".to_owned(),
            date: "Date".to_owned(),
            id: "ID".to_owned(),
            id_body: "```toml\nUser = %user_id%\nMessage = %message_id%\n```".to_owned(),
        }
    }
}

/// What the message-deleted notification shows: the description naming the
/// channel, and the fields — the deleted content in numbered blocks, the
/// date, and the user and message identifiers. Sending it, the colour, and
/// the author line are the rim's work.
pub struct Notice {
    pub description: String,
    pub fields: Vec<(String, String, bool)>,
}

/// Builds the message-deleted notification: the description with `%channel%`
/// replaced by the channel mention; one field per content block of at most
/// [`event::MAX_FIELD_SIZE`] characters, labelled with `%i%` replaced by the
/// block's one-based number; a full-date timestamp field; and the identifier
/// field with `%user_id%` and `%message_id%` filled in.
pub fn message_deleted_notice(
    texts: &Texts,
    channel_id: u64,
    message_id: u64,
    author_id: u64,
    content: &str,
    timestamp: i64,
) -> (r: Notice)
    ensures
        r.description@ == text::replace_spec(
            texts.description@,
            "%channel%"@,
            event::channel_mention(channel_id),
        ),
        ({
            let blocks = text::blocks_of(
                text::graphemes_of(content@),
                event::MAX_FIELD_SIZE as nat,
            );
            &&& r.fields@.len() == blocks.len() + 2
            &&& forall|t: int|
                0 <= t < blocks.len() ==> {
                    &&& (#[trigger] r.fields@[t]).0@ == text::replace_spec(
                        texts.content@,
                        "%i%"@,
                        codec::dec_digits((t + 1) as nat),
                    )
                    &&& r.fields@[t].1@ == blocks[t]
                    &&& !r.fields@[t].2
                }
            &&& r.fields@[blocks.len() as int].0@ == texts.date@
            &&& r.fields@[blocks.len() as int].1@ == event::time_mark_full(timestamp as int)
            &&& !r.fields@[blocks.len() as int].2
            &&& r.fields@[blocks.len() as int + 1].0@ == texts.id@
            &&& r.fields@[blocks.len() as int + 1].1@ == text::replace_spec(
                text::replace_spec(
                    texts.id_body@,
                    "%user_id%"@,
                    codec::dec_digits(author_id as nat),
                ),
                "%message_id%"@,
                codec::dec_digits(message_id as nat),
            )
            &&& !r.fields@[blocks.len() as int + 1].2
        }),
{
    let channel = event::channel_mention_string(channel_id);
    let description = text::replace(texts.description.as_str(), "%channel%", channel.as_str());
    let author_digits = codec::u64_to_string(author_id);
    let message_digits = codec::u64_to_string(message_id);
    let with_user = text::replace(texts.id_body.as_str(), "%user_id%", author_digits.as_str());
    let id_body = text::replace(with_user.as_str(), "%message_id%", message_digits.as_str());
    let blocks = text::into_blocks(content, event::MAX_FIELD_SIZE);
    let ghost bs = text::blocks_of(text::graphemes_of(content@), event::MAX_FIELD_SIZE as nat);
    let mut fields: Vec<(String, String, bool)> = Vec::new();
    let mut t: usize = 0;
    while t < blocks.len()
        invariant
            t <= blocks.len(),
            blocks@.map_values(|b: String| b@) == bs,
            blocks@.len() == bs.len(),
            fields@.len() == t,
            forall|q: int|
                0 <= q < t ==> {
                    &&& (#[trigger] fields@[q]).0@ == text::replace_spec(
                        texts.content@,
                        "%i%"@,
                        codec::dec_digits((q + 1) as nat),
                    )
                    &&& fields@[q].1@ == bs[q]
                    &&& !fields@[q].2
                },
        decreases blocks.len() - t,
    {
        let number = codec::u64_to_string((t + 1) as u64);
        let label = text::replace(texts.content.as_str(), "%i%", number.as_str());
        fields.push((label, blocks[t].clone(), false));
        proof {
            assert(blocks@[t as int]@ == bs[t as int]);
        }
        t = t + 1;
    }
    fields.push((texts.date.clone(), event::time_mark_full_string(timestamp), false));
    fields.push((texts.id.clone(), id_body, false));
    Notice { description, fields }
}

} // verus!
