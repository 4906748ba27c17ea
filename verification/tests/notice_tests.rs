use guild_config_cache::command::{set_reply_choice, unset_reply_choice, Reply};
use guild_config_cache::event::{
    guild_member_addition, guild_member_removal, message_delete, message_update,
};
use guild_config_cache::text::replace;
use guild_config_cache::codec::i64_to_string;

#[test]
fn replace_substitutes_every_occurrence() {
    assert_eq!(replace("a %x% b %x%", "%x%", "1"), "a 1 b 1");
    assert_eq!(replace("nothing here", "%x%", "1"), "nothing here");
    assert_eq!(replace("%x%%x%", "%x%", "yz"), "yzyz");
    assert_eq!(replace("abc", "abc", ""), "");
    assert_eq!(replace("", "%x%", "1"), "");
}

#[test]
fn replace_is_leftmost_and_non_overlapping() {
    assert_eq!(replace("aaa", "aa", "b"), "ba");
    assert_eq!(replace("ababab", "abab", "-"), "-ab");
}

#[test]
fn replace_agrees_with_the_standard_library() {
    let cases = [
        ("Message deleted in %channel%", "%channel%", "<#42>"),
        ("aaa", "aa", "b"),
        ("xyx", "y", "yy"),
        ("no match", "zz", "q"),
        ("ababa", "aba", "_"),
    ];
    for (s, pat, to) in cases {
        assert_eq!(replace(s, pat, to), s.replace(pat, to));
    }
}

#[test]
fn i64_rendering_handles_signs() {
    assert_eq!(i64_to_string(0), "0");
    assert_eq!(i64_to_string(1700000000), "1700000000");
    assert_eq!(i64_to_string(-5), "-5");
    assert_eq!(i64_to_string(i64::MIN), "-9223372036854775808");
    assert_eq!(i64_to_string(i64::MAX), "9223372036854775807");
}

#[test]
fn member_added_notice_fills_the_templates() {
    let texts = guild_member_addition::Texts::default();
    let notice = guild_member_addition::member_added_notice(
        &texts, "Display", "username", 77, 1600000000, 321,
    );
    assert_eq!(notice.title, "Display joined this guild");
    assert_eq!(notice.description, "<@77>");
    assert_eq!(
        notice.fields,
        vec![
            ("ID".to_string(), "@username (77)".to_string(), true),
            ("Account Creation".to_string(), "<t:1600000000>".to_string(), true),
        ]
    );
    assert_eq!(notice.footer, "Member Count: 321");
}

#[test]
fn member_removed_notice_adds_the_joined_field_when_known() {
    let texts = guild_member_removal::Texts::default();
    let with_join = guild_member_removal::member_removed_notice(
        &texts, "Display", "username", 9, 1500000000, 10, Some(1550000000),
    );
    assert_eq!(with_join.title, "Display left this guild");
    assert_eq!(with_join.fields.len(), 3);
    assert_eq!(
        with_join.fields[2],
        ("Joined".to_string(), "<t:1550000000:R>".to_string(), false)
    );
    let without_join = guild_member_removal::member_removed_notice(
        &texts, "Display", "username", 9, 1500000000, 10, None,
    );
    assert_eq!(without_join.fields.len(), 2);
}

#[test]
fn message_deleted_notice_numbers_content_blocks_from_one() {
    let texts = message_delete::Texts::default();
    let long = "x".repeat(1500);
    let notice = message_delete::message_deleted_notice(&texts, 5, 6, 7, &long, 1234);
    assert_eq!(notice.description, "Message deleted in <#5>");
    assert_eq!(notice.fields.len(), 4);
    assert_eq!(notice.fields[0].0, "Content N.1");
    assert_eq!(notice.fields[0].1, "x".repeat(1024));
    assert_eq!(notice.fields[1].0, "Content N.2");
    assert_eq!(notice.fields[1].1, "x".repeat(476));
    assert_eq!(notice.fields[2], ("Date".to_string(), "<t:1234:F>".to_string(), false));
    assert_eq!(
        notice.fields[3],
        ("ID".to_string(), "```toml\nUser = 7\nMessage = 6\n```".to_string(), false)
    );
}

#[test]
fn message_updated_notice_numbers_blocks_from_zero() {
    let texts = message_update::Texts::default();
    let notice = message_update::message_updated_notice(
        &texts, 5, "https://example.invalid/m/6", 6, 7, "new words", "old words", 99,
    );
    assert_eq!(
        notice.description,
        "Updated their [message](https://example.invalid/m/6) in <#5>"
    );
    assert_eq!(notice.fields.len(), 4);
    assert_eq!(notice.fields[0], ("Now N.0".to_string(), "new words".to_string(), false));
    assert_eq!(notice.fields[1], ("Previous N.0".to_string(), "old words".to_string(), false));
    assert_eq!(notice.fields[2], ("Date".to_string(), "<t:99:F>".to_string(), false));
    assert_eq!(
        notice.fields[3],
        ("ID".to_string(), "```toml\nUser = 7\nMessage = 6\n```".to_string(), false)
    );
}

#[test]
fn set_command_guards_decide_the_reply() {
    assert_eq!(set_reply_choice(false, true, true, None), Reply::NotInGuild);
    assert_eq!(set_reply_choice(true, false, true, None), Reply::Silent);
    assert_eq!(set_reply_choice(true, true, false, None), Reply::MissingAdministrator);
    assert_eq!(set_reply_choice(true, true, true, Some((false, true))), Reply::InternalError);
    assert_eq!(set_reply_choice(true, true, true, Some((true, false))), Reply::NotValidChannel);
    assert_eq!(set_reply_choice(true, true, true, Some((true, true))), Reply::Proceed);
    assert_eq!(set_reply_choice(true, true, true, None), Reply::Proceed);
}

#[test]
fn unset_command_guards_decide_the_reply() {
    assert_eq!(unset_reply_choice(false, true, true), Reply::NotInGuild);
    assert_eq!(unset_reply_choice(true, false, true), Reply::Silent);
    assert_eq!(unset_reply_choice(true, true, false), Reply::MissingAdministrator);
    assert_eq!(unset_reply_choice(true, true, true), Reply::Proceed);
}
