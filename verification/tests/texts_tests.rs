use guild_config_cache::errors::{Error, LoadError, SaveError};
use guild_config_cache::event::{guild_member_addition, guild_member_removal, message_delete, message_update};
use guild_config_cache::event::Event;
use guild_config_cache::handler::Handler;
use guild_config_cache::texts::Texts;

#[test]
fn event_keys_are_stable() {
    assert_eq!(Event::MessageDelete.key(), "MD");
    assert_eq!(Event::MessageUpdate.key(), "MU");
    assert_eq!(Event::GuildMemberAddition.key(), "UJ");
    assert_eq!(Event::GuildMemberRemoval.key(), "UL");
}

#[test]
fn default_texts_hold_the_built_in_strings() {
    let texts = Texts::default();
    assert_eq!(texts.error_embed_title(), "Error");
    assert_eq!(
        texts.missing_administrator_permission(),
        ":x: You must be an administrator to execute this command."
    );
    assert_eq!(
        texts.error_command_executed_in_dm(),
        ":x: This command can only be executed in a guild."
    );
    assert_eq!(
        texts.internal_error(),
        "An internal error has occurred, please contact the administrators."
    );
    assert_eq!(texts.not_valid_channel(), "Channel is not a text or voice channel.");
    assert_eq!(texts.success_embed_title(), "Success");
    assert_eq!(texts.channel_setted_message(), "Channel was set.");
}

#[test]
fn handler_keeps_its_texts() {
    let handler = Handler::new(Texts::default());
    assert_eq!(handler.texts.success_embed_title(), "Success");
}

#[test]
fn event_notification_texts_have_defaults() {
    let md = message_delete::Texts::default();
    assert_eq!(md.description, "Message deleted in %channel%");
    assert_eq!(md.id_body, "```toml\nUser = %user_id%\nMessage = %message_id%\n```");
    let mu = message_update::Texts::default();
    assert_eq!(mu.now, "Now N.%i%");
    assert_eq!(mu.previous, "Previous N.%i%");
    let ua = guild_member_addition::Texts::default();
    assert_eq!(ua.title, "%user% joined this guild");
    let ur = guild_member_removal::Texts::default();
    assert_eq!(ur.title, "%user% left this guild");
    assert_eq!(ur.joined, "Joined");
}

#[test]
fn error_variants_compare_and_print() {
    assert_eq!(
        Error::LoadError(LoadError::ConfigNotFound(9)),
        Error::LoadError(LoadError::ConfigNotFound(9))
    );
    assert_ne!(
        Error::LoadError(LoadError::FailedReading),
        Error::LoadError(LoadError::FailedDeserialization)
    );
    assert_ne!(
        Error::SaveError(SaveError::FailedWriting),
        Error::SaveError(SaveError::FailedDirectoryCreation)
    );
    let printed = format!("{:?}", Error::SaveError(SaveError::FailedSerialization));
    assert!(printed.contains("FailedSerialization"));
}
