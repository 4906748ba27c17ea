//! The configurable message texts the program answers commands with.

use vstd::prelude::*;

verus! {

/// The texts shown in command replies, loaded from a file at startup and
/// falling back to these defaults.
pub struct Texts {
    pub error_embed_title: String,
    pub missing_administrator_permission: String,
    pub error_command_executed_in_dm: String,
    pub internal_error: String,
    pub not_valid_channel: String,
    pub success_embed_title: String,
    pub channel_setted_message: String,
}

impl Texts {
    /// The title of an error reply.
    pub fn error_embed_title(&self) -> (r: &str)
        ensures
            r@ == self.error_embed_title@,
    {
        self.error_embed_title.as_str()
    }

    /// The reply to a caller without the administrator permission.
    pub fn missing_administrator_permission(&self) -> (r: &str)
        ensures
            r@ == self.missing_administrator_permission@,
    {
        self.missing_administrator_permission.as_str()
    }

    /// The reply to a command sent outside a guild.
    pub fn error_command_executed_in_dm(&self) -> (r: &str)
        ensures
            r@ == self.error_command_executed_in_dm@,
    {
        self.error_command_executed_in_dm.as_str()
    }

    /// The reply when an internal error is swallowed.
    pub fn internal_error(&self) -> (r: &str)
        ensures
            r@ == self.internal_error@,
    {
        self.internal_error.as_str()
    }

    /// The reply when the chosen channel is of the wrong kind.
    pub fn not_valid_channel(&self) -> (r: &str)
        ensures
            r@ == self.not_valid_channel@,
    {
        self.not_valid_channel.as_str()
    }

    /// The title of a success reply.
    pub fn success_embed_title(&self) -> (r: &str)
        ensures
            r@ == self.success_embed_title@,
    {
        self.success_embed_title.as_str()
    }

    /// The reply when a channel was set.
    pub fn channel_setted_message(&self) -> (r: &str)
        ensures
            r@ == self.channel_setted_message@,
    {
        self.channel_setted_message.as_str()
    }
}

impl Default for Texts {
    /// The built-in texts.
    fn default() -> (r: Self)
        ensures
            r.error_embed_title@ == "Error"@,
            r.missing_administrator_permission@
                == ":x: You must be an administrator to execute this command."@,
            r.error_command_executed_in_dm@ == ":x: This command can only be executed in a guild."@,
            r.internal_error@
                == "An internal error has occurred, please contact the administrators."@,
            r.not_valid_channel@ == "Channel is not a text or voice channel."@,
            r.success_embed_title@ == "Success"@,
            r.channel_setted_message@ == "Channel was set."@,
    {
        Texts {
            error_embed_title: "Error".to_owned(),
            missing_administrator_permission:
                ":x: You must be an administrator to execute this command.".to_owned(),
            error_command_executed_in_dm:
                ":x: This command can only be executed in a guild.".to_owned(),
            internal_error:
                "An internal error has occurred, please contact the administrators.".to_owned(),
            not_valid_channel: "Channel is not a text or voice channel.".to_owned(),
            success_embed_title: "Success".to_owned(),
            channel_setted_message: "Channel was set.".to_owned(),
        }
    }
}

} // verus!
