//! The records that the bot keeps per guild: its dynamic commands and its
//! settings.
use vstd::prelude::*;

verus! {

/// A command that a guild's moderators defined: when someone types it, the
/// bot answers with `response` (and the attachments, if any).
pub struct DynamicCommand {
    pub id: String,
    pub guild_id: String,
    pub attachment_urls: Option<Vec<String>>,
    pub command: String,
    pub response: String,
}

/// A stored dynamic command, as values.
pub struct CommandRow {
    pub id: Seq<char>,
    pub guild_id: Seq<char>,
    pub attachment_urls: Option<Seq<Seq<char>>>,
    pub command: Seq<char>,
    pub response: Seq<char>,
}

/// The attachment links, as values.
pub open spec fn urls_view(urls: Option<Vec<String>>) -> Option<Seq<Seq<char>>> {
    match urls {
        Some(v) => Some(v@.map_values(|u: String| u@)),
        None => None,
    }
}

impl View for DynamicCommand {
    type V = CommandRow;

    open spec fn view(&self) -> CommandRow {
        CommandRow {
            id: self.id@,
            guild_id: self.guild_id@,
            attachment_urls: urls_view(self.attachment_urls),
            command: self.command@,
            response: self.response@,
        }
    }
}

impl DynamicCommand {
    /// Sets the response after it was changed in the store. The attachments
    /// are left as they are.
    pub fn update(&mut self, new_response: &str)
        ensures
            final(self).response@ == new_response@,
            final(self).id == old(self).id,
            final(self).guild_id == old(self).guild_id,
            final(self).command == old(self).command,
            final(self).attachment_urls == old(self).attachment_urls,
    {
        self.response = copy_str(new_response);
    }

    /// Sets the name after it was changed in the store.
    pub fn rename(&mut self, new_command_name: &str)
        ensures
            final(self).command@ == new_command_name@,
            final(self).id == old(self).id,
            final(self).guild_id == old(self).guild_id,
            final(self).response == old(self).response,
            final(self).attachment_urls == old(self).attachment_urls,
    {
        self.command = copy_str(new_command_name);
    }
}

/// A guild's settings: the role that may manage commands and the prefix that
/// the bot answers to.
pub struct GuildData {
    pub guild_id: String,
    pub moderator_role_id: Option<String>,
    pub dynamic_prefix: Option<String>,
}

impl Default for GuildData {
    /// Settings with nothing set.
    fn default() -> (g: GuildData)
        ensures
            g.guild_id@ == Seq::<char>::empty(),
            g.moderator_role_id is None,
            g.dynamic_prefix is None,
    {
        GuildData { guild_id: String::new(), moderator_role_id: None, dynamic_prefix: None }
    }
}

/// An owned copy of `s`.
pub fn copy_str(s: &str) -> (r: String)
    ensures
        r@ == s@,
{
    String::from_str(s)
}

} // verus!
