//! The decisions and replies of the commands that manage a guild's dynamic
//! commands (`command add/get/remove/rename/update`, `copy-commands-from`).
//! The store is consulted by the caller; these functions take what it
//! answered and say what to store and what to reply.
use crate::messages::{concat, push_safe_text, safe_text};
use crate::dynamic::{is_alternative_of, pick_response, picked_by, DynamicReply};
use crate::random::{drawn_since, extends, DrawLog};
use crate::models::{copy_str, CommandRow, DynamicCommand};
use vstd::prelude::*;

verus! {

/// A request to add or update a command brings something to answer with:
/// attachments or a non-empty response.
pub open spec fn has_content(attachment_urls: Option<Vec<String>>, response: Seq<char>) -> bool {
    attachment_urls is Some || response.len() > 0
}

/// A request is refused exactly when it brings neither attachments nor text:
/// attachments are content whatever the response, a non-empty response is
/// content whatever the attachments, and only no attachments with an empty
/// response is not.
pub proof fn lemma_content_is_attachments_or_text(
    attachment_urls: Option<Vec<String>>,
    response: Seq<char>,
)
    ensures
        attachment_urls is Some ==> has_content(attachment_urls, response),
        response.len() > 0 ==> has_content(attachment_urls, response),
        attachment_urls is None && response.len() == 0 ==> !has_content(attachment_urls, response),
{
}

/// Whether a request to add or update a command brings something to answer
/// with.
pub fn request_has_content(attachment_urls: &Option<Vec<String>>, response: &str) -> (r: bool)
    ensures
        r == has_content(*attachment_urls, response@),
{
    !(attachment_urls.is_none() && response.is_empty())
}

/// The attachments of a message, as the commands store them: `None` when
/// there are none.
pub fn get_attachment_urls(proxy_urls: Vec<String>) -> (r: Option<Vec<String>>)
    ensures
        r is None <==> proxy_urls@.len() == 0,
        r matches Some(v) ==> v == proxy_urls,
{
    if proxy_urls.len() == 0 {
        None
    } else {
        Some(proxy_urls)
    }
}

/// The command that `command add` stores: `None` when the request brings
/// neither attachments nor a response (nothing is stored or said then).
pub fn new_command_request(
    id: String,
    guild_id: String,
    command: &str,
    response: &str,
    attachment_urls: Option<Vec<String>>,
) -> (r: Option<DynamicCommand>)
    ensures
        r is Some <==> has_content(attachment_urls, response@),
        r matches Some(c) ==> {
            &&& c.id == id
            &&& c.guild_id == guild_id
            &&& c.command@ == command@
            &&& c.response@ == response@
            &&& c.attachment_urls == attachment_urls
        },
{
    if !request_has_content(&attachment_urls, response) {
        return None;
    }
    Some(
        DynamicCommand {
            id,
            guild_id,
            attachment_urls,
            command: copy_str(command),
            response: copy_str(response),
        },
    )
}

/// What came of storing a new command.
pub enum StoreOutcome {
    /// A command of that name already existed; nothing was stored.
    AlreadyThere,
    /// The command was stored.
    Stored,
    /// The store refused the command.
    Failed,
}

/// The reply of `command add`.
pub open spec fn add_reply_text(command: Seq<char>, outcome: StoreOutcome) -> Seq<char> {
    match outcome {
        StoreOutcome::AlreadyThere => safe_text(command) + " command already exists"@,
        StoreOutcome::Stored => safe_text(command) + " command created"@,
        StoreOutcome::Failed => "error adding command"@,
    }
}

/// The reply of `command add` for the command named `command`.
pub fn add_reply(command: &str, outcome: StoreOutcome) -> (r: String)
    ensures
        r@ == add_reply_text(command@, outcome),
{
    match outcome {
        StoreOutcome::AlreadyThere => {
            let name = push_safe_text(command);
            concat(name.as_str(), " command already exists")
        },
        StoreOutcome::Stored => {
            let name = push_safe_text(command);
            concat(name.as_str(), " command created")
        },
        StoreOutcome::Failed => String::from_str("error adding command"),
    }
}

/// What came of removing a command.
pub enum RemoveOutcome {
    /// No command of that name existed.
    Missing,
    /// The command was removed.
    Removed,
    /// The store refused to remove it.
    Failed,
}

/// What the store answered to `command add` or `command remove`.
pub enum StoreEvent {
    /// The lookup of the command's name: whether a command of that name exists.
    Looked(bool),
    /// The write (the insert or the delete): whether the store took it.
    Written(bool),
}

/// What `command add` does next.
pub enum AddStep {
    /// Insert the new command.
    Insert,
    /// Stop and answer with the outcome.
    Answer(StoreOutcome),
}

/// What `command remove` does next.
pub enum RemoveStep {
    /// Delete the command.
    Delete,
    /// Stop and answer with the outcome.
    Answer(RemoveOutcome),
}

/// The next step of `command add` after the store's answer: a name that is
/// taken is refused and nothing is written; otherwise the command is inserted,
/// and the insert's result is the outcome.
pub open spec fn add_next(event: StoreEvent) -> AddStep {
    match event {
        StoreEvent::Looked(true) => AddStep::Answer(StoreOutcome::AlreadyThere),
        StoreEvent::Looked(false) => AddStep::Insert,
        StoreEvent::Written(true) => AddStep::Answer(StoreOutcome::Stored),
        StoreEvent::Written(false) => AddStep::Answer(StoreOutcome::Failed),
    }
}

/// The next step of `command add` after the store's answer (see `add_next`).
pub fn add_step(event: StoreEvent) -> (r: AddStep)
    ensures
        r == add_next(event),
{
    match event {
        StoreEvent::Looked(found) => if found {
            AddStep::Answer(StoreOutcome::AlreadyThere)
        } else {
            AddStep::Insert
        },
        StoreEvent::Written(ok) => if ok {
            AddStep::Answer(StoreOutcome::Stored)
        } else {
            AddStep::Answer(StoreOutcome::Failed)
        },
    }
}

/// The next step of `command remove` after the store's answer: a name that
/// is not there is answered as missing and nothing is deleted; otherwise the
/// command is deleted, and the delete's result is the outcome.
pub open spec fn remove_next(event: StoreEvent) -> RemoveStep {
    match event {
        StoreEvent::Looked(true) => RemoveStep::Delete,
        StoreEvent::Looked(false) => RemoveStep::Answer(RemoveOutcome::Missing),
        StoreEvent::Written(true) => RemoveStep::Answer(RemoveOutcome::Removed),
        StoreEvent::Written(false) => RemoveStep::Answer(RemoveOutcome::Failed),
    }
}

/// The next step of `command remove` after the store's answer (see
/// `remove_next`).
pub fn remove_step(event: StoreEvent) -> (r: RemoveStep)
    ensures
        r == remove_next(event),
{
    match event {
        StoreEvent::Looked(found) => if found {
            RemoveStep::Delete
        } else {
            RemoveStep::Answer(RemoveOutcome::Missing)
        },
        StoreEvent::Written(ok) => if ok {
            RemoveStep::Answer(RemoveOutcome::Removed)
        } else {
            RemoveStep::Answer(RemoveOutcome::Failed)
        },
    }
}

/// The reply of `command remove`.
pub open spec fn remove_reply_text(command: Seq<char>, outcome: RemoveOutcome) -> Seq<char> {
    match outcome {
        RemoveOutcome::Missing => safe_text(command) + " command doesn't exist"@,
        RemoveOutcome::Removed => command + " command deleted"@,
        RemoveOutcome::Failed => "error removing command"@,
    }
}

/// The reply of `command remove` for the command named `command`.
pub fn remove_reply(command: &str, outcome: RemoveOutcome) -> (r: String)
    ensures
        r@ == remove_reply_text(command@, outcome),
{
    match outcome {
        RemoveOutcome::Missing => {
            let name = push_safe_text(command);
            concat(name.as_str(), " command doesn't exist")
        },
        RemoveOutcome::Removed => concat(command, " command deleted"),
        RemoveOutcome::Failed => String::from_str("error removing command"),
    }
}

/// The note that there is no command named `command`.
pub open spec fn not_found_text(command: Seq<char>) -> Seq<char> {
    "command '"@ + command + "' not found"@
}

/// The reply of `command get` for the command named `command`, given what the
/// store holds under that name: the same as running the command (the
/// alternative of its response that the draws from `log` pick, with its
/// attachments), or a note that there is no such command (and nothing drawn).
pub fn get_reply(command: &str, found: Option<DynamicCommand>, log: &mut DrawLog) -> (r:
    DynamicReply)
    ensures
        extends(old(log).history(), final(log).history()),
        match found {
            Some(c) => {
                &&& picked_by(
                    r.content@,
                    c.response@,
                    drawn_since(old(log).history(), final(log).history()),
                )
                &&& is_alternative_of(r.content@, c.response@)
                &&& r.attachment_urls == c.attachment_urls
            },
            None => {
                &&& r.content@ == not_found_text(command@)
                &&& r.attachment_urls is None
                &&& final(log).history() == old(log).history()
            },
        },
{
    match found {
        Some(c) => {
            let content = pick_response(c.response.as_str(), log);
            DynamicReply { content, attachment_urls: c.attachment_urls }
        },
        None => {
            assert(log.history().take(log.history().len() as int) =~= log.history());
            let head = concat("command '", command);
            DynamicReply { content: concat(head.as_str(), "' not found"), attachment_urls: None }
        },
    }
}

/// The reply of `command rename`.
pub open spec fn rename_reply_text(old_name: Seq<char>, new_name: Seq<char>, found: bool) -> Seq<
    char,
> {
    if found {
        safe_text(old_name) + " renamed to "@ + safe_text(new_name)
    } else {
        safe_text(old_name) + " command not found"@
    }
}

/// The reply of `command rename`, given whether the command existed (and was
/// renamed).
pub fn rename_reply(old_name: &str, new_name: &str, found: bool) -> (r: String)
    ensures
        r@ == rename_reply_text(old_name@, new_name@, found),
{
    let old_safe = push_safe_text(old_name);
    if found {
        let head = concat(old_safe.as_str(), " renamed to ");
        let new_safe = push_safe_text(new_name);
        concat(head.as_str(), new_safe.as_str())
    } else {
        concat(old_safe.as_str(), " command not found")
    }
}

/// The reply of `command update`.
pub open spec fn update_reply_text(command: Seq<char>, found: bool) -> Seq<char> {
    if found {
        safe_text(command) + " command updated"@
    } else {
        safe_text(command) + " command not found"@
    }
}

/// The reply of `command update`, given whether the command existed (and was
/// updated).
pub fn update_reply(command: &str, found: bool) -> (r: String)
    ensures
        r@ == update_reply_text(command@, found),
{
    let name = push_safe_text(command);
    if found {
        concat(name.as_str(), " command updated")
    } else {
        concat(name.as_str(), " command not found")
    }
}

/// The copy of the command `origin` in the guild `guild_id`, under the id `id`.
pub open spec fn copied_row(origin: CommandRow, id: Seq<char>, guild_id: Seq<char>) -> CommandRow {
    CommandRow { id, guild_id, ..origin }
}

/// The copy of `origin` that `copy-commands-from` stores in the guild
/// `guild_id`, under the fresh id `id`.
pub fn copied_command(origin: DynamicCommand, id: String, guild_id: String) -> (r: DynamicCommand)
    ensures
        r@ == copied_row(origin@, id@, guild_id@),
        r.id == id,
        r.guild_id == guild_id,
        r.command == origin.command,
        r.response == origin.response,
        r.attachment_urls == origin.attachment_urls,
{
    DynamicCommand {
        id,
        command: origin.command,
        guild_id,
        response: origin.response,
        attachment_urls: origin.attachment_urls,
    }
}

/// The list lines of a report: each name after `- `, made safe, on a line.
pub open spec fn name_lines(names: Seq<Seq<char>>) -> Seq<char>
    decreases names.len(),
{
    if names.len() == 0 {
        seq![]
    } else {
        name_lines(names.drop_last()) + safe_text("- "@ + names.last()) + seq!['\n']
    }
}

/// The report of `copy-commands-from`: the commands that were added, then
/// those that already existed.
pub open spec fn copy_report_text(added: Seq<Seq<char>>, skipped: Seq<Seq<char>>) -> Seq<char> {
    "**Added commands:**"@ + seq!['\n'] + name_lines(added) + "\n**Already existing commands (not added):**"@
        + seq!['\n'] + name_lines(skipped)
}

/// Appends the list lines for `names` to `out`.
fn push_name_lines(out: &mut String, names: &Vec<String>)
    ensures
        final(out)@ == old(out)@ + name_lines(names@.map_values(|s: String| s@)),
{
    let ghost all = names@.map_values(|s: String| s@);
    let mut i: usize = 0;
    while i < names.len()
        invariant
            i <= names.len(),
            all == names@.map_values(|s: String| s@),
            out@ == old(out)@ + name_lines(all.take(i as int)),
        decreases names.len() - i,
    {
        let item = concat("- ", names[i].as_str());
        let line = push_safe_text(item.as_str());
        out.append(line.as_str());
        out.append("\n");
        proof {
            reveal_strlit("\n");
            let t = all.take(i + 1);
            assert(t.drop_last() =~= all.take(i as int));
            assert(t.last() == names@[i as int]@);
            assert(out@ =~= old(out)@ + name_lines(t));
        }
        i = i + 1;
    }
    assert(all.take(i as int) =~= all);
}

/// The report of `copy-commands-from`.
pub fn copy_report(added: &Vec<String>, skipped: &Vec<String>) -> (r: String)
    ensures
        r@ == copy_report_text(
            added@.map_values(|s: String| s@),
            skipped@.map_values(|s: String| s@),
        ),
{
    let mut out = String::from_str("**Added commands:**");
    out.append("\n");
    push_name_lines(&mut out, added);
    out.append("\n**Already existing commands (not added):**");
    out.append("\n");
    push_name_lines(&mut out, skipped);
    proof {
        reveal_strlit("\n");
    }
    out
}

/// The progress of `copy-commands-from`: the names copied so far and the
/// names skipped because the guild already had them, in order.
pub struct CopyProgress {
    added: Vec<String>,
    skipped: Vec<String>,
}

impl View for CopyProgress {
    type V = (Seq<Seq<char>>, Seq<Seq<char>>);

    closed spec fn view(&self) -> (Seq<Seq<char>>, Seq<Seq<char>>) {
        (self.added@.map_values(|s: String| s@), self.skipped@.map_values(|s: String| s@))
    }
}

impl CopyProgress {
    /// Nothing copied or skipped yet.
    pub fn new() -> (r: CopyProgress)
        ensures
            r@.0 == Seq::<Seq<char>>::empty(),
            r@.1 == Seq::<Seq<char>>::empty(),
    {
        let r = CopyProgress { added: Vec::new(), skipped: Vec::new() };
        assert(r@.0 =~= Seq::<Seq<char>>::empty());
        assert(r@.1 =~= Seq::<Seq<char>>::empty());
        r
    }

    /// Records the next command of the origin guild, given whether the guild
    /// copied into already has a command of that name; says whether to copy
    /// it (only when it has none).
    pub fn record(&mut self, name: &str, already_there: bool) -> (copy: bool)
        ensures
            copy == !already_there,
            copy ==> final(self)@.0 == old(self)@.0.push(name@) && final(self)@.1 == old(self)@.1,
            !copy ==> final(self)@.1 == old(self)@.1.push(name@) && final(self)@.0 == old(self)@.0,
    {
        let entry = copy_str(name);
        if already_there {
            self.skipped.push(entry);
            assert(self@.1 =~= old(self)@.1.push(name@));
            false
        } else {
            self.added.push(entry);
            assert(self@.0 =~= old(self)@.0.push(name@));
            true
        }
    }

    /// The report of the copy so far.
    pub fn report(&self) -> (r: String)
        ensures
            r@ == copy_report_text(self@.0, self@.1),
    {
        copy_report(&self.added, &self.skipped)
    }
}

} // verus!
