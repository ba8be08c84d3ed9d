//! A guild's settings: the prefix the bot answers to and the role that may
//! manage dynamic commands, with the checks and replies around them.
use crate::mentions::{mention_id, mention_parse_panics, parse_mention};
use crate::messages::{concat, decimal_string, role_mention, role_mention_text};
use crate::models::{copy_str, GuildData};
use crate::numbers::{decimal, parse_u64, parse_u64_spec};
use vstd::prelude::*;

verus! {

/// The prefix the bot answers to where a guild has set none.
pub open spec fn default_prefix() -> Seq<char> {
    seq!['?']
}

/// The prefix for a guild, given its stored settings (`None` when there are
/// none, or when they could not be read).
pub open spec fn prefix_for(guild_data: Option<GuildData>) -> Seq<char> {
    match guild_data {
        Some(g) => match g.dynamic_prefix {
            Some(p) => p@,
            None => default_prefix(),
        },
        None => default_prefix(),
    }
}

/// A guild answers to the prefix it stored; a guild that stored none, or
/// whose settings are missing, answers to `?`.
pub proof fn lemma_stored_prefix_wins(guild_data: Option<GuildData>)
    ensures
        guild_data matches Some(g) ==> (g.dynamic_prefix matches Some(p) ==> prefix_for(guild_data)
            == p@),
        guild_data matches Some(g) ==> (g.dynamic_prefix is None ==> prefix_for(guild_data)
            == seq!['?']),
        guild_data is None ==> prefix_for(guild_data) == seq!['?'],
{
}

/// The prefix that the bot answers to in a guild with the settings
/// `guild_data`.
pub fn resolve_prefix(guild_data: Option<GuildData>) -> (r: String)
    ensures
        r@ == prefix_for(guild_data),
{
    match guild_data {
        Some(g) => match g.dynamic_prefix {
            Some(p) => p,
            None => default_prefix_string(),
        },
        None => default_prefix_string(),
    }
}

/// The default prefix, as a string.
fn default_prefix_string() -> (r: String)
    ensures
        r@ == default_prefix(),
{
    let v = vec!['?'];
    assert(v@ =~= default_prefix());
    crate::text::string_from_chars(v.as_slice())
}

/// What `set-prefix` does with a requested prefix.
pub enum PrefixDecision {
    /// An empty prefix: nothing is done or said.
    Ignore,
    /// A mention cannot be a prefix: the bot says so.
    RejectMention,
    /// The prefix is stored.
    Accept,
}

/// What `set-prefix` does with `prefix`.
pub open spec fn prefix_decision(prefix: Seq<char>) -> PrefixDecision {
    if prefix.len() == 0 {
        PrefixDecision::Ignore
    } else if mention_id(prefix) is Some {
        PrefixDecision::RejectMention
    } else {
        PrefixDecision::Accept
    }
}

/// Only the empty prefix is ignored; a non-empty prefix is refused exactly
/// when it reads as a mention, and stored otherwise.
pub proof fn lemma_only_empty_prefix_ignored(prefix: Seq<char>)
    ensures
        prefix_decision(prefix) is Ignore <==> prefix.len() == 0,
        prefix.len() > 0 ==> (prefix_decision(prefix) is RejectMention <==> mention_id(prefix) is Some),
        prefix.len() > 0 && mention_id(prefix) is None ==> prefix_decision(prefix) is Accept,
{
}

/// Decides what `set-prefix` does with `prefix`.
pub fn check_prefix(prefix: &str) -> (r: PrefixDecision)
    requires
        !mention_parse_panics(prefix@),
    ensures
        r == prefix_decision(prefix@),
{
    if prefix.is_empty() {
        PrefixDecision::Ignore
    } else if parse_mention(prefix).is_some() {
        PrefixDecision::RejectMention
    } else {
        PrefixDecision::Accept
    }
}

/// The reply to a prefix that is a mention.
pub fn mention_prefix_reply() -> (r: String)
    ensures
        r@ == "Can't use a mention as a prefix"@,
{
    String::from_str("Can't use a mention as a prefix")
}

/// The reply once `prefix` is stored.
pub open spec fn prefix_set_text(prefix: Seq<char>) -> Seq<char> {
    "prefix "@ + prefix + " set as the default prefix for this server."@
}

/// The reply once `prefix` is stored.
pub fn prefix_set_reply(prefix: &str) -> (r: String)
    ensures
        r@ == prefix_set_text(prefix@),
{
    let head = concat("prefix ", prefix);
    concat(head.as_str(), " set as the default prefix for this server.")
}

/// The settings of `guild_id` once `prefix` is its prefix: the rest of
/// `existing` is kept.
pub fn with_prefix(existing: GuildData, guild_id: String, prefix: &str) -> (r: GuildData)
    ensures
        r.guild_id == guild_id,
        r.moderator_role_id == existing.moderator_role_id,
        r.dynamic_prefix matches Some(p) && p@ == prefix@,
{
    GuildData {
        guild_id,
        dynamic_prefix: Some(copy_str(prefix)),
        moderator_role_id: existing.moderator_role_id,
    }
}

/// The settings of `guild_id` once the role `role_id` is its moderator role
/// (stored as its decimal id): the rest of `existing` is kept.
pub fn with_moderator_role(existing: GuildData, guild_id: String, role_id: u64) -> (r: GuildData)
    ensures
        r.guild_id == guild_id,
        r.dynamic_prefix == existing.dynamic_prefix,
        r.moderator_role_id matches Some(m) && m@ == decimal(role_id as nat),
{
    GuildData {
        guild_id,
        moderator_role_id: Some(decimal_string(role_id)),
        dynamic_prefix: existing.dynamic_prefix,
    }
}

/// The reply once the role `role_id` is the moderator role.
pub open spec fn moderator_role_set_text(role_id: u64) -> Seq<char> {
    "role "@ + role_mention_text(role_id) + " set as the minimum moderator role."@
}

/// The reply once the role `role_id` is the moderator role.
pub fn moderator_role_set_reply(role_id: u64) -> (r: String)
    ensures
        r@ == moderator_role_set_text(role_id),
{
    let mention = role_mention(role_id);
    let head = concat("role ", mention.as_str());
    concat(head.as_str(), " set as the minimum moderator role.")
}

/// Why a member may not manage dynamic commands.
pub enum CheckFailure {
    /// Something needed for the check is missing.
    Unknown,
    /// The member lacks the role; the text is shown to them.
    User(String),
}

/// The text shown to a member who lacks the moderator role.
pub open spec fn lacked_role_text() -> Seq<char> {
    "Lacked required role or higher"@
}

/// The first part of the moderator check, before the member's roles are
/// looked at.
pub enum ModeratorStep {
    /// The member may manage commands.
    Allowed,
    /// The member may not.
    Refused(CheckFailure),
    /// The member may if one of their roles stands at or above the role with
    /// this id.
    CheckRole(u64),
}

/// Where the moderator check stands before the member's roles are looked at.
pub enum ModeratorVerdict {
    Allow,
    RefuseUnknown,
    RefuseLackedRole,
    CheckRole(u64),
}

/// The moderator check up to the roles: owners of the bot pass; outside a
/// guild, or without readable settings, the check fails; a guild without a
/// moderator role lets no one else pass; a stored role id that does not read
/// as a number fails the check; otherwise the member's roles decide.
pub open spec fn moderator_verdict(is_owner: bool, in_guild: bool, guild_data: Option<GuildData>) -> ModeratorVerdict {
    if is_owner {
        ModeratorVerdict::Allow
    } else if !in_guild {
        ModeratorVerdict::RefuseUnknown
    } else {
        match guild_data {
            None => ModeratorVerdict::RefuseUnknown,
            Some(g) => match g.moderator_role_id {
                None => ModeratorVerdict::RefuseLackedRole,
                Some(id) => match parse_u64_spec(id@) {
                    None => ModeratorVerdict::RefuseUnknown,
                    Some(v) => ModeratorVerdict::CheckRole(v),
                },
            },
        }
    }
}

/// An owner of the bot always passes the moderator check, in a guild or not,
/// whatever the guild's settings.
pub proof fn lemma_owner_always_passes(in_guild: bool, guild_data: Option<GuildData>)
    ensures
        moderator_verdict(true, in_guild, guild_data) is Allow,
{
}

/// Anyone else is never let through without a role check: outside a guild or
/// without settings the check fails, and in a guild with settings it fails
/// or goes on to the member's roles.
pub proof fn lemma_others_need_a_role(in_guild: bool, guild_data: Option<GuildData>)
    ensures
        !(moderator_verdict(false, in_guild, guild_data) is Allow),
        !in_guild ==> moderator_verdict(false, in_guild, guild_data) is RefuseUnknown,
        guild_data is None ==> moderator_verdict(false, in_guild, guild_data) is RefuseUnknown,
        guild_data matches Some(g) ==> (in_guild && g.moderator_role_id is None
            ==> moderator_verdict(false, in_guild, guild_data) is RefuseLackedRole),
        guild_data matches Some(g) ==> (g.moderator_role_id matches Some(id) ==> (parse_u64_spec(
            id@,
        ) matches Some(v) ==> (in_guild ==> moderator_verdict(false, in_guild, guild_data)
            == ModeratorVerdict::CheckRole(v)))),
{
}

/// Takes the moderator check as far as it goes without the member's roles.
pub fn moderator_step(is_owner: bool, in_guild: bool, guild_data: Option<GuildData>) -> (r: ModeratorStep)
    ensures
        (match moderator_verdict(is_owner, in_guild, guild_data) {
            ModeratorVerdict::Allow => r is Allowed,
            ModeratorVerdict::RefuseUnknown => r matches ModeratorStep::Refused(
                CheckFailure::Unknown,
            ),
            ModeratorVerdict::RefuseLackedRole => (r matches ModeratorStep::Refused(
                CheckFailure::User(msg),
            ) && msg@ == lacked_role_text()),
            ModeratorVerdict::CheckRole(id) => (r matches ModeratorStep::CheckRole(v) && v == id),
        }),
{
    if is_owner {
        return ModeratorStep::Allowed;
    }
    if !in_guild {
        return ModeratorStep::Refused(CheckFailure::Unknown);
    }
    match guild_data {
        None => ModeratorStep::Refused(CheckFailure::Unknown),
        Some(g) => match g.moderator_role_id {
            None => ModeratorStep::Refused(CheckFailure::User(lacked_role_string())),
            Some(id) => match parse_u64(id.as_str()) {
                None => ModeratorStep::Refused(CheckFailure::Unknown),
                Some(v) => ModeratorStep::CheckRole(v),
            },
        },
    }
}

/// The text shown to a member who lacks the moderator role.
fn lacked_role_string() -> (r: String)
    ensures
        r@ == lacked_role_text(),
{
    String::from_str("Lacked required role or higher")
}

/// Some role of the member stands at or above the required role. Nothing is
/// known when the required role or the member's roles could not be read.
pub open spec fn role_high_enough(required_position: Option<i64>, member_positions: Option<Seq<i64>>) -> bool {
    &&& required_position is Some
    &&& member_positions is Some
    &&& exists|i: int|
        0 <= i < member_positions->0.len() && member_positions->0[i] >= required_position->0
}

/// Whether a member with roles at `member_positions` may pass for the role at
/// `required_position`.
pub fn user_role_position_check(
    required_position: Option<i64>,
    member_positions: Option<Vec<i64>>,
) -> (r: bool)
    ensures
        r == role_high_enough(
            required_position,
            match member_positions {
                Some(v) => Some(v@),
                None => None,
            },
        ),
{
    let req = match required_position {
        Some(req) => req,
        None => return false,
    };
    let ps = match member_positions {
        Some(ps) => ps,
        None => return false,
    };
    let mut i: usize = 0;
    while i < ps.len()
        invariant
            i <= ps.len(),
            forall|j: int| 0 <= j < i ==> ps@[j] < req,
            member_positions == Some(ps),
            required_position == Some(req),
        decreases ps.len() - i,
    {
        if ps[i] >= req {
            assert(ps@[i as int] >= req);
            let ghost mp: Option<Seq<i64>> = Some(ps@);
            assert(mp->0[i as int] >= req);
            assert(role_high_enough(required_position, mp));
            return true;
        }
        i = i + 1;
    }
    false
}

/// The end of the moderator check, once the roles were looked at.
pub fn role_check_result(high_enough: bool) -> (r: Result<(), CheckFailure>)
    ensures
        high_enough ==> r is Ok,
        !high_enough ==> (r matches Err(CheckFailure::User(msg)) && msg@ == lacked_role_text()),
{
    if high_enough {
        Ok(())
    } else {
        Err(CheckFailure::User(lacked_role_string()))
    }
}

/// The role that `set-moderator-role` stores is the role that the moderator
/// check then asks for: the stored decimal id reads back as the same id.
pub proof fn lemma_stored_role_is_checked(stored: GuildData, role_id: u64)
    requires
        stored.moderator_role_id matches Some(m) && m@ == decimal(role_id as nat),
    ensures
        moderator_verdict(false, true, Some(stored)) == ModeratorVerdict::CheckRole(role_id),
{
    crate::numbers::lemma_decimal_parses_back(role_id);
}

} // verus!
