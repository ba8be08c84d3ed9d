//! Building the bot's message texts with serenity's formatting rules.
use crate::numbers::{decimal, push_decimal};
use crate::text::string_from_chars;
use serenity::model::id::{RoleId, UserId};
use serenity::model::mention::Mentionable;
use serenity::utils::MessageBuilder;
use vstd::prelude::*;

verus! {

/// `s` with each occurrence of `pat`, found from the left without overlap,
/// replaced by `rep`, as `str::replace` does.
pub open spec fn replace_all(s: Seq<char>, pat: Seq<char>, rep: Seq<char>) -> Seq<char>
    decreases s.len(),
{
    if s.len() == 0 || pat.len() == 0 {
        s
    } else if s.len() >= pat.len() && s.take(pat.len() as int) == pat {
        rep + replace_all(s.skip(pat.len() as int), pat, rep)
    } else {
        seq![s[0]] + replace_all(s.skip(1), pat, rep)
    }
}

/// The right-to-left and zero-width characters that serenity turns into
/// spaces.
pub open spec fn invisible_char(c: char) -> bool {
    c == '\u{202E}' || c == '\u{200F}' || c == '\u{202B}' || c == '\u{200B}' || c
        == '\u{200D}' || c == '\u{200C}'
}

/// serenity's text normalisation: invite links broken with a one-dot leader,
/// invisible characters made spaces, then `@everyone` and `@here` broken with
/// a zero-width space.
pub open spec fn normalized(s: Seq<char>) -> Seq<char> {
    let links = replace_all(
        replace_all(
            replace_all(
                replace_all(
                    replace_all(
                        replace_all(s, "discord.gg"@, "discord\u{2024}gg"@),
                        "discord.me"@,
                        "discord\u{2024}me"@,
                    ),
                    "discordlist.net"@,
                    "discordlist\u{2024}net"@,
                ),
                "discordservers.com"@,
                "discordservers\u{2024}com"@,
            ),
            "discord.com/invite"@,
            "discord\u{2024}com/invite"@,
        ),
        "discordapp.com/invite"@,
        "discordapp\u{2024}com/invite"@,
    );
    let visible = links.map_values(|c: char| if invisible_char(c) { ' ' } else { c });
    replace_all(
        replace_all(visible, "@everyone"@, "@\u{200B}everyone"@),
        "@here"@,
        "@\u{200B}here"@,
    )
}

/// What serenity's `MessageBuilder::push_safe` writes for `s`: the text
/// normalised, then `*`, `` ` `` and `_` escaped with a backslash.
pub open spec fn safe_text(s: Seq<char>) -> Seq<char> {
    replace_all(
        replace_all(replace_all(normalized(s), seq!['*'], seq!['\\', '*']), seq!['`'], seq!['\\', '`']),
        seq!['_'],
        seq!['\\', '_'],
    )
}

/// serenity's `MessageBuilder::push_safe`, on an empty builder: the plain
/// content `s` (no formatting flags) normalised and escaped, as `safe_text`
/// says.
#[verifier::external_body]
pub(crate) fn push_safe_text(s: &str) -> (r: String)
    ensures
        r@ == safe_text(s@),
{
    MessageBuilder::new().push_safe(s).build()
}

/// How serenity mentions the user `id`: `<@id>`.
pub open spec fn user_mention_text(id: u64) -> Seq<char> {
    seq!['<', '@'] + decimal(id as nat) + seq!['>']
}

/// How serenity mentions the role `id`: `<@&id>`.
pub open spec fn role_mention_text(id: u64) -> Seq<char> {
    seq!['<', '@', '&'] + decimal(id as nat) + seq!['>']
}

/// serenity's `Mention` of a user, written out (`Display` of
/// `Mention::User`, which writes `<@`, the id in decimal and `>`).
#[verifier::external_body]
pub(crate) fn user_mention(id: u64) -> (r: String)
    ensures
        r@ == user_mention_text(id),
{
    UserId(id).mention().to_string()
}

/// serenity's `Mention` of a role, written out (`Display` of
/// `Mention::Role`, which writes `<@&`, the id in decimal and `>`).
#[verifier::external_body]
pub(crate) fn role_mention(id: u64) -> (r: String)
    ensures
        r@ == role_mention_text(id),
{
    RoleId(id).mention().to_string()
}

/// The decimal writing of `n`.
pub fn decimal_string(n: u64) -> (r: String)
    ensures
        r@ == decimal(n as nat),
{
    let mut v: Vec<char> = Vec::new();
    push_decimal(&mut v, n);
    assert(v@ =~= decimal(n as nat));
    string_from_chars(v.as_slice())
}

/// `s` followed by `tail`.
pub fn concat(s: &str, tail: &str) -> (r: String)
    ensures
        r@ == s@ + tail@,
{
    let mut r = String::from_str(s);
    r.append(tail);
    r
}

} // verus!
