//! Recognising Discord mentions (`<@user>`, `<@!user>`, `<@&role>`,
//! `<#channel>`) with serenity's parsers.
use crate::numbers::parse_u64_spec;
use vstd::prelude::*;

verus! {

/// `s` starts with `prefix`.
pub open spec fn starts_with(s: Seq<char>, prefix: Seq<char>) -> bool {
    prefix.len() <= s.len() && s.take(prefix.len() as int) == prefix
}

/// `c` is written with a single byte in UTF-8.
pub open spec fn is_ascii_char(c: char) -> bool {
    (c as u32) < 128
}

/// The id that serenity's `parse_username` reads from `s`.
pub open spec fn username_mention_id(s: Seq<char>) -> Option<u64> {
    if s.len() < 4 {
        None
    } else if starts_with(s, seq!['<', '@', '!']) {
        parse_u64_spec(s.subrange(3, s.len() - 1))
    } else if starts_with(s, seq!['<', '@']) {
        parse_u64_spec(s.subrange(2, s.len() - 1))
    } else {
        None
    }
}

/// The id that serenity's `parse_role` reads from `s`.
pub open spec fn role_mention_id(s: Seq<char>) -> Option<u64> {
    if s.len() >= 4 && starts_with(s, seq!['<', '@', '&']) && s.last() == '>' {
        parse_u64_spec(s.subrange(3, s.len() - 1))
    } else {
        None
    }
}

/// The id that serenity's `parse_channel` reads from `s`.
pub open spec fn channel_mention_id(s: Seq<char>) -> Option<u64> {
    if s.len() >= 4 && starts_with(s, seq!['<', '#']) && s.last() == '>' {
        parse_u64_spec(s.subrange(2, s.len() - 1))
    } else {
        None
    }
}

/// serenity's `parse_username` cuts off the last byte of a text that starts
/// with `<@`; when the last character takes more than one byte it panics.
pub open spec fn username_parse_panics(s: Seq<char>) -> bool {
    starts_with(s, seq!['<', '@']) && s.len() >= 3 && !is_ascii_char(s.last())
}

/// serenity's `utils::parse_username`: the user id of a `<@id>` or `<@!id>`
/// mention. The crate checks the length in bytes (at least 4), skips the
/// prefix, drops the last byte without looking at it, and reads the rest as a
/// `u64`; for the texts that `requires` admits, byte and character lengths
/// agree on that check.
#[verifier::external_body]
fn parse_username(s: &str) -> (r: Option<u64>)
    requires
        !username_parse_panics(s@),
    ensures
        r == username_mention_id(s@),
{
    serenity::utils::parse_username(s)
}

/// serenity's `utils::parse_role`: the role id of a `<@&id>` mention (at
/// least 4 bytes, ending in `>`, the id read as a `u64`).
#[verifier::external_body]
fn parse_role(s: &str) -> (r: Option<u64>)
    ensures
        r == role_mention_id(s@),
{
    serenity::utils::parse_role(s)
}

/// serenity's `utils::parse_channel`: the channel id of a `<#id>` mention
/// (at least 4 bytes, ending in `>`, the id read as a `u64`).
#[verifier::external_body]
fn parse_channel(s: &str) -> (r: Option<u64>)
    ensures
        r == channel_mention_id(s@),
{
    serenity::utils::parse_channel(s)
}

/// The id that a mention of any kind carries: a role mention is read as a
/// role, another `<@` text as a user, a `<#` text as a channel.
pub open spec fn mention_id(s: Seq<char>) -> Option<u64> {
    if starts_with(s, seq!['<', '@', '&']) {
        role_mention_id(s)
    } else if starts_with(s, seq!['<', '@']) {
        username_mention_id(s)
    } else if starts_with(s, seq!['<', '#']) {
        channel_mention_id(s)
    } else {
        None
    }
}

/// Reading a mention panics: a user mention whose last character takes more
/// than one byte.
pub open spec fn mention_parse_panics(s: Seq<char>) -> bool {
    !starts_with(s, seq!['<', '@', '&']) && username_parse_panics(s)
}

/// Whether `s` starts with `prefix`.
fn starts_with_exec(s: &Vec<char>, prefix: &Vec<char>) -> (r: bool)
    ensures
        r == starts_with(s@, prefix@),
{
    if prefix.len() > s.len() {
        return false;
    }
    let mut i: usize = 0;
    while i < prefix.len()
        invariant
            prefix.len() <= s.len(),
            i <= prefix.len(),
            s@.take(i as int) == prefix@.take(i as int),
        decreases prefix.len() - i,
    {
        if s[i] != prefix[i] {
            assert(s@.take(prefix.len() as int)[i as int] != prefix@[i as int]);
            return false;
        }
        i = i + 1;
        assert(s@.take(i as int) =~= s@.take(i - 1).push(s@[i - 1]));
        assert(prefix@.take(i as int) =~= prefix@.take(i - 1).push(prefix@[i - 1]));
    }
    assert(prefix@.take(i as int) =~= prefix@);
    true
}

/// The id carried by the mention `s`, if it is one.
pub fn parse_mention(s: &str) -> (r: Option<u64>)
    requires
        !mention_parse_panics(s@),
    ensures
        r == mention_id(s@),
{
    let chars = crate::text::str_chars(s);
    let role_prefix = vec!['<', '@', '&'];
    let user_prefix = vec!['<', '@'];
    let channel_prefix = vec!['<', '#'];
    assert(role_prefix@ =~= seq!['<', '@', '&']);
    assert(user_prefix@ =~= seq!['<', '@']);
    assert(channel_prefix@ =~= seq!['<', '#']);
    if starts_with_exec(&chars, &role_prefix) {
        parse_role(s)
    } else if starts_with_exec(&chars, &user_prefix) {
        parse_username(s)
    } else if starts_with_exec(&chars, &channel_prefix) {
        parse_channel(s)
    } else {
        None
    }
}

/// Whether reading `s` as a mention would panic.
pub fn mention_would_panic(s: &str) -> (r: bool)
    ensures
        r == mention_parse_panics(s@),
{
    let chars = crate::text::str_chars(s);
    let role_prefix = vec!['<', '@', '&'];
    let user_prefix = vec!['<', '@'];
    assert(role_prefix@ =~= seq!['<', '@', '&']);
    assert(user_prefix@ =~= seq!['<', '@']);
    if starts_with_exec(&chars, &role_prefix) {
        return false;
    }
    if !starts_with_exec(&chars, &user_prefix) || chars.len() < 3 {
        return false;
    }
    let last = chars[chars.len() - 1];
    !((last as u32) < 128)
}

} // verus!
