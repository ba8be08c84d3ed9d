//! The replies of the text games: "uwu" and "schizo". Both filter profanity
//! first and start the reply with a zero-width space, so that the bot's answer
//! never reads as a command.
use crate::profanity::{
    censor_text,
    censored_text,
    custom_profanities,
    get_custom_censor,
    grawlix,
    standard_censor,
    standard_profanities,
};
use crate::schizo::{do_schizo, is_schizo_of};
use crate::text::string_from_chars;
use vstd::prelude::*;

verus! {

/// The character put in front of each game reply.
pub const ZERO_WIDTH_SPACE: char = '\u{200b}';

/// What `uwuify_str_sse` of the `uwuify` crate makes of `s`.
pub uninterp spec fn uwu_text(s: Seq<char>) -> Seq<char>;

/// `uwuifier::uwuify_str_sse` of the `uwuify` crate. Its output depends on `s`
/// alone (the crate seeds its generator with a constant); the crate panics on
/// a processor without SSE4.1, which no clause here can rule out.
#[verifier::external_body]
fn uwuify(s: &str) -> (r: String)
    ensures
        r@ == uwu_text(s@),
{
    uwuifier::uwuify_str_sse(s)
}

/// The "uwu" reply to `text`.
pub open spec fn uwu_reply_text(text: Seq<char>) -> Seq<char> {
    seq![ZERO_WIDTH_SPACE] + uwu_text(censored_text(custom_profanities(), text, grawlix()))
}

/// `s` is the zero-width space followed by `rest`.
pub open spec fn is_marked(s: Seq<char>, rest: Seq<char>) -> bool {
    s == seq![ZERO_WIDTH_SPACE] + rest
}

/// A string made of the zero-width space followed by `rest`.
fn marked(rest: &str) -> (r: String)
    ensures
        is_marked(r@, rest@),
{
    let mark = vec![ZERO_WIDTH_SPACE];
    assert(mark@ =~= seq![ZERO_WIDTH_SPACE]);
    let mut r = string_from_chars(mark.as_slice());
    r.append(rest);
    r
}

/// The "uwu" command: nothing for an empty text, otherwise the text with
/// profanity filtered out, uwuified.
pub fn uwu_reply(text: &str) -> (r: Option<String>)
    ensures
        r is None <==> text@.len() == 0,
        r matches Some(s) ==> s@ == uwu_reply_text(text@),
{
    if text.is_empty() {
        return None;
    }
    let filter = get_custom_censor();
    let clean = censor_text(&filter, text);
    let uwu = uwuify(clean.as_str());
    Some(marked(uwu.as_str()))
}

/// The "schizo" command: nothing for an empty text, otherwise the game played
/// on the text with the standard profanity filtered out.
pub fn schizo_reply(text: &str) -> (r: Option<String>)
    ensures
        r is None <==> text@.len() == 0,
        r matches Some(s) ==> is_marked(s@, s@.drop_first()) && is_schizo_of(
            s@.drop_first(),
            censored_text(standard_profanities(), text@, grawlix()),
        ),
{
    if text.is_empty() {
        return None;
    }
    let filter = standard_censor();
    let clean = censor_text(&filter, text);
    let game = do_schizo(clean.as_str());
    let r = marked(game.as_str());
    assert(clean@ == censored_text(standard_profanities(), text@, grawlix()));
    assert(is_schizo_of(game@, clean@));
    assert(is_marked(r@, game@));
    assert(r@.drop_first() =~= game@);
    Some(r)
}

} // verus!
