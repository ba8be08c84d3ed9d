//! The profanity filter that the bot runs over text before it echoes it,
//! built on the `censor` crate.
use censor::Censor;
use vstd::prelude::*;

verus! {

/// The `censor` crate's word filter.
#[verifier::external_type_specification]
#[verifier::external_body]
pub struct ExCensor(Censor);

/// The set of words that a censor filters out.
pub uninterp spec fn censor_words(c: Censor) -> Set<Seq<char>>;

/// What `Censor::replace` makes of `text` for a censor holding `words`, with
/// the replacement characters `grawlix`.
pub uninterp spec fn censored_text(
    words: Set<Seq<char>>,
    text: Seq<char>,
    grawlix: Seq<char>,
) -> Seq<char>;

/// The words of the `censor` crate's standard list of profanities.
pub open spec fn standard_profanities() -> Set<Seq<char>> {
    set![
        "ass"@,
        "asshole"@,
        "bitch"@,
        "cock"@,
        "cunt"@,
        "fag"@,
        "fagot"@,
        "faggot"@,
        "fuck"@,
        "nigger"@,
        "piss"@,
        "pussy"@,
        "shit"@,
        "twat"@,
        "whore"@,
    ]
}

/// The word that this bot filters out beyond the standard list.
pub open spec fn extra_blocked_word() -> Seq<char> {
    "retard"@
}

/// The words of the bot's own filter: the standard list and one more word.
pub open spec fn custom_profanities() -> Set<Seq<char>> {
    standard_profanities().insert(extra_blocked_word())
}

/// The characters that replace those of a filtered word, in turn.
pub open spec fn grawlix() -> Seq<char> {
    "!@#$%"@
}

/// `Censor::Standard` of the `censor` crate: a filter whose words are the
/// crate's documented standard list (`STANDARD_WORDS`).
#[verifier::external_body]
fn standard_filter() -> (c: Censor)
    ensures
        censor_words(c) == standard_profanities(),
{
    Censor::Standard
}

/// `Censor + word` of the `censor` crate (`impl Add<S: Into<String>>`): a
/// custom filter holding the words of `c` and `word`.
#[verifier::external_body]
fn filter_with_word(c: Censor, word: &str) -> (r: Censor)
    ensures
        censor_words(r) == censor_words(c).insert(word@),
{
    c + word
}

/// `Censor::replace` of the `censor` crate. The crate maps each character of
/// `text` either to itself or, where it belongs to a filtered word, to the
/// next character of `grawlix` (cycling), so the result has as many
/// characters as `text`. Which characters are filtered is left to the name
/// `censored_text`. It panics on an empty `grawlix`.
#[verifier::external_body]
fn replace_profanities(c: &Censor, text: &str, grawlix: &str) -> (r: String)
    requires
        grawlix@.len() > 0,
    ensures
        r@ == censored_text(censor_words(*c), text@, grawlix@),
        r@.len() == text@.len(),
        forall|i: int|
            0 <= i < text@.len() ==> r@[i] == text@[i] || grawlix@.contains(#[trigger] r@[i]),
{
    c.replace(text, grawlix)
}

/// The standard profanity filter.
pub fn standard_censor() -> (c: Censor)
    ensures
        censor_words(c) == standard_profanities(),
{
    standard_filter()
}

/// The bot's own profanity filter: the standard list plus one word.
pub fn get_custom_censor() -> (c: Censor)
    ensures
        censor_words(c) == custom_profanities(),
{
    let base = standard_filter();
    filter_with_word(base, "retard")
}

/// `text` with the words that `filter` holds replaced by grawlix characters.
pub fn censor_text(filter: &Censor, text: &str) -> (r: String)
    ensures
        r@ == censored_text(censor_words(*filter), text@, grawlix()),
        r@.len() == text@.len(),
        forall|i: int|
            0 <= i < text@.len() ==> r@[i] == text@[i] || grawlix().contains(#[trigger] r@[i]),
{
    proof {
        reveal_strlit("!@#$%");
    }
    replace_profanities(filter, text, "!@#$%")
}

} // verus!
