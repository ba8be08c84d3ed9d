//! The "schizo" text game: some runs of words are shouted in capitals or in
//! random mixed case, with stray question marks and dots after them.
use crate::random::{drawn_since, extends, is_draw, DrawLog};
use crate::text::{pieces_view, split_chars, str_chars, string_from_chars};
use vstd::prelude::*;

verus! {

/// The characters that `char::to_uppercase` yields for `c`.
pub uninterp spec fn char_upper(c: char) -> Seq<char>;

/// What `str::to_uppercase` makes of `s`.
pub uninterp spec fn str_upper(s: Seq<char>) -> Seq<char>;

/// std's `char::to_uppercase`, collected into a string.
#[verifier::external_body]
fn char_uppercase(c: char) -> (r: String)
    ensures
        r@ == char_upper(c),
{
    c.to_uppercase().collect()
}

/// std's `str::to_uppercase`.
#[verifier::external_body]
fn str_uppercase(s: &str) -> (r: String)
    ensures
        r@ == str_upper(s@),
{
    s.to_uppercase()
}

/// How one word is written.
pub enum Shape {
    /// As it was typed.
    Plain,
    /// In capitals.
    Shout,
    /// Each character in capitals where the mask says so.
    Mixed(Vec<bool>),
}

/// The style of one word of the output.
pub struct WordStyle {
    pub shape: Shape,
    /// Question marks after the word.
    pub questions: usize,
    /// Dots after the question marks.
    pub dots: usize,
}

/// How one word is written, as a value of the model.
pub enum ShapeSpec {
    Plain,
    Shout,
    Mixed(Seq<bool>),
}

/// The style of one word, as a value of the model.
pub struct StyleSpec {
    pub shape: ShapeSpec,
    pub questions: nat,
    pub dots: nat,
}

impl View for Shape {
    type V = ShapeSpec;

    open spec fn view(&self) -> ShapeSpec {
        match self {
            Shape::Plain => ShapeSpec::Plain,
            Shape::Shout => ShapeSpec::Shout,
            Shape::Mixed(mask) => ShapeSpec::Mixed(mask@),
        }
    }
}

impl View for WordStyle {
    type V = StyleSpec;

    open spec fn view(&self) -> StyleSpec {
        StyleSpec { shape: self.shape@, questions: self.questions as nat, dots: self.dots as nat }
    }
}

/// The styles of a plan, as values of the model.
pub open spec fn plan_view(plan: Seq<WordStyle>) -> Seq<StyleSpec> {
    plan.map_values(|s: WordStyle| s@)
}

/// `n` copies of `c`.
pub open spec fn repeat_char(c: char, n: nat) -> Seq<char> {
    Seq::new(n, |_i: int| c)
}

/// `word` with the characters where `mask` holds in capitals.
pub open spec fn mixed_case(word: Seq<char>, mask: Seq<bool>) -> Seq<char>
    decreases word.len(),
{
    if word.len() == 0 {
        seq![]
    } else {
        mixed_case(word.drop_last(), mask.drop_last()) + if mask.last() {
            char_upper(word.last())
        } else {
            seq![word.last()]
        }
    }
}

/// `word` written in the style `style`: a plain word as it was typed, a
/// styled one followed by its question marks and then its dots.
pub open spec fn styled(word: Seq<char>, style: StyleSpec) -> Seq<char> {
    match style.shape {
        ShapeSpec::Plain => word,
        ShapeSpec::Shout => str_upper(word) + repeat_char('?', style.questions) + repeat_char(
            '.',
            style.dots,
        ),
        ShapeSpec::Mixed(mask) => mixed_case(word, mask) + repeat_char('?', style.questions)
            + repeat_char('.', style.dots),
    }
}

/// A styled word, whatever its shape, is its letters in their new case, then
/// exactly its question marks, then exactly its dots; the marks never change
/// the letters.
pub proof fn lemma_marks_follow_styled_word(word: Seq<char>, style: StyleSpec)
    requires
        !(style.shape is Plain),
    ensures
        styled(word, style) == styled(word, StyleSpec { questions: 0, dots: 0, ..style }) + Seq::new(
            style.questions,
            |_i: int| '?',
        ) + Seq::new(style.dots, |_i: int| '.'),
{
    let bare = StyleSpec { questions: 0, dots: 0, ..style };
    assert(repeat_char('?', 0) =~= Seq::<char>::empty());
    assert(repeat_char('.', 0) =~= Seq::<char>::empty());
    assert(repeat_char('?', style.questions) =~= Seq::new(style.questions, |_i: int| '?'));
    assert(repeat_char('.', style.dots) =~= Seq::new(style.dots, |_i: int| '.'));
    match style.shape {
        ShapeSpec::Shout => {
            assert(styled(word, bare) =~= str_upper(word));
        },
        ShapeSpec::Mixed(mask) => {
            assert(styled(word, bare) =~= mixed_case(word, mask));
        },
        ShapeSpec::Plain => {},
    }
}

/// The letters of a styled word: in capitals for a shout, in mixed case by
/// its mask otherwise; a plain word is the word as typed, with no marks
/// whatever the style's counts.
pub proof fn lemma_styled_letters(word: Seq<char>, style: StyleSpec)
    ensures
        style.shape is Plain ==> styled(word, style) == word,
        style.shape is Shout ==> styled(word, StyleSpec { questions: 0, dots: 0, ..style })
            == str_upper(word),
        style.shape matches ShapeSpec::Mixed(mask) ==> styled(
            word,
            StyleSpec { questions: 0, dots: 0, ..style },
        ) == mixed_case(word, mask),
{
    assert(repeat_char('?', 0) =~= Seq::<char>::empty());
    assert(repeat_char('.', 0) =~= Seq::<char>::empty());
    match style.shape {
        ShapeSpec::Shout => {
            assert(styled(word, StyleSpec { questions: 0, dots: 0, ..style }) =~= str_upper(word));
        },
        ShapeSpec::Mixed(mask) => {
            assert(styled(word, StyleSpec { questions: 0, dots: 0, ..style }) =~= mixed_case(
                word,
                mask,
            ));
        },
        ShapeSpec::Plain => {},
    }
}

/// Mixed case works character by character: the `k`-th character is put in
/// capitals exactly when the `k`-th place of the mask holds, and is kept
/// otherwise.
pub proof fn lemma_mixed_case_each_char(word: Seq<char>, mask: Seq<bool>, k: int)
    requires
        mask.len() == word.len(),
        0 <= k < word.len(),
    ensures
        mixed_case(word, mask) == mixed_case(word.take(k), mask.take(k)) + (if mask[k] {
            char_upper(word[k])
        } else {
            seq![word[k]]
        }) + mixed_case(word.skip(k + 1), mask.skip(k + 1)),
{
    lemma_mixed_case_concat(word.take(k + 1), mask.take(k + 1), word.skip(k + 1), mask.skip(k + 1));
    assert(word.take(k + 1) + word.skip(k + 1) =~= word);
    assert(mask.take(k + 1) + mask.skip(k + 1) =~= mask);
    let w1 = word.take(k + 1);
    let m1 = mask.take(k + 1);
    assert(w1.drop_last() =~= word.take(k));
    assert(m1.drop_last() =~= mask.take(k));
}

/// Mixed case of two pieces, each with its own part of the mask, is the mixed
/// case of the first followed by that of the second.
pub proof fn lemma_mixed_case_concat(w1: Seq<char>, m1: Seq<bool>, w2: Seq<char>, m2: Seq<bool>)
    requires
        m1.len() == w1.len(),
        m2.len() == w2.len(),
    ensures
        mixed_case(w1 + w2, m1 + m2) == mixed_case(w1, m1) + mixed_case(w2, m2),
    decreases w2.len(),
{
    if w2.len() == 0 {
        assert(w1 + w2 =~= w1);
        assert(m1 + m2 =~= m1);
        assert(mixed_case(w1, m1) + mixed_case(w2, m2) =~= mixed_case(w1, m1));
    } else {
        lemma_mixed_case_concat(w1, m1, w2.drop_last(), m2.drop_last());
        assert((w1 + w2).drop_last() =~= w1 + w2.drop_last());
        assert((m1 + m2).drop_last() =~= m1 + m2.drop_last());
        assert((w1 + w2).last() == w2.last());
        assert((m1 + m2).last() == m2.last());
        assert(mixed_case(w1 + w2, m1 + m2) =~= mixed_case(w1, m1) + mixed_case(w2, m2));
    }
}

/// With a mask that holds nowhere, mixed case leaves the word as it is.
pub proof fn lemma_mixed_case_no_capitals(word: Seq<char>, mask: Seq<bool>)
    requires
        mask.len() == word.len(),
        forall|k: int| 0 <= k < mask.len() ==> !#[trigger] mask[k],
    ensures
        mixed_case(word, mask) == word,
    decreases word.len(),
{
    if word.len() > 0 {
        let m = mask.drop_last();
        assert forall|k: int| 0 <= k < m.len() implies !#[trigger] m[k] by {
            assert(m[k] == mask[k]);
        }
        lemma_mixed_case_no_capitals(word.drop_last(), m);
        assert(!mask[mask.len() - 1]);
        assert(word.drop_last() + seq![word.last()] =~= word);
    }
}

/// The words written in their styles, each followed by a space.
pub open spec fn render(words: Seq<Seq<char>>, plan: Seq<StyleSpec>) -> Seq<char>
    decreases words.len(),
{
    if words.len() == 0 {
        seq![]
    } else {
        render(words.drop_last(), plan.drop_last()) + styled(words.last(), plan.last()) + seq![' ']
    }
}

/// Rendering two runs of words one after the other is rendering the first,
/// then the second: each word is written in its own style and followed by
/// exactly one space, in order.
pub proof fn lemma_render_concat(
    w1: Seq<Seq<char>>,
    p1: Seq<StyleSpec>,
    w2: Seq<Seq<char>>,
    p2: Seq<StyleSpec>,
)
    requires
        p1.len() == w1.len(),
        p2.len() == w2.len(),
    ensures
        render(w1 + w2, p1 + p2) == render(w1, p1) + render(w2, p2),
    decreases w2.len(),
{
    if w2.len() == 0 {
        assert(w1 + w2 =~= w1);
        assert(p1 + p2 =~= p1);
        assert(render(w1, p1) + render(w2, p2) =~= render(w1, p1));
    } else {
        lemma_render_concat(w1, p1, w2.drop_last(), p2.drop_last());
        assert((w1 + w2).drop_last() =~= w1 + w2.drop_last());
        assert((p1 + p2).drop_last() =~= p1 + p2.drop_last());
        assert((w1 + w2).last() == w2.last());
        assert((p1 + p2).last() == p2.last());
        assert(render(w1 + w2, p1 + p2) =~= render(w1, p1) + render(w2, p2));
    }
}

/// A single word is written in its style and followed by one space.
pub proof fn lemma_render_one_word(word: Seq<char>, style: StyleSpec)
    ensures
        render(seq![word], seq![style]) == styled(word, style) + seq![' '],
{
    assert(seq![word].drop_last() =~= Seq::<Seq<char>>::empty());
    assert(seq![style].drop_last() =~= Seq::<StyleSpec>::empty());
    assert(render(seq![word].drop_last(), seq![style].drop_last()) == Seq::<char>::empty());
    assert(seq![word].last() == word);
    assert(seq![style].last() == style);
    assert(render(seq![word], seq![style]) =~= styled(word, style) + seq![' ']);
}

/// `style` can be given to a word of `len` characters: a mask covers every
/// character.
pub open spec fn style_fits(style: StyleSpec, len: nat) -> bool {
    style.shape matches ShapeSpec::Mixed(mask) ==> mask.len() == len
}

/// `plan` gives each of the words from the `i`-th on a style that fits it.
pub open spec fn fits_from(words: Seq<Seq<char>>, plan: Seq<StyleSpec>, i: nat) -> bool {
    &&& i <= words.len()
    &&& plan.len() == words.len() - i
    &&& forall|k: int| 0 <= k < plan.len() ==> style_fits(#[trigger] plan[k], words[i + k].len())
}

/// `plan` gives each of `words` a style that fits it.
pub open spec fn plan_fits(words: Seq<Seq<char>>, plan: Seq<StyleSpec>) -> bool {
    &&& plan.len() == words.len()
    &&& forall|i: int| 0 <= i < words.len() ==> style_fits(#[trigger] plan[i], words[i].len())
}

/// The words of `text`: the pieces between its spaces.
pub open spec fn words_of(text: Seq<char>) -> Seq<Seq<char>> {
    crate::text::split_on(text, seq![' '])
}

/// The style that leaves a word as it was typed.
pub open spec fn plain_style() -> StyleSpec {
    StyleSpec { shape: ShapeSpec::Plain, questions: 0, dots: 0 }
}

// The game is played on a stream of draws, each recorded as `(lo, hi, value)`
// for a value drawn from `lo..hi`. Each reader below takes what it needs from
// the front of the stream and gives back the rest, or `None` where the stream
// runs short or holds a draw that is not the one the game makes there.

/// How many marks follow a styled word: a draw from `0..5`; on 0 the count is
/// a second draw from `0..4`, otherwise it is 0.
pub open spec fn read_marks(d: Seq<(usize, usize, usize)>) -> Option<
    (nat, Seq<(usize, usize, usize)>),
> {
    if d.len() == 0 || !is_draw(d[0], 0, 5) {
        None
    } else if d[0].2 == 0 {
        if d.len() >= 2 && is_draw(d[1], 0, 4) {
            Some((d[1].2 as nat, d.skip(2)))
        } else {
            None
        }
    } else {
        Some((0, d.skip(1)))
    }
}

/// A mask of `len` characters: one draw from `0..2` each, a capital on 0.
pub open spec fn read_mask(d: Seq<(usize, usize, usize)>, len: nat) -> Option<
    (Seq<bool>, Seq<(usize, usize, usize)>),
> {
    if d.len() >= len && forall|k: int| 0 <= k < len ==> is_draw(#[trigger] d[k], 0, 2) {
        Some((Seq::new(len, |k: int| d[k].2 == 0), d.skip(len as int)))
    } else {
        None
    }
}

/// The shape of a styled word of `len` characters: a draw from `0..5`;
/// capitals on 0 to 3, mixed case on 4, with a mask drawn after it.
pub open spec fn read_shape(d: Seq<(usize, usize, usize)>, len: nat) -> Option<
    (ShapeSpec, Seq<(usize, usize, usize)>),
> {
    if d.len() == 0 || !is_draw(d[0], 0, 5) {
        None
    } else if d[0].2 <= 3 {
        Some((ShapeSpec::Shout, d.skip(1)))
    } else {
        match read_mask(d.skip(1), len) {
            Some((mask, rest)) => Some((ShapeSpec::Mixed(mask), rest)),
            None => None,
        }
    }
}

/// The style of a styled word of `len` characters: its dots, then its
/// question marks, then its shape.
pub open spec fn read_style(d: Seq<(usize, usize, usize)>, len: nat) -> Option<
    (StyleSpec, Seq<(usize, usize, usize)>),
> {
    match read_marks(d) {
        Some((dots, r1)) => match read_marks(r1) {
            Some((questions, r2)) => match read_shape(r2, len) {
                Some((shape, r3)) => Some((StyleSpec { shape, questions, dots }, r3)),
                None => None,
            },
            None => None,
        },
        None => None,
    }
}

/// The styles of the words from the `i`-th on, with `left` words still to be
/// styled in the current run, when the draws are exactly `d`. Outside a run, a
/// draw from `0..4` decides: on 1 to 3 the word stays plain; on 0 a draw from
/// `1..4` starts a run of that many words (cut short at the last word).
pub open spec fn read_plan(
    words: Seq<Seq<char>>,
    d: Seq<(usize, usize, usize)>,
    i: nat,
    left: nat,
) -> Option<Seq<StyleSpec>>
    decreases words.len() - i, if left == 0 {
        1int
    } else {
        0int
    },
{
    if i >= words.len() {
        if d.len() == 0 {
            Some(seq![])
        } else {
            None
        }
    } else if left > 0 {
        match read_style(d, words[i as int].len()) {
            Some((style, rest)) => match read_plan(words, rest, i + 1, (left - 1) as nat) {
                Some(plan) => Some(seq![style] + plan),
                None => None,
            },
            None => None,
        }
    } else if d.len() == 0 || !is_draw(d[0], 0, 4) {
        None
    } else if d[0].2 != 0 {
        match read_plan(words, d.skip(1), i + 1, 0) {
            Some(plan) => Some(seq![plain_style()] + plan),
            None => None,
        }
    } else if d.len() >= 2 && is_draw(d[1], 1, 4) {
        read_plan(words, d.skip(2), i, d[1].2 as nat)
    } else {
        None
    }
}

/// The plan that the draws `d` give for `text`.
pub open spec fn game_plan(text: Seq<char>, d: Seq<(usize, usize, usize)>) -> Option<
    Seq<StyleSpec>,
> {
    read_plan(words_of(text), d, 0, 0)
}

/// What the game writes for `text` when the draws are exactly `d`.
pub open spec fn game_result(text: Seq<char>, d: Seq<(usize, usize, usize)>) -> Option<Seq<char>> {
    match game_plan(text, d) {
        Some(plan) => Some(render(words_of(text), plan)),
        None => None,
    }
}

/// The outputs that the game can give for `text`: those of some draws.
pub open spec fn is_schizo_of(out: Seq<char>, text: Seq<char>) -> bool {
    exists|d: Seq<(usize, usize, usize)>| #[trigger] game_result(text, d) == Some(out)
}

proof fn lemma_drawn_chain(
    h0: Seq<(usize, usize, usize)>,
    h1: Seq<(usize, usize, usize)>,
    h2: Seq<(usize, usize, usize)>,
)
    requires
        extends(h0, h1),
        extends(h1, h2),
    ensures
        extends(h0, h2),
        drawn_since(h0, h2) == drawn_since(h0, h1) + drawn_since(h1, h2),
{
    assert(h2.take(h1.len() as int) == h1);
    assert(h2.take(h0.len() as int) =~= h1.take(h0.len() as int));
    assert(drawn_since(h0, h2) =~= drawn_since(h0, h1) + drawn_since(h1, h2));
}

proof fn lemma_read_marks_ext(d: Seq<(usize, usize, usize)>, e: Seq<(usize, usize, usize)>)
    ensures
        read_marks(d) matches Some((n, r)) ==> read_marks(d + e) == Some((n, r + e)),
{
    if d.len() >= 1 {
        assert((d + e)[0] == d[0]);
        assert((d + e).skip(1) =~= d.skip(1) + e);
    }
    if d.len() >= 2 {
        assert((d + e)[1] == d[1]);
        assert((d + e).skip(2) =~= d.skip(2) + e);
    }
}

proof fn lemma_read_mask_ext(d: Seq<(usize, usize, usize)>, len: nat, e: Seq<(usize, usize, usize)>)
    ensures
        read_mask(d, len) matches Some((m, r)) ==> read_mask(d + e, len) == Some((m, r + e)),
{
    if read_mask(d, len) is Some {
        assert forall|k: int| 0 <= k < len implies is_draw(#[trigger] (d + e)[k], 0, 2) by {
            assert((d + e)[k] == d[k]);
        }
        assert(Seq::new(len, |k: int| (d + e)[k].2 == 0) =~= Seq::new(len, |k: int| d[k].2 == 0));
        assert((d + e).skip(len as int) =~= d.skip(len as int) + e);
    }
}

proof fn lemma_read_shape_ext(d: Seq<(usize, usize, usize)>, len: nat, e: Seq<(usize, usize, usize)>)
    ensures
        read_shape(d, len) matches Some((s, r)) ==> read_shape(d + e, len) == Some((s, r + e)),
{
    if d.len() >= 1 {
        assert((d + e)[0] == d[0]);
        assert((d + e).skip(1) =~= d.skip(1) + e);
        lemma_read_mask_ext(d.skip(1), len, e);
    }
}

proof fn lemma_read_style_ext(d: Seq<(usize, usize, usize)>, len: nat, e: Seq<(usize, usize, usize)>)
    ensures
        read_style(d, len) matches Some((s, r)) ==> read_style(d + e, len) == Some((s, r + e)),
{
    lemma_read_marks_ext(d, e);
    if let Some((_dots, r1)) = read_marks(d) {
        lemma_read_marks_ext(r1, e);
        if let Some((_q, r2)) = read_marks(r1) {
            lemma_read_shape_ext(r2, len, e);
        }
    }
}

/// Marks follow a styled word one time in five: a first draw of 0 from `0..5`
/// gives as many marks as the next draw from `0..4`; any other first draw
/// gives none.
pub proof fn lemma_mark_draws(first: usize, count: usize, rest: Seq<(usize, usize, usize)>)
    ensures
        1 <= first < 5 ==> read_marks(seq![(0usize, 5usize, first)] + rest) == Some(
            (0nat, rest),
        ),
        count < 4 ==> read_marks(seq![(0usize, 5usize, 0usize), (0usize, 4usize, count)] + rest)
            == Some((count as nat, rest)),
{
    assert((seq![(0usize, 5usize, first)] + rest).skip(1) =~= rest);
    assert((seq![(0usize, 5usize, 0usize), (0usize, 4usize, count)] + rest).skip(2) =~= rest);
}

/// The shape of a styled word: a draw of 0 to 3 from `0..5` shouts it, a
/// draw of 4 writes it in mixed case with a capital wherever the next draws
/// from `0..2`, one per character, are 0.
pub proof fn lemma_shape_draws(
    kind: usize,
    bits: Seq<usize>,
    rest: Seq<(usize, usize, usize)>,
)
    requires
        forall|k: int| 0 <= k < bits.len() ==> #[trigger] bits[k] < 2,
    ensures
        kind <= 3 ==> read_shape(seq![(0usize, 5usize, kind)] + rest, bits.len()) == Some(
            (ShapeSpec::Shout, rest),
        ),
        read_shape(
            seq![(0usize, 5usize, 4usize)] + bits.map_values(|b: usize| (0usize, 2usize, b)) + rest,
            bits.len(),
        ) == Some((ShapeSpec::Mixed(bits.map_values(|b: usize| b == 0)), rest)),
{
    assert((seq![(0usize, 5usize, kind)] + rest).skip(1) =~= rest);
    let m = bits.map_values(|b: usize| (0usize, 2usize, b));
    let d = seq![(0usize, 5usize, 4usize)] + m + rest;
    assert(d.skip(1) =~= m + rest);
    assert forall|k: int| 0 <= k < bits.len() implies is_draw(#[trigger] (m + rest)[k], 0, 2) by {
        assert((m + rest)[k] == m[k]);
    }
    assert(Seq::new(bits.len(), |k: int| (m + rest)[k].2 == 0) =~= bits.map_values(
        |b: usize| b == 0,
    ));
    assert((m + rest).skip(bits.len() as int) =~= rest);
}

/// Outside a run, a draw of 1 to 3 from `0..4` leaves the word plain and goes
/// on with the next word; a draw of 0 followed by a draw `c` from `1..4`
/// starts a run of `c` styled words at this word.
pub proof fn lemma_run_draws(
    words: Seq<Seq<char>>,
    i: nat,
    run: usize,
    c: usize,
    rest: Seq<(usize, usize, usize)>,
)
    requires
        i < words.len(),
    ensures
        1 <= run < 4 ==> read_plan(words, seq![(0usize, 4usize, run)] + rest, i, 0) == match read_plan(
            words,
            rest,
            i + 1,
            0,
        ) {
            Some(plan) => Some(seq![plain_style()] + plan),
            None => None,
        },
        1 <= c < 4 ==> read_plan(words, seq![(0usize, 4usize, 0usize), (1usize, 4usize, c)] + rest, i, 0)
            == read_plan(words, rest, i, c as nat),
{
    assert((seq![(0usize, 4usize, run)] + rest).skip(1) =~= rest);
    assert((seq![(0usize, 4usize, 0usize), (1usize, 4usize, c)] + rest).skip(2) =~= rest);
}

/// Whatever plan the draws give fits the words it is for.
pub proof fn lemma_read_plan_fits(
    words: Seq<Seq<char>>,
    d: Seq<(usize, usize, usize)>,
    i: nat,
    left: nat,
)
    requires
        i <= words.len(),
    ensures
        read_plan(words, d, i, left) matches Some(plan) ==> fits_from(words, plan, i),
    decreases words.len() - i, if left == 0 {
        1int
    } else {
        0int
    },
{
    if i >= words.len() {
    } else if left > 0 {
        if let Some((style, rest)) = read_style(d, words[i as int].len()) {
            lemma_read_plan_fits(words, rest, i + 1, (left - 1) as nat);
            if let Some(plan) = read_plan(words, rest, i + 1, (left - 1) as nat) {
                let full = seq![style] + plan;
                assert forall|k: int| 0 <= k < full.len() implies style_fits(
                    #[trigger] full[k],
                    words[i + k].len(),
                ) by {
                    if k > 0 {
                        assert(full[k] == plan[k - 1]);
                        assert(style_fits(plan[k - 1], words[(i + 1) + (k - 1)].len()));
                    }
                }
            }
        }
    } else if d.len() == 0 || !is_draw(d[0], 0, 4) {
    } else if d[0].2 != 0 {
        lemma_read_plan_fits(words, d.skip(1), i + 1, 0);
        if let Some(plan) = read_plan(words, d.skip(1), i + 1, 0) {
            let full = seq![plain_style()] + plan;
            assert forall|k: int| 0 <= k < full.len() implies style_fits(
                #[trigger] full[k],
                words[i + k].len(),
            ) by {
                if k > 0 {
                    assert(full[k] == plan[k - 1]);
                    assert(style_fits(plan[k - 1], words[(i + 1) + (k - 1)].len()));
                }
            }
        }
    } else if d.len() >= 2 && is_draw(d[1], 1, 4) {
        lemma_read_plan_fits(words, d.skip(2), i, d[1].2 as nat);
    }
}

/// Appends the characters of `src` to `out`.
fn extend_chars(out: &mut Vec<char>, src: &Vec<char>)
    ensures
        final(out)@ == old(out)@ + src@,
{
    let mut i: usize = 0;
    while i < src.len()
        invariant
            i <= src.len(),
            out@ == old(out)@ + src@.take(i as int),
        decreases src.len() - i,
    {
        out.push(src[i]);
        i = i + 1;
        assert(out@ =~= old(out)@ + src@.take(i as int));
    }
    assert(src@.take(i as int) =~= src@);
}

/// Appends `n` copies of `c` to `out`.
fn push_repeated(out: &mut Vec<char>, c: char, n: usize)
    ensures
        final(out)@ == old(out)@ + repeat_char(c, n as nat),
{
    let mut i: usize = 0;
    while i < n
        invariant
            i <= n,
            out@ == old(out)@ + repeat_char(c, i as nat),
        decreases n - i,
    {
        out.push(c);
        i = i + 1;
        assert(out@ =~= old(out)@ + repeat_char(c, i as nat));
    }
}

/// Appends `word` in capitals.
fn push_shouted(out: &mut Vec<char>, word: &Vec<char>)
    ensures
        final(out)@ == old(out)@ + str_upper(word@),
{
    let s = string_from_chars(word.as_slice());
    let upper = str_uppercase(s.as_str());
    let chars = str_chars(upper.as_str());
    extend_chars(out, &chars);
}

/// Appends `word` with the characters where `mask` holds in capitals.
fn push_mixed(out: &mut Vec<char>, word: &Vec<char>, mask: &Vec<bool>)
    requires
        mask@.len() == word@.len(),
    ensures
        final(out)@ == old(out)@ + mixed_case(word@, mask@),
{
    let mut j: usize = 0;
    while j < word.len()
        invariant
            j <= word.len(),
            mask@.len() == word@.len(),
            out@ == old(out)@ + mixed_case(word@.take(j as int), mask@.take(j as int)),
        decreases word.len() - j,
    {
        let c = word[j];
        let ghost before = out@;
        if mask[j] {
            let up = char_uppercase(c);
            let chars = str_chars(up.as_str());
            extend_chars(out, &chars);
        } else {
            out.push(c);
        }
        proof {
            let w1 = word@.take(j + 1);
            let m1 = mask@.take(j + 1);
            assert(w1.drop_last() =~= word@.take(j as int));
            assert(m1.drop_last() =~= mask@.take(j as int));
            assert(w1.last() == c);
            assert(m1.last() == mask@[j as int]);
            assert(out@ =~= old(out)@ + mixed_case(w1, m1));
        }
        j = j + 1;
    }
    assert(word@.take(j as int) =~= word@);
    assert(mask@.take(j as int) =~= mask@);
}

/// Appends `word` written in the style `style`.
fn push_styled(out: &mut Vec<char>, word: &Vec<char>, style: &WordStyle)
    requires
        style_fits(style@, word@.len()),
    ensures
        final(out)@ == old(out)@ + styled(word@, style@),
{
    match &style.shape {
        Shape::Plain => {
            extend_chars(out, word);
        },
        Shape::Shout => {
            push_shouted(out, word);
            push_repeated(out, '?', style.questions);
            push_repeated(out, '.', style.dots);
        },
        Shape::Mixed(mask) => {
            push_mixed(out, word, mask);
            push_repeated(out, '?', style.questions);
            push_repeated(out, '.', style.dots);
        },
    }
}

/// The words written in the styles of `plan`, each followed by a space.
pub fn render_schizo(words: &Vec<Vec<char>>, plan: &Vec<WordStyle>) -> (r: Vec<char>)
    requires
        plan_fits(pieces_view(words@), plan_view(plan@)),
    ensures
        r@ == render(pieces_view(words@), plan_view(plan@)),
{
    let ghost ws = pieces_view(words@);
    let ghost pv = plan_view(plan@);
    let mut out: Vec<char> = Vec::new();
    let mut i: usize = 0;
    while i < words.len()
        invariant
            i <= words.len(),
            ws == pieces_view(words@),
            pv == plan_view(plan@),
            plan_fits(ws, pv),
            out@ == render(ws.take(i as int), pv.take(i as int)),
        decreases words.len() - i,
    {
        assert(style_fits(pv[i as int], ws[i as int].len()));
        assert(pv[i as int] == plan@[i as int]@);
        push_styled(&mut out, &words[i], &plan[i]);
        out.push(' ');
        proof {
            let w1 = ws.take(i + 1);
            let p1 = pv.take(i + 1);
            assert(w1.drop_last() =~= ws.take(i as int));
            assert(p1.drop_last() =~= pv.take(i as int));
            assert(w1.last() == words@[i as int]@);
            assert(p1.last() == plan@[i as int]@);
            assert(out@ =~= render(w1, p1));
        }
        i = i + 1;
    }
    assert(ws.take(i as int) =~= ws);
    assert(pv.take(i as int) =~= pv);
    out
}

/// Draws a mask of `len` characters: each in capitals with chance one half.
fn random_mask(len: usize, log: &mut DrawLog) -> (mask: Vec<bool>)
    ensures
        extends(old(log).history(), final(log).history()),
        read_mask(drawn_since(old(log).history(), final(log).history()), len as nat) == Some(
            (mask@, Seq::<(usize, usize, usize)>::empty()),
        ),
{
    let ghost h0 = log.history();
    let ghost mut drawn: Seq<(usize, usize, usize)> = Seq::empty();
    let mut mask: Vec<bool> = Vec::new();
    let mut i: usize = 0;
    while i < len
        invariant
            i <= len,
            mask@.len() == i,
            drawn.len() == i,
            log.history() == h0 + drawn,
            forall|k: int|
                0 <= k < i ==> is_draw(#[trigger] drawn[k], 0, 2) && mask@[k] == (drawn[k].2 == 0),
        decreases len - i,
    {
        let draw = log.draw(0, 2);
        proof {
            drawn = drawn.push((0usize, 2usize, draw));
        }
        mask.push(draw == 0);
        i = i + 1;
        assert(log.history() =~= h0 + drawn);
    }
    proof {
        let h = log.history();
        assert(h.take(h0.len() as int) =~= h0);
        assert(drawn_since(h0, h) =~= drawn);
        assert(Seq::new(len as nat, |k: int| drawn[k].2 == 0) =~= mask@);
        assert(drawn.skip(len as int) =~= Seq::<(usize, usize, usize)>::empty());
    }
    mask
}

/// Draws the shape of a styled word of `len` characters: capitals four times
/// in five, otherwise random mixed case.
fn choose_word_shape(len: usize, log: &mut DrawLog) -> (shape: Shape)
    ensures
        extends(old(log).history(), final(log).history()),
        read_shape(drawn_since(old(log).history(), final(log).history()), len as nat) == Some(
            (shape@, Seq::<(usize, usize, usize)>::empty()),
        ),
{
    let ghost h0 = log.history();
    let kind = log.draw(0, 5);
    let ghost h1 = log.history();
    proof {
        assert(h1.take(h0.len() as int) =~= h0);
        assert(drawn_since(h0, h1) =~= seq![(0usize, 5usize, kind)]);
    }
    if kind <= 3 {
        assert(seq![(0usize, 5usize, kind)].skip(1) =~= Seq::<(usize, usize, usize)>::empty());
        Shape::Shout
    } else {
        let mask = random_mask(len, log);
        proof {
            let h2 = log.history();
            lemma_drawn_chain(h0, h1, h2);
            assert(drawn_since(h0, h2).skip(1) =~= drawn_since(h1, h2));
        }
        Shape::Mixed(mask)
    }
}

/// Draws how many marks follow a styled word: none four times in five,
/// otherwise up to three.
fn choose_mark_count(log: &mut DrawLog) -> (n: usize)
    ensures
        extends(old(log).history(), final(log).history()),
        read_marks(drawn_since(old(log).history(), final(log).history())) == Some(
            (n as nat, Seq::<(usize, usize, usize)>::empty()),
        ),
{
    let ghost h0 = log.history();
    let first = log.draw(0, 5);
    if first == 0 {
        let n = log.draw(0, 4);
        proof {
            let h = log.history();
            assert(h.take(h0.len() as int) =~= h0);
            assert(drawn_since(h0, h) =~= seq![(0usize, 5usize, first), (0usize, 4usize, n)]);
            assert(seq![(0usize, 5usize, first), (0usize, 4usize, n)].skip(2)
                =~= Seq::<(usize, usize, usize)>::empty());
        }
        n
    } else {
        proof {
            let h = log.history();
            assert(h.take(h0.len() as int) =~= h0);
            assert(drawn_since(h0, h) =~= seq![(0usize, 5usize, first)]);
            assert(seq![(0usize, 5usize, first)].skip(1) =~= Seq::<(usize, usize, usize)>::empty());
        }
        0
    }
}

/// Draws the style of a styled word of `len` characters.
fn choose_style(len: usize, log: &mut DrawLog) -> (style: WordStyle)
    ensures
        extends(old(log).history(), final(log).history()),
        read_style(drawn_since(old(log).history(), final(log).history()), len as nat) == Some(
            (style@, Seq::<(usize, usize, usize)>::empty()),
        ),
{
    let ghost h0 = log.history();
    let dots = choose_mark_count(log);
    let ghost h1 = log.history();
    let questions = choose_mark_count(log);
    let ghost h2 = log.history();
    let shape = choose_word_shape(len, log);
    let ghost h3 = log.history();
    proof {
        let e = Seq::<(usize, usize, usize)>::empty();
        lemma_drawn_chain(h1, h2, h3);
        lemma_drawn_chain(h0, h1, h3);
        let d1 = drawn_since(h0, h1);
        let d2 = drawn_since(h1, h2);
        let d3 = drawn_since(h2, h3);
        lemma_read_marks_ext(d1, d2 + d3);
        assert(e + (d2 + d3) =~= d2 + d3);
        lemma_read_marks_ext(d2, d3);
        assert(e + d3 =~= d3);
        assert(drawn_since(h0, h3) =~= d1 + (d2 + d3));
    }
    WordStyle { shape, questions, dots }
}

/// Plays the game on the words from the `i`-th on, with `left` words still to
/// be styled in the current run.
fn play_from(words: &Vec<Vec<char>>, i: usize, left: usize, log: &mut DrawLog) -> (plan: Vec<
    WordStyle,
>)
    requires
        i <= words.len(),
        left <= 3,
    ensures
        extends(old(log).history(), final(log).history()),
        read_plan(
            pieces_view(words@),
            drawn_since(old(log).history(), final(log).history()),
            i as nat,
            left as nat,
        ) == Some(plan_view(plan@)),
    decreases words.len() - i, if left == 0 {
        1int
    } else {
        0int
    },
{
    let ghost ws = pieces_view(words@);
    let ghost h0 = log.history();
    if i >= words.len() {
        assert(log.history().take(h0.len() as int) =~= h0);
        assert(drawn_since(h0, log.history()) =~= Seq::<(usize, usize, usize)>::empty());
        let none: Vec<WordStyle> = Vec::new();
        assert(plan_view(none@) =~= Seq::<StyleSpec>::empty());
        return none;
    }
    if left > 0 {
        let style = choose_style(words[i].len(), log);
        let ghost h1 = log.history();
        let mut rest = play_from(words, i + 1, left - 1, log);
        let ghost h2 = log.history();
        let ghost rest_view = plan_view(rest@);
        rest.insert(0, style);
        proof {
            lemma_drawn_chain(h0, h1, h2);
            let d1 = drawn_since(h0, h1);
            let d2 = drawn_since(h1, h2);
            lemma_read_style_ext(d1, ws[i as int].len(), d2);
            assert(Seq::<(usize, usize, usize)>::empty() + d2 =~= d2);
            assert(ws[i as int] == words@[i as int]@);
            assert(plan_view(rest@) =~= seq![style@] + rest_view);
        }
        rest
    } else {
        let run = log.draw(0, 4);
        let ghost h1 = log.history();
        proof {
            assert(h1.take(h0.len() as int) =~= h0);
            assert(drawn_since(h0, h1) =~= seq![(0usize, 4usize, run)]);
        }
        if run != 0 {
            let mut rest = play_from(words, i + 1, 0, log);
            let ghost h2 = log.history();
            let ghost rest_view = plan_view(rest@);
            rest.insert(0, WordStyle { shape: Shape::Plain, questions: 0, dots: 0 });
            proof {
                lemma_drawn_chain(h0, h1, h2);
                let d = drawn_since(h0, h2);
                assert(d[0] == (0usize, 4usize, run));
                assert(d.skip(1) =~= drawn_since(h1, h2));
                assert(plan_view(rest@) =~= seq![plain_style()] + rest_view);
            }
            rest
        } else {
            let count = log.draw(1, 4);
            let ghost h2 = log.history();
            let plan = play_from(words, i, count, log);
            proof {
                let h3 = log.history();
                assert(h2.take(h1.len() as int) =~= h1);
                assert(drawn_since(h1, h2) =~= seq![(1usize, 4usize, count)]);
                lemma_drawn_chain(h0, h1, h2);
                lemma_drawn_chain(h0, h2, h3);
                let d = drawn_since(h0, h3);
                assert(drawn_since(h0, h2) =~= seq![(0usize, 4usize, run), (1usize, 4usize, count)]);
                assert(d[0] == (0usize, 4usize, run));
                assert(d[1] == (1usize, 4usize, count));
                assert(d.skip(2) =~= drawn_since(h2, h3));
            }
            plan
        }
    }
}

/// The value of the draw at `pos` when it is a draw from `lo..hi`.
fn draw_at(draws: &Vec<(usize, usize, usize)>, pos: usize, lo: usize, hi: usize) -> (r: Option<
    usize,
>)
    requires
        pos < draws.len(),
    ensures
        r is Some <==> is_draw(draws@[pos as int], lo, hi),
        r matches Some(v) ==> v == draws@[pos as int].2,
{
    let (l, h, v) = draws[pos];
    if l == lo && h == hi && lo <= v && v < hi {
        Some(v)
    } else {
        None
    }
}

/// The mark count that the draws from `pos` on give, and where they end.
fn replay_marks(draws: &Vec<(usize, usize, usize)>, pos: usize) -> (r: Option<(usize, usize)>)
    requires
        pos <= draws.len(),
    ensures
        r is None <==> read_marks(draws@.skip(pos as int)) is None,
        r matches Some((n, next)) ==> next <= draws.len() && read_marks(draws@.skip(pos as int))
            == Some((n as nat, draws@.skip(next as int))),
{
    let ghost d = draws@.skip(pos as int);
    if pos >= draws.len() {
        return None;
    }
    assert(d[0] == draws@[pos as int]);
    let first = match draw_at(draws, pos, 0, 5) {
        Some(v) => v,
        None => {
            return None;
        },
    };
    if first == 0 {
        if draws.len() - pos < 2 {
            return None;
        }
        assert(d[1] == draws@[pos + 1]);
        match draw_at(draws, pos + 1, 0, 4) {
            Some(n) => {
                assert(d.skip(2) =~= draws@.skip(pos + 2));
                Some((n, pos + 2))
            },
            None => None,
        }
    } else {
        assert(d.skip(1) =~= draws@.skip(pos + 1));
        Some((0, pos + 1))
    }
}

/// The mask of `len` characters that the draws from `pos` on give, and where
/// they end.
fn replay_mask(draws: &Vec<(usize, usize, usize)>, pos: usize, len: usize) -> (r: Option<
    (Vec<bool>, usize),
>)
    requires
        pos <= draws.len(),
    ensures
        r is None <==> read_mask(draws@.skip(pos as int), len as nat) is None,
        r matches Some((mask, next)) ==> next <= draws.len() && read_mask(
            draws@.skip(pos as int),
            len as nat,
        ) == Some((mask@, draws@.skip(next as int))),
{
    let ghost d = draws@.skip(pos as int);
    if draws.len() - pos < len {
        return None;
    }
    let mut mask: Vec<bool> = Vec::new();
    let mut k: usize = 0;
    while k < len
        invariant
            k <= len,
            pos + len <= draws.len(),
            d == draws@.skip(pos as int),
            mask@.len() == k,
            forall|j: int| 0 <= j < k ==> is_draw(#[trigger] d[j], 0, 2) && mask@[j] == (d[j].2 == 0),
        decreases len - k,
    {
        assert(d[k as int] == draws@[pos + k]);
        let x = match draw_at(draws, pos + k, 0, 2) {
            Some(v) => v,
            None => {
                return None;
            },
        };
        mask.push(x == 0);
        k = k + 1;
    }
    assert(Seq::new(len as nat, |j: int| d[j].2 == 0) =~= mask@);
    assert(d.skip(len as int) =~= draws@.skip(pos + len));
    Some((mask, pos + len))
}

/// The shape of a styled word of `len` characters that the draws from `pos`
/// on give, and where they end.
fn replay_shape(draws: &Vec<(usize, usize, usize)>, pos: usize, len: usize) -> (r: Option<
    (Shape, usize),
>)
    requires
        pos <= draws.len(),
    ensures
        r is None <==> read_shape(draws@.skip(pos as int), len as nat) is None,
        r matches Some((shape, next)) ==> next <= draws.len() && read_shape(
            draws@.skip(pos as int),
            len as nat,
        ) == Some((shape@, draws@.skip(next as int))),
{
    let ghost d = draws@.skip(pos as int);
    if pos >= draws.len() {
        return None;
    }
    assert(d[0] == draws@[pos as int]);
    assert(d.skip(1) =~= draws@.skip(pos + 1));
    let kind = match draw_at(draws, pos, 0, 5) {
        Some(v) => v,
        None => {
            return None;
        },
    };
    if kind <= 3 {
        Some((Shape::Shout, pos + 1))
    } else {
        match replay_mask(draws, pos + 1, len) {
            Some((mask, next)) => Some((Shape::Mixed(mask), next)),
            None => None,
        }
    }
}

/// The style of a styled word of `len` characters that the draws from `pos`
/// on give, and where they end.
fn replay_style(draws: &Vec<(usize, usize, usize)>, pos: usize, len: usize) -> (r: Option<
    (WordStyle, usize),
>)
    requires
        pos <= draws.len(),
    ensures
        r is None <==> read_style(draws@.skip(pos as int), len as nat) is None,
        r matches Some((style, next)) ==> next <= draws.len() && read_style(
            draws@.skip(pos as int),
            len as nat,
        ) == Some((style@, draws@.skip(next as int))),
{
    let (dots, p1) = match replay_marks(draws, pos) {
        Some(v) => v,
        None => {
            return None;
        },
    };
    let (questions, p2) = match replay_marks(draws, p1) {
        Some(v) => v,
        None => {
            return None;
        },
    };
    match replay_shape(draws, p2, len) {
        Some((shape, p3)) => Some((WordStyle { shape, questions, dots }, p3)),
        None => None,
    }
}

/// The styles of the words from the `i`-th on, with `left` words still to be
/// styled in the current run, that the draws from `pos` on give, using all of
/// them.
fn replay_from(
    words: &Vec<Vec<char>>,
    draws: &Vec<(usize, usize, usize)>,
    pos: usize,
    i: usize,
    left: usize,
) -> (r: Option<Vec<WordStyle>>)
    requires
        pos <= draws.len(),
        i <= words.len(),
    ensures
        r is None <==> read_plan(pieces_view(words@), draws@.skip(pos as int), i as nat, left as nat)
            is None,
        r matches Some(plan) ==> read_plan(
            pieces_view(words@),
            draws@.skip(pos as int),
            i as nat,
            left as nat,
        ) == Some(plan_view(plan@)),
    decreases words.len() - i, if left == 0 {
        1int
    } else {
        0int
    },
{
    let ghost ws = pieces_view(words@);
    let ghost d = draws@.skip(pos as int);
    if i >= words.len() {
        if pos == draws.len() {
            let none: Vec<WordStyle> = Vec::new();
            assert(plan_view(none@) =~= Seq::<StyleSpec>::empty());
            return Some(none);
        } else {
            return None;
        }
    }
    assert(ws[i as int] == words@[i as int]@);
    if left > 0 {
        let (style, next) = match replay_style(draws, pos, words[i].len()) {
            Some(v) => v,
            None => {
                return None;
            },
        };
        match replay_from(words, draws, next, i + 1, left - 1) {
            Some(mut rest) => {
                let ghost rest_view = plan_view(rest@);
                rest.insert(0, style);
                assert(plan_view(rest@) =~= seq![style@] + rest_view);
                Some(rest)
            },
            None => None,
        }
    } else {
        if pos >= draws.len() {
            return None;
        }
        assert(d[0] == draws@[pos as int]);
        let run = match draw_at(draws, pos, 0, 4) {
            Some(v) => v,
            None => {
                return None;
            },
        };
        if run != 0 {
            assert(d.skip(1) =~= draws@.skip(pos + 1));
            match replay_from(words, draws, pos + 1, i + 1, 0) {
                Some(mut rest) => {
                    let ghost rest_view = plan_view(rest@);
                    rest.insert(0, WordStyle { shape: Shape::Plain, questions: 0, dots: 0 });
                    assert(plan_view(rest@) =~= seq![plain_style()] + rest_view);
                    Some(rest)
                },
                None => None,
            }
        } else {
            if draws.len() - pos < 2 {
                return None;
            }
            assert(d[1] == draws@[pos + 1]);
            match draw_at(draws, pos + 1, 1, 4) {
                Some(count) => {
                    assert(d.skip(2) =~= draws@.skip(pos + 2));
                    replay_from(words, draws, pos + 2, i, count)
                },
                None => None,
            }
        }
    }
}

/// The plan that the draws `draws` give for `text`, when they are exactly the
/// draws of one game on it.
pub fn plan_for_draws(text: &str, draws: &Vec<(usize, usize, usize)>) -> (r: Option<Vec<WordStyle>>)
    ensures
        r is None <==> game_plan(text@, draws@) is None,
        r matches Some(plan) ==> game_plan(text@, draws@) == Some(plan_view(plan@)),
{
    let chars = str_chars(text);
    let sep = vec![' '];
    let words = split_chars(&chars, &sep);
    proof {
        assert(sep@ =~= seq![' ']);
        assert(pieces_view(words@) == words_of(text@));
        assert(draws@.skip(0) =~= draws@);
    }
    replay_from(&words, draws, 0, 0, 0)
}

/// What the game writes for `text` when its draws are exactly `draws`.
pub fn schizo_with_draws(text: &str, draws: &Vec<(usize, usize, usize)>) -> (r: Option<String>)
    ensures
        r is None <==> game_result(text@, draws@) is None,
        r matches Some(s) ==> game_result(text@, draws@) == Some(s@),
{
    let chars = str_chars(text);
    let sep = vec![' '];
    let words = split_chars(&chars, &sep);
    proof {
        assert(sep@ =~= seq![' ']);
        assert(pieces_view(words@) == words_of(text@));
        assert(draws@.skip(0) =~= draws@);
    }
    let plan = match replay_from(&words, draws, 0, 0, 0) {
        Some(p) => p,
        None => {
            return None;
        },
    };
    proof {
        lemma_read_plan_fits(pieces_view(words@), draws@, 0, 0);
        assert forall|k: int| 0 <= k < words@.len() implies style_fits(
            #[trigger] plan_view(plan@)[k],
            pieces_view(words@)[k].len(),
        ) by {
            assert(pieces_view(words@)[0 + k] == pieces_view(words@)[k]);
        }
    }
    let out = render_schizo(&words, &plan);
    Some(string_from_chars(out.as_slice()))
}

/// The game played on `text` with the draws taken from `log`: the output is
/// what the draws it took give.
pub fn play_schizo(text: &str, log: &mut DrawLog) -> (r: String)
    ensures
        extends(old(log).history(), final(log).history()),
        game_result(text@, drawn_since(old(log).history(), final(log).history())) == Some(r@),
{
    let chars = str_chars(text);
    let sep = vec![' '];
    let words = split_chars(&chars, &sep);
    let ghost h0 = log.history();
    let plan = play_from(&words, 0, 0, log);
    proof {
        assert(sep@ =~= seq![' ']);
        assert(pieces_view(words@) == words_of(text@));
        lemma_read_plan_fits(pieces_view(words@), drawn_since(h0, log.history()), 0, 0);
        assert forall|k: int| 0 <= k < words@.len() implies style_fits(
            #[trigger] plan_view(plan@)[k],
            pieces_view(words@)[k].len(),
        ) by {
            assert(pieces_view(words@)[0 + k] == pieces_view(words@)[k]);
        }
    }
    let out = render_schizo(&words, &plan);
    string_from_chars(out.as_slice())
}

/// The game played on `text`: its words, split on spaces, each written
/// plainly or styled at random and followed by a space. The output is what
/// the draws made on the thread's generator give.
pub fn do_schizo(text: &str) -> (r: String)
    ensures
        is_schizo_of(r@, text@),
{
    let mut log = DrawLog::new();
    let r = play_schizo(text, &mut log);
    assert(game_result(text@, drawn_since(Seq::<(usize, usize, usize)>::empty(), log.history())) == Some(r@));
    r
}

/// Joining a non-empty list with a separator ends with its last piece.
proof fn lemma_join_last(ws: Seq<Seq<char>>, sep: Seq<char>)
    requires
        ws.len() >= 2,
    ensures
        crate::text::join_with(ws, sep) == crate::text::join_with(ws.drop_last(), sep) + sep
            + ws.last(),
    decreases ws.len(),
{
    let df = ws.drop_first();
    let dl = ws.drop_last();
    if ws.len() > 2 {
        lemma_join_last(df, sep);
        assert(df.drop_last() =~= dl.drop_first());
        assert(df.last() == ws.last());
        assert(dl[0] == ws[0]);
        assert(crate::text::join_with(dl, sep) == dl[0] + sep + crate::text::join_with(
            dl.drop_first(),
            sep,
        ));
        assert(crate::text::join_with(ws, sep) == ws[0] + sep + crate::text::join_with(df, sep));
        assert(crate::text::join_with(ws, sep) =~= crate::text::join_with(dl, sep) + sep
            + ws.last());
    } else {
        assert(crate::text::join_with(df, sep) == df[0]);
        assert(crate::text::join_with(dl, sep) == dl[0]);
        assert(crate::text::join_with(ws, sep) =~= crate::text::join_with(dl, sep) + sep
            + ws.last());
    }
}

/// Rendering words plainly joins them with spaces and adds a space at the end.
proof fn lemma_render_plain_joins(ws: Seq<Seq<char>>, plan: Seq<StyleSpec>)
    requires
        ws.len() >= 1,
        plan.len() == ws.len(),
        forall|i: int| 0 <= i < plan.len() ==> #[trigger] plan[i] == plain_style(),
    ensures
        render(ws, plan) == crate::text::join_with(ws, seq![' ']) + seq![' '],
    decreases ws.len(),
{
    assert(plan.last() == plain_style());
    if ws.len() == 1 {
        assert(ws.drop_last().len() == 0);
        assert(render(ws.drop_last(), plan.drop_last()) == Seq::<char>::empty());
        assert(styled(ws.last(), plan.last()) == ws[0]);
        assert(render(ws, plan) =~= ws[0] + seq![' ']);
    } else {
        lemma_render_plain_joins(ws.drop_last(), plan.drop_last());
        lemma_join_last(ws, seq![' ']);
        assert(render(ws, plan) =~= crate::text::join_with(ws, seq![' ']) + seq![' ']);
    }
}

/// Run draws from `0..4` that are never 0 leave every word plain.
proof fn lemma_read_plan_all_plain(ws: Seq<Seq<char>>, d: Seq<(usize, usize, usize)>, i: nat)
    requires
        i <= ws.len(),
        d.len() == ws.len() - i,
        forall|k: int| 0 <= k < d.len() ==> is_draw(#[trigger] d[k], 0, 4) && d[k].2 != 0,
    ensures
        read_plan(ws, d, i, 0) == Some(Seq::new(d.len(), |_k: int| plain_style())),
    decreases ws.len() - i,
{
    if i < ws.len() {
        let rest = d.skip(1);
        assert forall|k: int| 0 <= k < rest.len() implies is_draw(#[trigger] rest[k], 0, 4)
            && rest[k].2 != 0 by {
            assert(rest[k] == d[k + 1]);
        }
        assert(is_draw(d[0], 0, 4) && d[0].2 != 0);
        lemma_read_plan_all_plain(ws, rest, i + 1);
        assert(seq![plain_style()] + Seq::new(rest.len(), |_k: int| plain_style()) =~= Seq::new(
            d.len(),
            |_k: int| plain_style(),
        ));
    } else {
        assert(Seq::new(d.len(), |_k: int| plain_style()) =~= Seq::<StyleSpec>::empty());
    }
}

/// When no run draw is 0 (one draw from `0..4` per word, each 1, 2 or 3), the
/// game gives back the text with one space after it: no word is lost, added,
/// moved or changed.
pub proof fn lemma_plain_game_echoes_text(text: Seq<char>, d: Seq<(usize, usize, usize)>)
    requires
        d.len() == words_of(text).len(),
        forall|k: int| 0 <= k < d.len() ==> is_draw(#[trigger] d[k], 0, 4) && d[k].2 != 0,
    ensures
        game_result(text, d) == Some(text + seq![' ']),
{
    let ws = words_of(text);
    let plan = Seq::new(d.len(), |_k: int| plain_style());
    lemma_read_plan_all_plain(ws, d, 0);
    crate::text::lemma_split_first_is_prefix(text, seq![' ']);
    crate::text::lemma_join_split(text, seq![' ']);
    lemma_render_plain_joins(ws, plan);
}

} // verus!
