use minime::play::{schizo_reply, uwu_reply};
use minime::profanity::{censor_text, get_custom_censor, standard_censor};
use minime::random::DrawLog;
use minime::schizo::{
    do_schizo, plan_for_draws, play_schizo, render_schizo, schizo_with_draws, Shape, WordStyle,
};
use minime::text::str_chars;

#[test]
fn standard_censor_replaces_with_grawlix() {
    let c = standard_censor();
    assert_eq!(censor_text(&c, "What the fuck?"), "What the !@#$?");
    assert_eq!(censor_text(&c, "hello"), "hello");
}

#[test]
fn custom_censor_adds_one_word() {
    let standard = standard_censor();
    let custom = get_custom_censor();
    assert_eq!(censor_text(&standard, "you retard"), "you retard");
    assert_eq!(censor_text(&custom, "you retard"), "you !@#$%!");
    assert_eq!(censor_text(&custom, "What the fuck?"), "What the !@#$?");
}

#[test]
fn censoring_keeps_the_character_count() {
    let c = get_custom_censor();
    for text in ["shit happens", "ƒuck", "nothing here", ""] {
        assert_eq!(censor_text(&c, text).chars().count(), text.chars().count());
    }
}

#[test]
fn uwu_reply_of_empty_text_is_none() {
    assert_eq!(uwu_reply(""), None);
}

#[test]
fn uwu_reply_marks_and_uwuifies() {
    assert_eq!(uwu_reply("hello world"), Some("\u{200b}hewwo wowwd".to_string()));
}

#[test]
fn schizo_reply_of_empty_text_is_none() {
    assert_eq!(schizo_reply(""), None);
}

fn strip_marks(w: &str) -> String {
    w.trim_end_matches('.').trim_end_matches('?').to_lowercase()
}

#[test]
fn schizo_reply_keeps_words_in_order() {
    for _ in 0..30 {
        let r = schizo_reply("hi there you").unwrap();
        assert!(r.starts_with('\u{200b}'));
        let body: String = r.chars().skip(1).collect();
        assert!(body.ends_with(' '));
        let words: Vec<String> = body.trim_end_matches(' ').split(' ').map(strip_marks).collect();
        assert_eq!(words, vec!["hi", "there", "you"]);
    }
}

#[test]
fn schizo_reply_filters_profanity() {
    let r = schizo_reply("shit").unwrap();
    assert!(!r.to_lowercase().contains("shit"));
}

#[test]
fn do_schizo_ends_each_word_with_a_space() {
    let out = do_schizo("a b c");
    assert_eq!(out.matches(' ').count(), 3);
    assert!(do_schizo("").ends_with(' '));
}

#[test]
fn render_plain_plan_echoes_text() {
    let words = vec![str_chars("hello"), str_chars("world")];
    let plan = vec![
        WordStyle { shape: Shape::Plain, questions: 0, dots: 0 },
        WordStyle { shape: Shape::Plain, questions: 0, dots: 0 },
    ];
    let out: String = render_schizo(&words, &plan).into_iter().collect();
    assert_eq!(out, "hello world ");
}

#[test]
fn render_styles_words() {
    let words = vec![str_chars("hey"), str_chars("abc"), str_chars("x")];
    let plan = vec![
        WordStyle { shape: Shape::Shout, questions: 2, dots: 1 },
        WordStyle { shape: Shape::Mixed(vec![true, false, true]), questions: 0, dots: 3 },
        WordStyle { shape: Shape::Plain, questions: 0, dots: 0 },
    ];
    let out: String = render_schizo(&words, &plan).into_iter().collect();
    assert_eq!(out, "HEY??. AbC... x ");
}

#[test]
fn render_uses_unicode_uppercase() {
    let words = vec![str_chars("straße")];
    let plan = vec![WordStyle { shape: Shape::Shout, questions: 0, dots: 0 }];
    let out: String = render_schizo(&words, &plan).into_iter().collect();
    assert_eq!(out, "STRASSE ");
}

type Draw = (usize, usize, usize);

/// The draw that decides whether a word starts a run (`0..4`).
fn run(v: usize) -> Draw {
    (0, 4, v)
}

/// The length of a run (`1..4`).
fn run_len(v: usize) -> Draw {
    (1, 4, v)
}

/// Whether marks follow (`0..5`), and the shape of a styled word (`0..5`).
fn one_in_five(v: usize) -> Draw {
    (0, 5, v)
}

/// How many marks follow (`0..4`).
fn marks(v: usize) -> Draw {
    (0, 4, v)
}

/// One character of a mask (`0..2`).
fn bit(v: usize) -> Draw {
    (0, 2, v)
}

/// The draws of a styled word with no marks and the given shape draw.
fn unmarked(shape: usize) -> Vec<Draw> {
    vec![one_in_five(1), one_in_five(1), one_in_five(shape)]
}

fn cat(parts: Vec<Vec<Draw>>) -> Vec<Draw> {
    parts.into_iter().flatten().collect()
}

#[test]
fn schizo_run_of_three_is_cut_at_the_last_word() {
    let draws = cat(vec![vec![run(0), run_len(3)], unmarked(0), unmarked(0)]);
    assert_eq!(schizo_with_draws("a b", &draws), Some("A B ".to_string()));
}

#[test]
fn schizo_without_runs_copies_each_word() {
    assert_eq!(schizo_with_draws("a b", &vec![run(1), run(1)]), Some("a b ".to_string()));
    assert_eq!(
        schizo_with_draws("hi there you", &vec![run(3), run(2), run(1)]),
        Some("hi there you ".to_string())
    );
    assert_eq!(schizo_with_draws("", &vec![run(2)]), Some(" ".to_string()));
}

#[test]
fn schizo_mixed_case_follows_the_mask_draws() {
    let head = cat(vec![vec![run(0), run_len(1)], unmarked(4)]);
    assert_eq!(
        schizo_with_draws("ab", &cat(vec![head.clone(), vec![bit(0), bit(1)]])),
        Some("Ab ".to_string())
    );
    assert_eq!(
        schizo_with_draws("ab", &cat(vec![head, vec![bit(1), bit(0)]])),
        Some("aB ".to_string())
    );
}

#[test]
fn schizo_shape_draws_up_to_three_shout() {
    for kind in 0..4 {
        let draws = cat(vec![vec![run(0), run_len(1)], unmarked(kind)]);
        assert_eq!(schizo_with_draws("ab", &draws), Some("AB ".to_string()));
    }
}

#[test]
fn schizo_marks_follow_their_draws() {
    let draws = vec![
        run(0),
        run_len(1),
        one_in_five(0),
        marks(2),
        one_in_five(0),
        marks(3),
        one_in_five(0),
    ];
    assert_eq!(schizo_with_draws("a", &draws), Some("A???.. ".to_string()));
    let draws = vec![run(0), run_len(1), one_in_five(0), marks(1), one_in_five(4), one_in_five(0)];
    assert_eq!(schizo_with_draws("a", &draws), Some("A. ".to_string()));
}

#[test]
fn schizo_run_after_plain_word() {
    let draws = cat(vec![vec![run(2), run(0), run_len(2)], unmarked(3), unmarked(3)]);
    assert_eq!(schizo_with_draws("x y z", &draws), Some("x Y Z ".to_string()));
}

#[test]
fn schizo_draws_that_no_game_makes_give_none() {
    assert_eq!(schizo_with_draws("a b", &vec![run(1)]), None);
    assert_eq!(schizo_with_draws("a b", &vec![run(1), run(1), run(1)]), None);
    assert_eq!(schizo_with_draws("a", &vec![run(0), (1, 4, 0)]), None);
    assert_eq!(schizo_with_draws("a", &cat(vec![vec![run(0), (1, 4, 4)], unmarked(0)])), None);
    assert_eq!(schizo_with_draws("a", &vec![(0, 4, 4)]), None);
    assert_eq!(
        schizo_with_draws("a", &vec![run(0), run_len(1), one_in_five(1), one_in_five(1), (0, 5, 5)]),
        None
    );
    let mixed = cat(vec![vec![run(0), run_len(1)], unmarked(4)]);
    assert_eq!(schizo_with_draws("ab", &cat(vec![mixed.clone(), vec![bit(0)]])), None);
    assert_eq!(schizo_with_draws("ab", &cat(vec![mixed, vec![bit(0), (0, 2, 2)]])), None);
    assert_eq!(
        schizo_with_draws("a", &vec![run(0), run_len(1), one_in_five(0), (0, 4, 4), one_in_five(1), one_in_five(0)]),
        None
    );
}

#[test]
fn schizo_draws_from_other_ranges_give_none() {
    // The run decision taken from 1..4 in place of 0..4.
    assert_eq!(schizo_with_draws("a b", &vec![(1, 4, 1), (1, 4, 1)]), None);
    // The shape taken from 0..4 in place of 0..5.
    let draws = cat(vec![vec![run(0), run_len(1), one_in_five(1), one_in_five(1)], vec![(0, 4, 0)]]);
    assert_eq!(schizo_with_draws("a", &draws), None);
    // The mark decision taken from 0..4 in place of 0..5.
    let draws = vec![run(0), run_len(1), (0, 4, 1), one_in_five(1), one_in_five(0)];
    assert_eq!(schizo_with_draws("a", &draws), None);
}

#[test]
fn schizo_plan_for_draws_names_each_style() {
    let draws = vec![
        run(0),
        run_len(2),
        one_in_five(0),
        marks(1),
        one_in_five(1),
        one_in_five(4),
        bit(0),
        bit(1),
        one_in_five(1),
        one_in_five(1),
        one_in_five(2),
    ];
    let plan = plan_for_draws("ab c", &draws).unwrap();
    assert_eq!(plan.len(), 2);
    assert!(matches!(&plan[0].shape, Shape::Mixed(m) if *m == vec![true, false]));
    assert_eq!((plan[0].questions, plan[0].dots), (0, 1));
    assert!(matches!(plan[1].shape, Shape::Shout));
    assert_eq!((plan[1].questions, plan[1].dots), (0, 0));
    assert!(plan_for_draws("ab c", &vec![run(1)]).is_none());
}

#[test]
fn play_schizo_keeps_the_words() {
    let mut log = DrawLog::new();
    for _ in 0..20 {
        let out = play_schizo("one two three", &mut log);
        assert!(out.ends_with(' '));
        let words: Vec<String> = out.trim_end_matches(' ').split(' ').map(strip_marks).collect();
        assert_eq!(words, vec!["one", "two", "three"]);
    }
}
