use minime::random::DrawLog;
use minime::dynamic::{pick_response, response_options};
use minime::numbers::parse_u64;
use minime::messages::decimal_string;
use minime::text::{split_chars, str_chars};

fn split(s: &str, sep: &str) -> Vec<String> {
    let pieces = split_chars(&str_chars(s), &str_chars(sep));
    pieces.iter().map(|p| p.iter().collect::<String>()).collect()
}

#[test]
fn split_on_separator_in_middle() {
    assert_eq!(split("a%orb%orc", "%or"), vec!["a", "b", "c"]);
}

#[test]
fn split_without_separator_keeps_text() {
    assert_eq!(split("abc", "%or"), vec!["abc"]);
    assert_eq!(split("", "%or"), vec![""]);
}

#[test]
fn split_separator_alone_gives_two_empty_pieces() {
    assert_eq!(split("%or", "%or"), vec!["", ""]);
}

#[test]
fn split_finds_leftmost_occurrences() {
    assert_eq!(split("%o%orr", "%or"), vec!["%o", "r"]);
    assert_eq!(split("aaa", "aa"), vec!["", "a"]);
}

#[test]
fn split_then_join_gives_back_text() {
    for text in ["x%ory%or", "%or%or", "plain", "a%o r%orb"] {
        assert_eq!(split(text, "%or").join("%or"), text);
    }
}

#[test]
fn split_on_spaces_matches_std() {
    for text in ["hello there  friend", " lead", "trail ", ""] {
        let expected: Vec<&str> = text.split(' ').collect();
        assert_eq!(split(text, " "), expected);
    }
}

#[test]
fn response_options_lists_alternatives() {
    assert_eq!(response_options("yes%orno%ormaybe"), vec!["yes", "no", "maybe"]);
    assert_eq!(response_options("just this"), vec!["just this"]);
}

#[test]
fn pick_response_without_alternatives_is_the_response() {
    assert_eq!(pick_response("hello there", &mut DrawLog::new()), "hello there");
    assert_eq!(pick_response("", &mut DrawLog::new()), "");
}

#[test]
fn pick_response_picks_an_alternative() {
    for _ in 0..50 {
        let r = pick_response("x%ory%orz", &mut DrawLog::new());
        assert!(r == "x" || r == "y" || r == "z", "{}", r);
    }
}

#[test]
fn parse_u64_reads_decimal_numbers() {
    assert_eq!(parse_u64("123"), Some(123));
    assert_eq!(parse_u64("+7"), Some(7));
    assert_eq!(parse_u64("007"), Some(7));
    assert_eq!(parse_u64("18446744073709551615"), Some(u64::MAX));
}

#[test]
fn parse_u64_rejects_what_std_rejects() {
    for s in ["", "+", "-1", "12a", " 1", "18446744073709551616", "99999999999999999999999", "１"] {
        assert_eq!(parse_u64(s), None, "{}", s);
        assert_eq!(s.parse::<u64>().ok(), None);
    }
}

#[test]
fn parse_u64_agrees_with_std() {
    for s in ["0", "42", "+0", "+18446744073709551615", "1844674407370955161", "00000000000000000000001"] {
        assert_eq!(parse_u64(s), s.parse::<u64>().ok(), "{}", s);
    }
}

#[test]
fn decimal_string_writes_numbers() {
    assert_eq!(decimal_string(0), "0");
    assert_eq!(decimal_string(1234), "1234");
    assert_eq!(decimal_string(u64::MAX), "18446744073709551615");
}

#[test]
fn alternatives_never_hold_the_separator() {
    for text in ["%or%or%or", "a%oror", "%%oror", "x%o%orr%or"] {
        for piece in response_options(text) {
            assert!(!piece.contains("%or"), "{:?} in {:?}", piece, text);
        }
        assert_eq!(response_options(text).join("%or"), text);
    }
}
