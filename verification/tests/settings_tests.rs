use minime::age::{age_reply, oldest_reply, sort_by_creation};
use minime::mentions::{mention_would_panic, parse_mention};
use minime::models::GuildData;
use minime::settings::{
    check_prefix, mention_prefix_reply, moderator_role_set_reply, moderator_step, prefix_set_reply,
    resolve_prefix, role_check_result, user_role_position_check, with_moderator_role, with_prefix,
    CheckFailure, ModeratorStep, PrefixDecision,
};

fn guild(role: Option<&str>, prefix: Option<&str>) -> GuildData {
    GuildData {
        guild_id: "1".to_string(),
        moderator_role_id: role.map(|s| s.to_string()),
        dynamic_prefix: prefix.map(|s| s.to_string()),
    }
}

#[test]
fn prefix_defaults_to_question_mark() {
    assert_eq!(resolve_prefix(None), "?");
    assert_eq!(resolve_prefix(Some(guild(None, None))), "?");
    assert_eq!(resolve_prefix(Some(guild(None, Some("!")))), "!");
}

#[test]
fn prefix_checks() {
    assert!(matches!(check_prefix(""), PrefixDecision::Ignore));
    assert!(matches!(check_prefix("!"), PrefixDecision::Accept));
    assert!(matches!(check_prefix("<@123>"), PrefixDecision::RejectMention));
    assert!(matches!(check_prefix("<@!123>"), PrefixDecision::RejectMention));
    assert!(matches!(check_prefix("<@&5>"), PrefixDecision::RejectMention));
    assert!(matches!(check_prefix("<#9>"), PrefixDecision::RejectMention));
    assert!(matches!(check_prefix("<@abc>"), PrefixDecision::Accept));
    assert!(matches!(check_prefix("<#9"), PrefixDecision::Accept));
}

#[test]
fn user_mention_ignores_closing_bracket() {
    assert_eq!(parse_mention("<@12x"), Some(12));
    assert_eq!(parse_mention("<@&12x"), None);
    assert_eq!(parse_mention("<@1"), None);
}

#[test]
fn mention_panic_condition() {
    assert!(mention_would_panic("<@é"));
    assert!(!mention_would_panic("<@&é"));
    assert!(!mention_would_panic("<@1"));
    assert!(!mention_would_panic("é"));
}

#[test]
fn prefix_replies() {
    assert_eq!(mention_prefix_reply(), "Can't use a mention as a prefix");
    assert_eq!(prefix_set_reply("$"), "prefix $ set as the default prefix for this server.");
    assert_eq!(moderator_role_set_reply(55), "role <@&55> set as the minimum moderator role.");
}

#[test]
fn settings_updates_keep_other_fields() {
    let g = with_prefix(guild(Some("3"), None), "9".into(), "!!");
    assert_eq!((g.guild_id.as_str(), g.moderator_role_id.as_deref(), g.dynamic_prefix.as_deref()), ("9", Some("3"), Some("!!")));
    let g = with_moderator_role(guild(None, Some("?!")), "9".into(), 1234);
    assert_eq!((g.guild_id.as_str(), g.moderator_role_id.as_deref(), g.dynamic_prefix.as_deref()), ("9", Some("1234"), Some("?!")));
}

#[test]
fn moderator_check_steps() {
    assert!(matches!(moderator_step(true, false, None), ModeratorStep::Allowed));
    assert!(matches!(moderator_step(false, false, Some(guild(Some("1"), None))), ModeratorStep::Refused(CheckFailure::Unknown)));
    assert!(matches!(moderator_step(false, true, None), ModeratorStep::Refused(CheckFailure::Unknown)));
    match moderator_step(false, true, Some(guild(None, None))) {
        ModeratorStep::Refused(CheckFailure::User(m)) => assert_eq!(m, "Lacked required role or higher"),
        _ => panic!("expected a refusal"),
    }
    assert!(matches!(moderator_step(false, true, Some(guild(Some("x1"), None))), ModeratorStep::Refused(CheckFailure::Unknown)));
    assert!(matches!(moderator_step(false, true, Some(guild(Some("77"), None))), ModeratorStep::CheckRole(77)));
}

#[test]
fn role_position_check() {
    assert!(user_role_position_check(Some(3), Some(vec![1, 3])));
    assert!(user_role_position_check(Some(3), Some(vec![5])));
    assert!(!user_role_position_check(Some(3), Some(vec![1, 2])));
    assert!(!user_role_position_check(Some(3), Some(vec![])));
    assert!(!user_role_position_check(None, Some(vec![9])));
    assert!(!user_role_position_check(Some(0), None));
}

#[test]
fn role_check_results() {
    assert!(role_check_result(true).is_ok());
    match role_check_result(false) {
        Err(CheckFailure::User(m)) => assert_eq!(m, "Lacked required role or higher"),
        _ => panic!("expected a refusal"),
    }
}

#[test]
fn age_reply_formats_creation_time() {
    assert_eq!(
        age_reply(vec![175928847299117063]),
        Some("User ages:\n<@175928847299117063> created at <t:1462015105:f>\n".to_string())
    );
}

#[test]
fn age_reply_limits() {
    assert_eq!(age_reply(vec![]), None);
    assert_eq!(age_reply(vec![1 << 22; 51]), None);
    assert!(age_reply(vec![1 << 22; 50]).is_some());
    assert_eq!(oldest_reply(vec![], 3), None);
}

#[test]
fn sort_is_by_creation_and_stable() {
    let a = (5u64 << 22) | 1;
    let b = 2u64 << 22;
    let c = (5u64 << 22) | 0;
    let d = 1u64 << 22;
    assert_eq!(sort_by_creation(vec![a, b, c, d]), vec![d, b, a, c]);
}

#[test]
fn oldest_reply_keeps_the_oldest() {
    let old = 1u64 << 22;
    let young = 9000u64 << 22;
    let r = oldest_reply(vec![young, old], 1).unwrap();
    assert_eq!(r, age_reply(vec![old]).unwrap());
    assert_eq!(oldest_reply(vec![young, old], 10), age_reply(vec![young, old]));
}

#[test]
fn oldest_reply_takes_any_number_of_members() {
    let mut ids = vec![9000u64 << 22; 60];
    ids.push(1u64 << 22);
    let r = oldest_reply(ids, 1).unwrap();
    assert_eq!(r, age_reply(vec![1u64 << 22]).unwrap());
}
