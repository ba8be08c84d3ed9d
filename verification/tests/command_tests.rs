use minime::random::DrawLog;
use minime::commands::{
    add_reply, add_step, copied_command, copy_report, get_attachment_urls, get_reply, new_command_request,
    remove_reply, remove_step, rename_reply, request_has_content, update_reply, CopyProgress, RemoveOutcome,
    AddStep, RemoveStep, StoreEvent, StoreOutcome,
};
use minime::dynamic::{answer_dynamic_command, ChannelRateLimit, CHANNEL_COOLDOWN_NANOS};
use minime::models::{DynamicCommand, GuildData};

fn command(name: &str, response: &str) -> DynamicCommand {
    DynamicCommand {
        id: "id-1".to_string(),
        guild_id: "42".to_string(),
        attachment_urls: None,
        command: name.to_string(),
        response: response.to_string(),
    }
}

#[test]
fn add_replies() {
    assert_eq!(add_reply("foo", StoreOutcome::Stored), "foo command created");
    assert_eq!(add_reply("a_b", StoreOutcome::AlreadyThere), "a\\_b command already exists");
    assert_eq!(add_reply("foo", StoreOutcome::Failed), "error adding command");
}

#[test]
fn safe_replies_neutralise_mentions() {
    assert_eq!(
        add_reply("@everyone", StoreOutcome::Stored),
        "@\u{200B}everyone command created"
    );
}

#[test]
fn remove_replies() {
    assert_eq!(remove_reply("a_b", RemoveOutcome::Removed), "a_b command deleted");
    assert_eq!(remove_reply("a_b", RemoveOutcome::Missing), "a\\_b command doesn't exist");
    assert_eq!(remove_reply("x", RemoveOutcome::Failed), "error removing command");
}

#[test]
fn get_replies() {
    let missing = get_reply("x", None, &mut DrawLog::new());
    assert_eq!(missing.content, "command 'x' not found");
    assert!(missing.attachment_urls.is_none());
    let found = get_reply("x", Some(command("x", "the *answer*")), &mut DrawLog::new());
    assert_eq!(found.content, "the *answer*");
    assert!(found.attachment_urls.is_none());
}

#[test]
fn get_reply_runs_the_command() {
    for _ in 0..20 {
        let mut c = command("x", "one%ortwo");
        c.attachment_urls = Some(vec!["https://cdn.example/a.png".to_string()]);
        let r = get_reply("x", Some(c), &mut DrawLog::new());
        assert!(r.content == "one" || r.content == "two");
        assert_eq!(r.attachment_urls, Some(vec!["https://cdn.example/a.png".to_string()]));
    }
    assert_eq!(get_reply("x", Some(command("x", "%or")), &mut DrawLog::new()).content, "");
}

#[test]
fn rename_and_update_replies() {
    assert_eq!(rename_reply("old_one", "new*one", true), "old\\_one renamed to new\\*one");
    assert_eq!(rename_reply("old", "new", false), "old command not found");
    assert_eq!(update_reply("cmd", true), "cmd command updated");
    assert_eq!(update_reply("cmd", false), "cmd command not found");
}

#[test]
fn add_request_needs_content() {
    assert!(new_command_request("i".into(), "g".into(), "c", "", None).is_none());
    assert!(!request_has_content(&None, ""));
    assert!(request_has_content(&Some(vec![]), ""));
    let c = new_command_request("i".into(), "g".into(), "c", "r", None).unwrap();
    assert_eq!((c.id.as_str(), c.guild_id.as_str(), c.command.as_str(), c.response.as_str()), ("i", "g", "c", "r"));
    let urls = Some(vec!["https://a/b.png".to_string()]);
    let c = new_command_request("i".into(), "g".into(), "c", "", urls.clone()).unwrap();
    assert_eq!(c.attachment_urls, urls);
}

#[test]
fn attachment_urls_none_when_empty() {
    assert_eq!(get_attachment_urls(vec![]), None);
    assert_eq!(get_attachment_urls(vec!["u".into()]), Some(vec!["u".to_string()]));
}

#[test]
fn copy_report_lists_both_groups() {
    let added = vec!["a".to_string(), "b_c".to_string()];
    let skipped = vec!["d".to_string()];
    assert_eq!(
        copy_report(&added, &skipped),
        "**Added commands:**\n- a\n- b\\_c\n\n**Already existing commands (not added):**\n- d\n"
    );
    assert_eq!(
        copy_report(&vec![], &vec![]),
        "**Added commands:**\n\n**Already existing commands (not added):**\n"
    );
}

#[test]
fn copy_progress_copies_only_new_names() {
    let mut p = CopyProgress::new();
    assert!(p.record("a", false));
    assert!(!p.record("b", true));
    assert!(p.record("c", false));
    assert_eq!(
        p.report(),
        "**Added commands:**\n- a\n- c\n\n**Already existing commands (not added):**\n- b\n"
    );
}

#[test]
fn copied_command_moves_to_new_guild() {
    let c = copied_command(command("hi", "hello"), "new-id".into(), "7".into());
    assert_eq!((c.id.as_str(), c.guild_id.as_str(), c.command.as_str(), c.response.as_str()), ("new-id", "7", "hi", "hello"));
}

#[test]
fn dynamic_command_update_and_rename() {
    let mut c = command("hi", "hello");
    c.attachment_urls = Some(vec!["u".into()]);
    c.update("bye");
    assert_eq!(c.response, "bye");
    assert_eq!(c.attachment_urls, Some(vec!["u".to_string()]));
    c.rename("yo");
    assert_eq!(c.command, "yo");
    assert_eq!(c.response, "bye");
}

#[test]
fn guild_data_default_is_empty() {
    let g = GuildData::default();
    assert_eq!(g.guild_id, "");
    assert!(g.moderator_role_id.is_none() && g.dynamic_prefix.is_none());
}

#[test]
fn rate_limit_blocks_within_cooldown() {
    let mut limits = ChannelRateLimit::new();
    assert!(limits.allow(1, 0));
    assert!(!limits.allow(1, 1_000_000_000));
    assert!(!limits.allow(1, CHANNEL_COOLDOWN_NANOS - 1));
    assert!(limits.allow(1, CHANNEL_COOLDOWN_NANOS));
    assert!(!limits.allow(1, CHANNEL_COOLDOWN_NANOS + 5));
}

#[test]
fn rate_limit_channels_are_independent() {
    let mut limits = ChannelRateLimit::new();
    assert!(limits.allow(1, 100));
    assert!(limits.allow(2, 101));
    assert!(!limits.allow(1, 102));
    assert!(!limits.allow(2, 103));
}

#[test]
fn rate_limit_answers_are_spaced_and_channels_do_not_interfere() {
    let step = 700_000_000u64;
    let mut mixed = ChannelRateLimit::new();
    let mut alone = ChannelRateLimit::new();
    let mut answered_at: Vec<u64> = Vec::new();
    for k in 0..40u64 {
        let now = k * step;
        let in_one = mixed.allow(1, now);
        assert_eq!(in_one, alone.allow(1, now));
        if in_one {
            answered_at.push(now);
        }
        mixed.allow(2, now + 1);
    }
    assert!(answered_at.len() > 1);
    for w in answered_at.windows(2) {
        assert!(w[1] - w[0] >= CHANNEL_COOLDOWN_NANOS);
    }
}

#[test]
fn rate_limit_refusal_does_not_restart_cooldown() {
    let mut limits = ChannelRateLimit::new();
    assert!(limits.allow(9, 0));
    assert!(!limits.allow(9, 2_999_999_999));
    assert!(limits.allow(9, 3_000_000_000));
}

#[test]
fn rate_limit_clock_going_back_is_not_throttled() {
    let mut limits = ChannelRateLimit::new();
    assert!(limits.allow(3, 10_000_000_000));
    assert!(limits.allow(3, 5));
}

#[test]
fn dynamic_answer_uses_response_and_cooldown() {
    let mut limits = ChannelRateLimit::new();
    let mut c = command("hi", "hello there");
    c.attachment_urls = Some(vec!["a.png".into()]);
    let reply = answer_dynamic_command(&mut limits, 5, 0, c, &mut DrawLog::new()).unwrap();
    assert_eq!(reply.content, "hello there");
    assert_eq!(reply.attachment_urls, Some(vec!["a.png".to_string()]));
    assert!(answer_dynamic_command(&mut limits, 5, 1, command("hi", "x"), &mut DrawLog::new()).is_none());
    let r = answer_dynamic_command(&mut limits, 6, 1, command("hi", "x%ory"), &mut DrawLog::new()).unwrap();
    assert!(r.content == "x" || r.content == "y");
}

#[test]
fn add_steps_follow_the_store() {
    assert!(matches!(add_step(StoreEvent::Looked(true)), AddStep::Answer(StoreOutcome::AlreadyThere)));
    assert!(matches!(add_step(StoreEvent::Looked(false)), AddStep::Insert));
    assert!(matches!(add_step(StoreEvent::Written(true)), AddStep::Answer(StoreOutcome::Stored)));
    assert!(matches!(add_step(StoreEvent::Written(false)), AddStep::Answer(StoreOutcome::Failed)));
}

#[test]
fn remove_steps_follow_the_store() {
    assert!(matches!(remove_step(StoreEvent::Looked(true)), RemoveStep::Delete));
    assert!(matches!(
        remove_step(StoreEvent::Looked(false)),
        RemoveStep::Answer(RemoveOutcome::Missing)
    ));
    assert!(matches!(
        remove_step(StoreEvent::Written(true)),
        RemoveStep::Answer(RemoveOutcome::Removed)
    ));
    assert!(matches!(
        remove_step(StoreEvent::Written(false)),
        RemoveStep::Answer(RemoveOutcome::Failed)
    ));
}

#[test]
fn rate_limit_spacing_holds_from_a_state_ahead_of_the_clock() {
    let mut limits = ChannelRateLimit::new();
    assert!(limits.allow(1, 50 * CHANNEL_COOLDOWN_NANOS));
    let mut answered_at: Vec<u64> = Vec::new();
    for k in 0..30u64 {
        let now = k * 900_000_000;
        if limits.allow(1, now) {
            answered_at.push(now);
        }
    }
    assert_eq!(answered_at[0], 0);
    assert!(answered_at.len() > 1);
    for w in answered_at.windows(2) {
        assert!(w[1] - w[0] >= CHANNEL_COOLDOWN_NANOS);
    }
}

fn add_to(table: &mut Vec<(String, String)>, guild: &str, name: &str) -> StoreOutcome {
    let found = table.iter().any(|(g, n)| g == guild && n == name);
    match add_step(StoreEvent::Looked(found)) {
        AddStep::Answer(outcome) => outcome,
        AddStep::Insert => {
            table.push((guild.to_string(), name.to_string()));
            match add_step(StoreEvent::Written(true)) {
                AddStep::Answer(outcome) => outcome,
                AddStep::Insert => unreachable!(),
            }
        },
    }
}

fn remove_from(table: &mut Vec<(String, String)>, guild: &str, name: &str) -> RemoveOutcome {
    let found = table.iter().any(|(g, n)| g == guild && n == name);
    match remove_step(StoreEvent::Looked(found)) {
        RemoveStep::Answer(outcome) => outcome,
        RemoveStep::Delete => {
            table.retain(|(g, n)| !(g == guild && n == name));
            match remove_step(StoreEvent::Written(true)) {
                RemoveStep::Answer(outcome) => outcome,
                RemoveStep::Delete => unreachable!(),
            }
        },
    }
}

#[test]
fn add_then_remove_gives_the_table_back_and_names_stay_unique() {
    let mut table = vec![("1".to_string(), "hi".to_string()), ("2".to_string(), "yo".to_string())];
    let before = table.clone();
    assert!(matches!(add_to(&mut table, "1", "hi"), StoreOutcome::AlreadyThere));
    assert_eq!(table, before);
    assert!(matches!(add_to(&mut table, "1", "new"), StoreOutcome::Stored));
    assert!(matches!(add_to(&mut table, "1", "new"), StoreOutcome::AlreadyThere));
    assert_eq!(table.len(), 3);
    assert!(matches!(remove_from(&mut table, "1", "new"), RemoveOutcome::Removed));
    assert_eq!(table, before);
    assert!(matches!(remove_from(&mut table, "1", "new"), RemoveOutcome::Missing));
}
