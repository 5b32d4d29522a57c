use playbot::command::Command;
use playbot::context::{Context, Message, ReplyKind};

fn message(body: &str, target: &str, is_channel: bool) -> Message {
    Message {
        body: Some(body.to_string()),
        source: Some("alice!a@example.org".to_string()),
        source_nickname: Some("alice".to_string()),
        response_target: Some(target.to_string()),
        target_is_channel: is_channel,
    }
}

#[test]
fn parse_without_prefix_is_none() {
    assert!(Command::parse("?", "eval 1 + 1").is_none());
    assert!(Command::parse("?", "").is_none());
    assert!(Command::parse("!!", "!eval").is_none());
}

#[test]
fn parse_name_and_two_args() {
    let c = Command::parse("?", "?crate serde json").unwrap();
    assert_eq!(c.name(), "crate");
    assert_eq!(c.args().to_vec(), vec!["serde".to_string(), "json".to_string()]);
}

#[test]
fn parse_splits_on_any_whitespace() {
    let c = Command::parse("?", "?help   a\tb  ").unwrap();
    assert_eq!(c.name(), "help");
    assert_eq!(c.args().to_vec(), vec!["a".to_string(), "b".to_string()]);
}

#[test]
fn parse_prefix_alone_is_none() {
    assert!(Command::parse("?", "?").is_none());
    assert!(Command::parse("?", "?   ").is_none());
}

#[test]
fn parse_name_without_args() {
    let c = Command::parse("?", "?ping").unwrap();
    assert_eq!(c.name(), "ping");
    assert!(c.args().is_empty());
}

#[test]
fn ctcp_body_is_unwrapped() {
    let m = message("\u{1}ACTION waves\u{1}", "#rust", true);
    let c = Context::new(&m, "bot").unwrap();
    assert!(c.is_ctcp());
    assert_eq!(c.body(), "ACTION waves");
    assert!(!c.is_directly_addressed());
}

#[test]
fn single_control_byte_is_not_ctcp() {
    let m = message("\u{1}", "#rust", true);
    let c = Context::new(&m, "bot").unwrap();
    assert!(!c.is_ctcp());
    assert_eq!(c.body(), "\u{1}");
}

#[test]
fn nickname_with_colon_addresses_bot() {
    let c = Context::new(&message("bot: foo", "#rust", true), "bot").unwrap();
    assert!(c.is_directly_addressed());
    assert_eq!(c.body(), "foo");
}

#[test]
fn nickname_with_comma_addresses_bot() {
    let c = Context::new(&message("  bot ,   foo bar ", "#rust", true), "bot").unwrap();
    assert!(c.is_directly_addressed());
    assert_eq!(c.body(), "foo bar");
}

#[test]
fn nickname_without_separator_is_kept() {
    let c = Context::new(&message("botfoo", "#rust", true), "bot").unwrap();
    assert!(!c.is_directly_addressed());
    assert_eq!(c.body(), "botfoo");
}

#[test]
fn private_message_is_addressed() {
    let c = Context::new(&message("anything here", "alice", false), "bot").unwrap();
    assert!(c.is_directly_addressed());
    assert_eq!(c.body(), "anything here");
}

#[test]
fn private_message_with_bare_nickname_is_not_addressed() {
    let c = Context::new(&message("botfoo", "alice", false), "bot").unwrap();
    assert!(!c.is_directly_addressed());
}

#[test]
fn channel_message_without_nickname_is_not_addressed() {
    let c = Context::new(&message("hello all", "#rust", true), "bot").unwrap();
    assert!(!c.is_directly_addressed());
    assert_eq!(c.body(), "hello all");
}

#[test]
fn missing_parts_give_no_context() {
    let mut m = message("hi", "#rust", true);
    m.body = None;
    assert!(Context::new(&m, "bot").is_none());
    let mut m = message("hi", "#rust", true);
    m.source_nickname = None;
    assert!(Context::new(&m, "bot").is_none());
    let mut m = message("hi", "#rust", true);
    m.source = None;
    assert!(Context::new(&m, "bot").is_none());
    let mut m = message("hi", "#rust", true);
    m.response_target = None;
    assert!(Context::new(&m, "bot").is_none());
}

#[test]
fn context_keeps_sender_fields() {
    let c = Context::new(&message("hi", "#rust", true), "bot").unwrap();
    assert_eq!(c.source(), "alice!a@example.org");
    assert_eq!(c.source_nickname(), "alice");
    assert_eq!(c.current_nickname(), "bot");
    assert_eq!(c.target(), "#rust");
}

#[test]
fn replies_go_by_notice_to_channels() {
    let c = Context::new(&message("hi", "#rust", true), "bot").unwrap();
    let r = c.reply("hello");
    assert_eq!(r.kind, ReplyKind::Notice);
    assert_eq!(r.target, "#rust");
    assert_eq!(r.text, "hello");
}

#[test]
fn replies_go_by_privmsg_to_people() {
    let c = Context::new(&message("hi", "alice", false), "bot").unwrap();
    let r = c.reply("hello");
    assert_eq!(r.kind, ReplyKind::Privmsg);
    assert_eq!(r.target, "alice");
}

#[test]
fn inline_contexts_come_from_backtick_pairs() {
    let c = Context::new(&message("see `?a 1` and ` ?b ` and `?c", "#rust", true), "bot").unwrap();
    let inl = c.inline_contexts();
    assert_eq!(inl.len(), 2);
    assert_eq!(inl[0].body(), "?a 1");
    assert_eq!(inl[1].body(), "?b");
    assert_eq!(inl[0].target(), "#rust");
}

#[test]
fn no_backticks_no_inline_contexts() {
    let c = Context::new(&message("plain", "#rust", true), "bot").unwrap();
    assert!(c.inline_contexts().is_empty());
}
