use playbot::context::Message;
use playbot::flow::Flow;
use playbot::playground::Playground;
use playbot::registry::{Call, CommandRegistry};

fn message(body: &str) -> Message {
    Message {
        body: Some(body.to_string()),
        source: Some("alice!a@example.org".to_string()),
        source_nickname: Some("alice".to_string()),
        response_target: Some("#rust".to_string()),
        target_is_channel: true,
    }
}

/// Runs the dispatch of `body`, answering each call with `answer`, and
/// returns (named?, handler, context index) of each call made.
fn drive(reg: &CommandRegistry, body: &str, answer: &dyn Fn(&Call) -> Flow) -> Vec<(bool, usize, usize)> {
    let mut d = reg.handle_message(&message(body), "bot");
    let mut made = Vec::new();
    while let Some(i) = d.next_call() {
        let call = d.call(i);
        match call {
            Call::Named { handler, context, .. } => made.push((true, *handler, *context)),
            Call::Fallback { handler } => made.push((false, *handler, 0)),
        }
        let flow = answer(call);
        d.report(flow);
    }
    assert!(d.is_done());
    made
}

fn registry() -> CommandRegistry {
    let mut reg = CommandRegistry::new("?");
    reg.set_named_handler("a", 1);
    reg.set_named_handler("b", 2);
    reg.add_fallback_handler(10);
    reg.add_fallback_handler(11);
    reg
}

#[test]
fn primary_break_stops_dispatch() {
    let reg = registry();
    let made = drive(&reg, "?a x `?b` `?b`", &|_| Flow::Break);
    assert_eq!(made, vec![(true, 1, 0)]);
}

#[test]
fn primary_continue_runs_inline_then_fallbacks() {
    let reg = registry();
    let made = drive(&reg, "?a x", &|_| Flow::Continue);
    assert_eq!(made, vec![(true, 1, 0), (true, 1, 0), (false, 10, 0), (false, 11, 0)]);
}

#[test]
fn inline_contexts_capped_at_three() {
    let reg = registry();
    let d = reg.handle_message(&message("x `?a` `?b` `?a` `?b` `?a`"), "bot");
    assert_eq!(d.len_contexts(), 4);
    let made = drive(&reg, "x `?a` `?b` `?a` `?b` `?a`", &|_| Flow::Continue);
    let inline: Vec<_> = made.iter().filter(|c| c.0).cloned().collect();
    assert_eq!(inline, vec![(true, 1, 1), (true, 2, 2), (true, 1, 3)]);
}

#[test]
fn inline_break_skips_fallbacks() {
    let reg = registry();
    let made = drive(&reg, "x `?a` `?b`", &|c| match c {
        Call::Named { handler: 1, .. } => Flow::Break,
        _ => Flow::Continue,
    });
    assert_eq!(made, vec![(true, 1, 1), (true, 2, 2)]);
}

#[test]
fn fallbacks_stop_at_first_break() {
    let reg = registry();
    let made = drive(&reg, "nothing here", &|c| match c {
        Call::Fallback { handler: 10 } => Flow::Break,
        _ => Flow::Continue,
    });
    assert_eq!(made, vec![(false, 10, 0)]);
}

#[test]
fn unknown_command_goes_to_fallbacks() {
    let reg = registry();
    let made = drive(&reg, "?zzz", &|_| Flow::Continue);
    assert_eq!(made, vec![(false, 10, 0), (false, 11, 0)]);
}

#[test]
fn no_context_means_no_calls() {
    let reg = registry();
    let mut m = message("?a");
    m.source = None;
    let mut d = reg.handle_message(&m, "bot");
    assert_eq!(d.next_call(), None);
    assert_eq!(d.len_contexts(), 0);
}

#[test]
fn named_handler_gets_arguments() {
    let reg = registry();
    let d = reg.handle_message(&message("?b one two"), "bot");
    match d.call(0) {
        Call::Named { handler, args, .. } => {
            assert_eq!(*handler, 2);
            assert_eq!(args.clone(), vec!["one".to_string(), "two".to_string()]);
        }
        Call::Fallback { .. } => panic!("expected a named call"),
    }
}

#[test]
fn later_registration_replaces_handler() {
    let mut reg = registry();
    reg.set_named_handler("a", 7);
    assert_eq!(reg.handler("a"), Some(7));
    assert_eq!(reg.handler("b"), Some(2));
    assert_eq!(reg.handler("c"), None);
    assert_eq!(reg.command_prefix(), "?");
}

#[test]
fn playground_registers_a_fallback() {
    let mut reg = CommandRegistry::new("?");
    Playground::init(&mut reg, 42);
    let made = drive(&reg, "hi", &|_| Flow::Continue);
    assert_eq!(made, vec![(false, 42, 0)]);
    let shared = reg.into_arc();
    assert_eq!(shared.command_prefix(), "?");
}
