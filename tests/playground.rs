use playbot::context::{Context, Message};
use playbot::cratesio::{crate_info_url, crate_url_for, Crate, Info};
use playbot::flow::Flow;
use playbot::playground::{
    build_program, execution_report, full_output_line, lines, parse_flags, paste_text,
    playground_handler, version_line, Channel, Mode, Request, Response, Step, Version,
};

fn ctx(body: &str, is_channel: bool) -> Context {
    let m = Message {
        body: Some(body.to_string()),
        source: Some("alice!a@example.org".to_string()),
        source_nickname: Some("alice".to_string()),
        response_target: Some(if is_channel { "#rust" } else { "alice" }.to_string()),
        target_is_channel: is_channel,
    };
    Context::new(&m, "bot").unwrap()
}

#[test]
fn names_of_modes_and_channels() {
    assert_eq!(Mode::Debug.as_str(), "debug");
    assert_eq!(Mode::Release.as_str(), "release");
    assert_eq!(Channel::Stable.as_str(), "stable");
    assert_eq!(Channel::Beta.as_str(), "beta");
    assert_eq!(Channel::Nightly.as_str(), "nightly");
}

#[test]
fn flag_loop_stops_at_help() {
    let p = parse_flags("--nightly --release help more code");
    assert!(p.help);
    assert_eq!(p.flags.channel, Channel::Nightly);
    assert_eq!(p.flags.mode, Mode::Release);
    assert_eq!(p.rest, "help more code");
    let s = playground_handler(&ctx("--nightly --release help more code", false));
    assert!(matches!(s, Step::Help));
    assert_eq!(s.flow(), Flow::Break);
}

#[test]
fn flag_loop_stops_at_code() {
    let p = parse_flags("  --beta --bare --debug   let x = 1;");
    assert!(!p.help);
    assert_eq!(p.flags.channel, Channel::Beta);
    assert!(p.flags.bare);
    assert!(!p.flags.show_version);
    assert_eq!(p.flags.mode, Mode::Debug);
    assert_eq!(p.rest, "let x = 1;");
}

#[test]
fn version_flag_asks_for_version() {
    let s = playground_handler(&ctx("--nightly VERSION", false));
    assert!(matches!(s, Step::ShowVersion(Channel::Nightly)));
}

#[test]
fn unaddressed_message_passes() {
    let s = playground_handler(&ctx("1 + 1", true));
    assert!(matches!(s, Step::Pass));
    assert_eq!(s.flow(), Flow::Continue);
}

#[test]
fn bare_code_is_sent_as_is() {
    match playground_handler(&ctx("bot: --mini --release fn main() {}", true)) {
        Step::Execute(r) => {
            assert_eq!(r.code(), "fn main() {}");
            assert_eq!(r.mode(), Mode::Release);
            assert_eq!(r.channel(), Channel::Stable);
        }
        _ => panic!("expected a run"),
    }
}

#[test]
fn crate_attributes_are_hoisted() {
    match playground_handler(&ctx("#![feature(box_syntax)] 1 + 1", false)) {
        Step::Execute(r) => {
            assert_eq!(
                r.code(),
                "#![allow(dead_code, unused_variables)]\n#![feature(box_syntax)]\nfn main() {\n    println!(\"{:?}\", {\n         1 + 1\n    });\n}\n"
            );
        }
        _ => panic!("expected a run"),
    }
}

#[test]
fn program_without_attributes_is_wrapped() {
    let p = build_program(false, "1 + 1", Some((String::new(), String::new())));
    assert_eq!(p, "#![allow(dead_code, unused_variables)]\n\nfn main() {\n    println!(\"{:?}\", {\n        1 + 1\n    });\n}\n");
    let q = build_program(false, "x #![a]", Some(("x ".to_string(), "#![a]".to_string())));
    assert!(q.ends_with("x #![a]\n    });\n}\n"));
}

#[test]
fn version_line_cuts_hash() {
    let v = Version {
        version: "1.30.0-nightly".to_string(),
        hash: "0123456789abcdef".to_string(),
        date: "2018-09-01".to_string(),
    };
    assert_eq!(version_line(&v), "1.30.0-nightly (012345678 2018-09-01)");
}

#[test]
fn lines_follow_line_endings() {
    assert_eq!(lines("a\r\nb\n"), vec!["a".to_string(), "b".to_string()]);
    assert!(lines("").is_empty());
    assert_eq!(lines("\n"), vec![String::new()]);
    assert_eq!(lines("x\r"), vec!["x\r".to_string()]);
}

#[test]
fn success_shows_two_lines_and_pastes() {
    let resp = Response {
        success: true,
        stdout: "1\n2\n3\n4\n5\n".to_string(),
        stderr: String::new(),
    };
    let r = execution_report(&resp);
    assert_eq!(r.lines, vec!["1".to_string(), "2".to_string()]);
    assert!(r.paste);
}

#[test]
fn failure_filters_build_chatter() {
    let resp = Response {
        success: false,
        stdout: String::new(),
        stderr: "   Compiling foo\nerror: bad\nnote: here\n".to_string(),
    };
    let r = execution_report(&resp);
    assert_eq!(r.lines, vec!["error: bad".to_string()]);
    assert!(r.paste);
}

#[test]
fn short_failure_needs_no_paste() {
    let resp = Response { success: false, stdout: String::new(), stderr: "error: bad".to_string() };
    let r = execution_report(&resp);
    assert_eq!(r.lines, vec!["error: bad".to_string()]);
    assert!(!r.paste);
}

#[test]
fn short_success_needs_no_paste() {
    let resp = Response { success: true, stdout: "ok\n".to_string(), stderr: String::new() };
    let r = execution_report(&resp);
    assert_eq!(r.lines, vec!["ok".to_string()]);
    assert!(!r.paste);
}

#[test]
fn paste_holds_code_and_output() {
    let mut req = Request::new("main");
    req.set_channel(Channel::Beta);
    let resp = Response { success: true, stdout: "out".to_string(), stderr: "err".to_string() };
    assert_eq!(paste_text(&req, &resp), "// code\nmain\n\n/* stdout\nout\n*/\n\n/* stderr\nerr\n*/\n");
    assert_eq!(full_output_line("https://x"), "~~~ Full output: https://x");
    assert_eq!(req.channel(), Channel::Beta);
}

#[test]
fn crate_url_is_percent_encoded() {
    assert_eq!(crate_info_url("serde"), "https://crates.io/api/v1/crates/serde");
    assert_eq!(crate_info_url("a b/c"), "https://crates.io/api/v1/crates/a%20b%2Fc");
    assert_eq!(crate_url_for("x"), "https://crates.io/api/v1/crates/x");
}

#[test]
fn crate_getters() {
    let info = Info::new(Crate::new("serde".to_string(), "serde".to_string(), "ser".to_string(), "1.0.0".to_string()));
    assert_eq!(info.krate().id(), "serde");
    assert_eq!(info.krate().name(), "serde");
    assert_eq!(info.krate().description(), "ser");
    assert_eq!(info.krate().max_version(), "1.0.0");
}
