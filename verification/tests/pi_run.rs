use ai_audit::opencode::run::{Launch, ProcessEnd};
use ai_audit::pi::command::{build_hermetic, build_plain};
use ai_audit::pi::info::{fetch_info, SessionText};
use ai_audit::pi::run::{build_task_args, finish_task, get_default_model, request_task, run, RunOptions};
use ai_audit::pi::sanity::AiTaskSpec;
use ai_audit::provider::Provider;

fn ran(printed: &[&str], code: i32) -> Launch {
    Launch::Ran {
        printed: printed.iter().map(|l| l.to_string()).collect(),
        log: vec!["went wrong".to_string()],
        end: ProcessEnd::Exited(Some(code)),
    }
}

const SESSION: &str = r#"{"type":"session","id":"ses_1"}"#;
const END: &str = r#"{"type":"agent_end","messages":[{"role":"user","content":"q"},{"role":"assistant","usage":{"input":3,"output":4,"cacheRead":5,"cacheWrite":6},"content":[{"type":"text","text":"Hello "},{"type":"text","text":"World"}]}]}"#;

#[test]
fn a_task_gives_its_last_answer() {
    let done = finish_task(ran(&[SESSION, "noise", END], 0), 9).unwrap();
    assert_eq!(done.output, "Hello World");
    assert_eq!(done.session_id.as_deref(), Some("ses_1"));
    assert_eq!(done.tokens.input, 3);
    assert_eq!(done.tokens.output, 4);
    assert_eq!(done.tokens.cache_read, 5);
    assert_eq!(done.tokens.cache_write, 6);
}

#[test]
fn tasks_fail_in_several_ways() {
    assert_eq!(
        finish_task(ran(&[SESSION], 3), 9).err().as_deref(),
        Some("pi exited with code 3: went wrong")
    );
    assert_eq!(
        finish_task(Launch::NotFound, 9).err().as_deref(),
        Some("pi not found. Install it or add it to PATH.")
    );
    assert_eq!(
        finish_task(Launch::Failed("no".to_string()), 9).err().as_deref(),
        Some("Failed to spawn pi: no")
    );
    assert_eq!(finish_task(Launch::Lost("gone".to_string()), 9).err().as_deref(), Some("gone"));
    let late = Launch::Ran { printed: Vec::new(), log: Vec::new(), end: ProcessEnd::TimedOut };
    assert_eq!(
        finish_task(late, 9).err().as_deref(),
        Some("Timeout: pi did not complete within 9s")
    );
    let huge = r#"{"type":"agent_end","messages":[{"role":"assistant","usage":{"input":18446744073709551615}},{"role":"assistant","usage":{"input":1}}]}"#;
    assert!(finish_task(ran(&[huge], 0), 9).is_err());
}

fn options<'a>(model: Option<&'a str>) -> RunOptions<'a> {
    RunOptions { model, system_prompt: None, timeout_secs: None, tools: None, verbose: false }
}

#[test]
fn outputs_are_checked_before_they_are_given() {
    let greets = |output: &str| {
        if output.contains("Hello") {
            Ok(())
        } else {
            Err("no greeting".to_string())
        }
    };
    let wanted = AiTaskSpec { shape: "a greeting", looks_complete: greets };
    let start = |starts: u32, _: &Vec<String>, _: u64| (starts + 1, ran(&[SESSION, END], 0));
    let (starts, done) = run("p", "/i", &options(Some("m")), &wanted, 0, start);
    assert!(done.is_ok());
    assert_eq!(starts, 1);
    let silent = |starts: u32, _: &Vec<String>, _: u64| (starts + 1, ran(&[SESSION], 0));
    let error = run("p", "/i", &options(Some("m")), &wanted, 0, silent).1.err().unwrap();
    assert!(error.contains("no greeting"));
    assert!(error.contains("ses_1"));
    let (starts, refused) = run("p", "/i", &options(None), &wanted, 0, start);
    assert_eq!(refused.err().as_deref(), Some("RunOptions.model is required"));
    assert_eq!(starts, 0);
    assert!(request_task("p", "/i", &options(None)).is_err());
    assert_eq!(request_task("p", "/i", &options(Some("m"))).unwrap().1, 600);
}

#[test]
fn tasks_are_started_without_surroundings() {
    let mut expected = build_hermetic();
    for arg in ["--model", "m", "--append-system-prompt", "/i", "--tools", "read", "p"] {
        expected.push(arg.to_string());
    }
    assert_eq!(build_task_args("p", "/i", "m", None, Some("read")), expected);
    assert!(expected.contains(&"--no-session".to_string()));
    assert!(build_plain().is_empty());
}

#[test]
fn the_default_model_stands_in_the_settings() {
    assert_eq!(
        get_default_model("\"/s\"", r#"{"defaultProvider":"a","defaultModel":"b"}"#),
        Ok("a/b".to_string())
    );
    assert_eq!(
        get_default_model("\"/s\"", "no document").err().as_deref(),
        Some("Failed to parse pi settings \"/s\": expected ident at line 1 column 2")
    );
    assert_eq!(
        get_default_model("\"/s\"", "{}").err().as_deref(),
        Some("pi settings missing 'defaultProvider'")
    );
    assert_eq!(
        get_default_model("\"/s\"", r#"{"defaultProvider":"a"}"#).err().as_deref(),
        Some("pi settings missing 'defaultModel'")
    );
}

fn session_text(lines: &[&str]) -> SessionText {
    SessionText {
        path: "/base/x.jsonl".to_string(),
        base: "/base".to_string(),
        lines: lines.iter().map(|l| l.to_string()).collect(),
    }
}

#[test]
fn details_of_a_session_come_from_its_file() {
    let file = session_text(&[
        r#"{"type":"session","id":"s","timestamp":"2026-04-30T09:36:43Z","cwd":"/p"}"#,
        r#"{"type":"message","timestamp":"2026-04-30T09:37:00Z","message":{"role":"user","content":"do\nit"}}"#,
        r#"{"type":"message","timestamp":"2026-04-30T09:37:01Z","message":{"role":"assistant","provider":"a","model":"b","content":[{"type":"toolCall","name":"read"}]}}"#,
        r#"{"type":"message","timestamp":"2026-04-30T09:37:02Z","message":{"role":"toolResult","content":[{"type":"text","isError":true}]}}"#,
    ]);
    let info = fetch_info("s", Some(&file)).unwrap();
    assert_eq!(info.provider, Provider::Pi);
    assert_eq!(info.project_dir.as_deref(), Some("/p"));
    assert_eq!(info.title.as_deref(), Some("do it"));
    assert_eq!(info.message_count, 2);
    assert_eq!(info.tool_call_count, 1);
    assert!(info.aborted);
    assert_eq!(info.model.as_deref(), Some("a/b"));
    assert!(info.static_status.is_none());
    assert!(fetch_info("s", None).err().unwrap().contains("s"));
}
