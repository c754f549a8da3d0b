use ai_audit::json::{parse_json, Json};
use ai_audit::pi::home::as_session;
use ai_audit::pi::identity::{derive_parent_id, is_uuid_v7};
use ai_audit::pi::jsonl::{truncate_title, MAX_TITLE_LEN};
use ai_audit::pi::session::{
    file_contains_text, file_edited_file, file_tail_contains_text, find_session_file,
    sort_sessions, SessionInfo,
};
use ai_audit::provider::{Message, Provider};
use ai_audit::time::Timestamp;

fn json(text: &str) -> Json {
    parse_json(text).unwrap()
}

/// A text without the indentation of its lines and without its first line break.
fn unindented(text: &str) -> String {
    let lines: Vec<&str> = text.lines().map(str::trim_start).collect();
    lines.join("\n").trim_start_matches('\n').to_string()
}

fn extract_user_text(content: &Json) -> String {
    ai_audit::pi::session::extract_user_text(Some(content))
}

fn build_session_info(text: &str) -> Option<SessionInfo> {
    ai_audit::pi::session::build_session_info(text, "/sessions/x.jsonl", "/sessions")
}

fn parse_messages(content: &str, session_id: &str) -> Option<Vec<Message>> {
    Some(ai_audit::pi::session::parse_messages(content, session_id))
}

const PARENT: &str = "019191cd-7be0-7000-8000-000000000001";

#[test]
fn parents_are_named_by_directories() {
    let path = format!("/s/-tmp/2026-01-01T00-00-00_{}/entry/run-0/session.jsonl", PARENT);
    assert_eq!(derive_parent_id(&path, "/s").as_deref(), Some(PARENT));
    let top = format!("/s/-tmp/2026-01-01T00-00-00_{}.jsonl", PARENT);
    assert_eq!(derive_parent_id(&top, "/s"), None);
}

#[test]
fn sessions_are_found_by_name_or_header() {
    let named = format!("/s/2026-01-01T00-00-00_{}.jsonl", PARENT);
    let header = format!(r#"{{"type":"session","id":"{}"}}"#, PARENT);
    let nested = "/s/a/session.jsonl".to_string();
    let other = "/s/b/session.jsonl".to_string();
    let read = |path: &str| if path == "/s/a/session.jsonl" { Some(header.clone()) } else { None };
    let find = |paths: Vec<String>| find_session_file(&paths, PARENT, read);
    assert_eq!(find(vec![other.clone(), named.clone(), nested.clone()]), Some(named));
    assert_eq!(find(vec![other.clone(), nested.clone()]), Some(nested));
    assert_eq!(find(vec![other, "/s/a/notes.jsonl".to_string()]), None);
}

#[test]
fn titles_of_wide_characters_are_cut_between_characters() {
    let long = "é".repeat(200);
    let title = truncate_title(&long);
    assert!(title.ends_with("..."));
    assert!(title.chars().count() <= MAX_TITLE_LEN + 3);
}

fn info(id: &str, secs: i64) -> SessionInfo {
    SessionInfo {
        session_id: id.to_string(),
        started_at: Timestamp { secs, nanos: 0 },
        updated_at: Timestamp { secs, nanos: 0 },
        project_dir: "/p".to_string(),
        title: "t".to_string(),
        parent_id: None,
    }
}

#[test]
fn sessions_are_listed_by_their_start() {
    let sorted = sort_sessions(vec![info("b", 2), info("a", 1), info("c", 2)]);
    let ids: Vec<&str> = sorted.iter().map(|s| s.session_id.as_str()).collect();
    assert_eq!(ids, vec!["a", "b", "c"]);
    let session = as_session(info("a", 1));
    assert_eq!(session.provider, Provider::Pi);
    assert_eq!(session.session_id, "a");
}

#[test]
fn broken_lines_are_passed_over() {
    let text = "{\"type\":\"session\",\"id\":\"x\",\"timestamp\":\"2026-04-30T09:36:43Z\",\"cwd\":\"/tmp\"}\nnot a document\n";
    let info = build_session_info(text).unwrap();
    assert_eq!(info.session_id, "x");
    assert_eq!(info.title, "");
    assert_eq!(info.updated_at, info.started_at);
}

#[test]
fn test_build_session_info_basic() {
    let file = unindented(r#"
        {"type":"session","version":3,"id":"019dddbf-6e66-7709-9a3b-b5a18736f890","timestamp":"2026-04-30T09:36:43.622Z","cwd":"/home/vaab/dev/doc"}
        {"type":"message","id":"abc","parentId":null,"timestamp":"2026-04-30T09:37:00.000Z","message":{"role":"user","content":[{"type":"text","text":"Hello world"}]}}
    "#);

    let info = build_session_info(&file).expect("header parses");
    assert_eq!(info.session_id, "019dddbf-6e66-7709-9a3b-b5a18736f890");
    assert_eq!(info.project_dir, "/home/vaab/dev/doc");
    assert_eq!(info.title, "Hello world");
    assert_eq!(info.parent_id, None);
    assert!(info.started_at.le(info.updated_at));
}

#[test]
fn test_build_session_info_rejects_non_pi_jsonl() {
    let file = r#"{"type":"summary","id":"foo"}"#.to_string();
    assert!(build_session_info(&file).is_none());
}

#[test]
fn test_is_uuid_v7() {
    assert!(is_uuid_v7("019dddbf-6e66-7709-9a3b-b5a18736f890"));
    assert!(!is_uuid_v7("550e8400-e29b-41d4-a716-446655440000")); // v4
    assert!(!is_uuid_v7("not-a-uuid"));
    assert!(!is_uuid_v7(""));
}

#[test]
fn test_truncate_title() {
    assert_eq!(truncate_title("short"), "short");
    let long = "a".repeat(200);
    let out = truncate_title(&long);
    assert!(out.len() <= MAX_TITLE_LEN + 3);
    assert!(out.ends_with("..."));
}

#[test]
fn test_extract_user_text_array() {
    let v = json(r#"[
        {"type": "text", "text": "first\nline"},
        {"type": "thinking", "thinking": "ignored"},
        {"type": "text", "text": "second"}
    ]"#);
    assert_eq!(extract_user_text(&v), "first line second");
}

#[test]
fn test_file_contains_text_user_message() {
    let file = unindented(r#"
        {"type":"session","version":3,"id":"x","timestamp":"2026-04-30T09:36:43Z","cwd":"/tmp"}
        {"type":"message","id":"a","timestamp":"2026-04-30T09:37:00Z","message":{"role":"user","content":[{"type":"text","text":"please refactor auth"}]}}
    "#);
    assert!(file_contains_text(&file, "refactor auth"));
    assert!(!file_contains_text(&file, "missing"));
}

#[test]
fn test_file_contains_text_tool_call_args() {
    let file = unindented(r#"
        {"type":"session","version":3,"id":"x","timestamp":"2026-04-30T09:36:43Z","cwd":"/tmp"}
        {"type":"message","id":"a","timestamp":"2026-04-30T09:37:00Z","message":{"role":"assistant","content":[{"type":"toolCall","name":"write","arguments":{"path":"/tmp/foo","content":"hi"}}]}}
    "#);
    assert!(file_contains_text(&file, "/tmp/foo"));
    assert!(file_contains_text(&file, "write"));
}

#[test]
fn test_file_contains_text_thinking_block() {
    let file = unindented(r#"
        {"type":"session","version":3,"id":"x","timestamp":"2026-04-30T09:36:43Z","cwd":"/tmp"}
        {"type":"message","id":"a","timestamp":"2026-04-30T09:37:00Z","message":{"role":"assistant","content":[{"type":"thinking","thinking":"deeply hidden phrase"}]}}
    "#);
    assert!(file_contains_text(&file, "deeply hidden phrase"));
}

#[test]
fn test_file_tail_contains_text_window() {
    let file = unindented(r#"
        {"type":"session","version":3,"id":"x","timestamp":"2026-04-30T09:36:43Z","cwd":"/tmp"}
        {"type":"message","id":"a","timestamp":"2026-04-30T09:37:00Z","message":{"role":"user","content":"old phrase here"}}
        {"type":"message","id":"b","timestamp":"2026-04-30T09:37:01Z","message":{"role":"user","content":"middle"}}
        {"type":"message","id":"c","timestamp":"2026-04-30T09:37:02Z","message":{"role":"user","content":"latest"}}
    "#);
    assert!(file_tail_contains_text(&file, "old phrase", 3));
    assert!(!file_tail_contains_text(&file, "old phrase", 1));
    assert!(file_tail_contains_text(&file, "latest", 1));
}

#[test]
fn test_file_edited_file_write_tool() {
    let file = unindented(r#"
        {"type":"session","version":3,"id":"x","timestamp":"2026-04-30T09:36:43Z","cwd":"/home/u/proj"}
        {"type":"message","id":"a","timestamp":"2026-04-30T09:37:00Z","message":{"role":"assistant","content":[{"type":"toolCall","name":"write","arguments":{"path":"/home/u/proj/src/main.rs","content":"fn main(){}"}}]}}
    "#);
    assert!(file_edited_file(&file, "/home/u/proj/src/main.rs"));
    assert!(!file_edited_file(&file, "/home/u/proj/src/lib.rs"));
}

#[test]
fn test_file_edited_file_relative_path() {
    let file = unindented(r#"
        {"type":"session","version":3,"id":"x","timestamp":"2026-04-30T09:36:43Z","cwd":"/home/u/proj"}
        {"type":"message","id":"a","timestamp":"2026-04-30T09:37:00Z","message":{"role":"assistant","content":[{"type":"toolCall","name":"edit","arguments":{"path":"src/main.rs"}}]}}
    "#);
    assert!(file_edited_file(&file, "/home/u/proj/src/main.rs"));
    assert!(!file_edited_file(&file, "/home/u/proj/src/lib.rs"));
}

#[test]
fn test_file_edited_file_ignores_read_tool() {
    let file = unindented(r#"
        {"type":"session","version":3,"id":"x","timestamp":"2026-04-30T09:36:43Z","cwd":"/home/u"}
        {"type":"message","id":"a","timestamp":"2026-04-30T09:37:00Z","message":{"role":"assistant","content":[{"type":"toolCall","name":"read","arguments":{"path":"/home/u/foo.rs"}}]}}
    "#);
    assert!(!file_edited_file(&file, "/home/u/foo.rs"));
}

#[test]
fn test_parse_messages_basic() {
    let jsonl = unindented(r#"
        {"type":"session","version":3,"id":"x","timestamp":"2026-04-30T09:36:43Z","cwd":"/tmp"}
        {"type":"model_change","id":"m","timestamp":"2026-04-30T09:36:44Z","provider":"openai-codex","modelId":"gpt-5.5"}
        {"type":"message","id":"u1","timestamp":"2026-04-30T09:37:00Z","message":{"role":"user","content":"hello"}}
        {"type":"message","id":"a1","timestamp":"2026-04-30T09:37:01Z","message":{"role":"assistant","modelID":"gpt-5.5","usage":{"input":100,"output":50,"cacheRead":10,"cacheWrite":20,"totalTokens":180},"content":[{"type":"text","text":"hi"}]}}
    "#);
    let msgs = parse_messages(&jsonl, "ses").unwrap();
    assert_eq!(msgs.len(), 2);
    assert_eq!(msgs[0].role, "user");
    assert!(msgs[0].tokens.is_none());
    assert_eq!(msgs[1].role, "assistant");
    assert_eq!(msgs[1].provider, Provider::Pi);
    assert_eq!(msgs[1].model.as_deref(), Some("gpt-5.5"));
    let toks = msgs[1].tokens.as_ref().unwrap();
    assert_eq!(toks.input, 100);
    assert_eq!(toks.output, 50);
    assert_eq!(toks.cache_read, 10);
    assert_eq!(toks.cache_write, 20);
}

#[test]
fn test_parse_messages_skips_tool_result_role() {
    let jsonl = unindented(r#"
        {"type":"session","version":3,"id":"x","timestamp":"2026-04-30T09:36:43Z","cwd":"/tmp"}
        {"type":"message","id":"tr","timestamp":"2026-04-30T09:37:00Z","message":{"role":"toolResult","toolCallId":"c","content":[{"type":"text","text":"output"}]}}
        {"type":"message","id":"u","timestamp":"2026-04-30T09:37:01Z","message":{"role":"user","content":"go"}}
    "#);
    let msgs = parse_messages(&jsonl, "ses").unwrap();
    assert_eq!(msgs.len(), 1);
    assert_eq!(msgs[0].role, "user");
}

#[test]
fn test_parse_messages_dedup_by_id() {
    // Same id appearing twice — second occurrence is dropped.
    let jsonl = unindented(r#"
        {"type":"session","version":3,"id":"x","timestamp":"2026-04-30T09:36:43Z","cwd":"/tmp"}
        {"type":"message","id":"u1","timestamp":"2026-04-30T09:37:00Z","message":{"role":"user","content":"hi"}}
        {"type":"message","id":"u1","timestamp":"2026-04-30T09:37:01Z","message":{"role":"user","content":"hi again"}}
    "#);
    let msgs = parse_messages(&jsonl, "ses").unwrap();
    assert_eq!(msgs.len(), 1);
}

#[test]
fn escapes_do_not_hide_what_a_message_says() {
    let text = unindented(
        r#"
        {"type":"session","id":"s","timestamp":"2026-04-30T09:36:00Z","cwd":"/p"}
        {"type":"message","id":"a","timestamp":"2026-04-30T09:37:00Z","message":{"role":"user","content":"say \"hi\" caf\u00e9"}}
        {"type":"message","id":"b","timestamp":"2026-04-30T09:38:00Z","message":{"role":"assistant","content":[{"type":"toolCall","name":"write","arguments":{"path":"\/p\/caf\u00e9.rs"}}]}}
        "#,
    );
    assert!(file_contains_text(&text, "\"hi\""));
    assert!(file_contains_text(&text, "café"));
    assert!(file_tail_contains_text(&text, "\"hi\"", 2));
    assert!(file_edited_file(&text, "/p/café.rs"));
    assert!(!file_edited_file(&text, "/p/cafe.rs"));
}

#[test]
fn messages_are_listed_in_chronological_order() {
    let text = unindented(
        r#"
        {"type":"session","id":"s","timestamp":"2026-04-30T09:36:00Z","cwd":"/p"}
        {"type":"message","id":"c","timestamp":"2026-04-30T09:39:00Z","message":{"role":"user","content":"third"}}
        {"type":"message","id":"a","timestamp":"2026-04-30T09:37:00Z","message":{"role":"user","content":"first"}}
        {"type":"message","id":"b","timestamp":"2026-04-30T09:37:00Z","message":{"role":"user","content":"second"}}
        "#,
    );
    let listed = ai_audit::pi::session::messages_by_time(&text, "s");
    let ids: Vec<&str> = listed.iter().map(|m| m.message_id.as_str()).collect();
    assert_eq!(ids, vec!["a", "b", "c"]);
}
