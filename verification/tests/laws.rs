use ai_audit::json::parse_json;
use ai_audit::opencode::db::inject_id;
use ai_audit::opencode::enrich::{extract_live, extract_static};
use ai_audit::opencode::latency::message_part_latencies;
use ai_audit::opencode::server_client::LiveStatus;
use ai_audit::opencode::status::StaticStatus;
use ai_audit::pi::transcript::parse_transcript_from_file;
use ai_audit::provider::{detect_provider, Provider, Session};
use ai_audit::session_detect::ansi::{ansi_segments, longest_ansi_segment, strip_ansi};
use ai_audit::session_detect::filters::build_filters;
use ai_audit::session_detect::messages::parse_pane_messages;
use ai_audit::session_filter::EnrichedSession;
use ai_audit::session_index::{
    drop_sessions, overlay_sessions, stale_sessions, CachedHarnessIndex, CachedSession,
};
use ai_audit::time::Timestamp;
use ai_audit::transcript::{sort_by_time, EntryType, Role, TranscriptEntry};

fn distinct(names: &[&str]) -> bool {
    (0..names.len()).all(|i| (0..i).all(|j| names[i] != names[j]))
}

#[test]
fn names_are_distinct() {
    let providers = [Provider::ClaudeCode, Provider::OpenCode, Provider::Pi];
    assert!(distinct(&providers.map(|p| p.as_str())));
    let live: Vec<&str> = LiveStatus::all().iter().map(|s| s.as_str()).collect();
    assert!(distinct(&live));
    let resting: Vec<&str> = StaticStatus::all().iter().map(|s| s.as_str()).collect();
    assert!(distinct(&resting));
    assert_eq!(resting.len(), 5);
    let kinds = [
        EntryType::Text,
        EntryType::ToolUse,
        EntryType::ToolResult,
        EntryType::Thinking,
        EntryType::Error,
    ];
    assert!(distinct(&kinds.map(|k| k.as_str())));
    assert_eq!(Role::System.as_str(), "system");
}

#[test]
fn names_are_read_back() {
    for status in StaticStatus::all() {
        assert_eq!(StaticStatus::parse(status.as_str()), Ok(status));
    }
    for status in LiveStatus::all() {
        assert_eq!(LiveStatus::parse(status.as_str()), Ok(status));
    }
    assert!(StaticStatus::parse("running").is_err());
    assert!(LiveStatus::parse("completed").is_err());
}

#[test]
fn all_but_completed_sessions_can_be_resumed() {
    let resumable: Vec<StaticStatus> =
        StaticStatus::all().into_iter().filter(|s| s.is_resumable()).collect();
    assert_eq!(resumable, StaticStatus::resumable_set());
    assert!(!StaticStatus::Completed.is_resumable());
}

#[test]
fn identifiers_tell_the_provider() {
    assert_eq!(detect_provider("ses_abc"), Provider::OpenCode);
    assert_eq!(detect_provider("550e8400-e29b-41d4-a716-446655440000"), Provider::ClaudeCode);
}

#[test]
fn messages_get_an_identifier_once() {
    let named = inject_id(parse_json(r#"{"role":"user"}"#).unwrap(), "msg_1");
    assert_eq!(named.get_str("id"), Some("msg_1"));
    let again = inject_id(named, "msg_2");
    assert_eq!(again.get_str("id"), Some("msg_1"));
    assert_eq!(inject_id(parse_json("null").unwrap(), "msg_3").get_str("id"), Some("msg_3"));
}

#[test]
fn of_two_answers_at_one_time_the_last_counts() {
    let answer = || parse_json(r#"{"role":"assistant","time":{"created":2000}}"#).unwrap();
    let part = |end: i64| {
        vec![parse_json(&format!(r#"{{"type":"text","time":{{"start":0,"end":{}}}}}"#, end)).unwrap()]
    };
    let listed = message_part_latencies(&vec![answer(), answer()], &vec![part(10), part(30)]);
    assert_eq!(listed.len(), 1);
    assert_eq!(listed[0].1.generation_ms, Some(30));
}

#[test]
fn reading_more_of_a_session_adds_entries() {
    let lines: Vec<String> = [
        r#"{"type":"session","id":"x","timestamp":"2026-04-30T09:36:43Z"}"#,
        r#"{"type":"message","timestamp":"2026-04-30T09:37:00Z","message":{"role":"user","content":"a"}}"#,
        r#"{"type":"message","timestamp":"2026-04-30T09:37:01Z","message":{"role":"user","content":"b"}}"#,
    ]
    .iter()
    .map(|l| l.to_string())
    .collect();
    let contents = |n: usize| {
        let entries = parse_transcript_from_file(&lines[..n].to_vec());
        entries.iter().map(|e| e.content.clone()).collect::<Vec<String>>()
    };
    assert_eq!(contents(2), vec!["a"]);
    assert_eq!(contents(3), vec!["a", "b"]);
}

fn entry(secs: i64, content: &str) -> TranscriptEntry {
    TranscriptEntry {
        timestamp: Timestamp { secs, nanos: 0 },
        role: Role::User,
        entry_type: EntryType::Text,
        content: content.to_string(),
        tool_name: None,
        tool_input: None,
    }
}

#[test]
fn entries_are_put_in_time_order_without_mixing_equals() {
    let sorted = sort_by_time(vec![entry(2, "c"), entry(1, "a"), entry(2, "d"), entry(1, "b")]);
    let contents: Vec<&str> = sorted.iter().map(|e| e.content.as_str()).collect();
    assert_eq!(contents, vec!["a", "b", "c", "d"]);
}

fn session(id: &str, cwds: &[&str]) -> CachedSession {
    CachedSession {
        id: id.to_string(),
        path: Some(format!("/{}", id)),
        is_child: false,
        mtime_ns: 0,
        cwds: cwds.iter().map(|c| c.to_string()).collect(),
    }
}

fn index(sessions: Vec<CachedSession>) -> CachedHarnessIndex {
    let mut index = CachedHarnessIndex::empty();
    overlay_sessions(&mut index, sessions);
    index.rebuild_by_path();
    index
}

#[test]
fn directories_are_kept_in_order_and_once() {
    let mut s = session("a", &["/b"]);
    assert!(s.add_cwd("/c".to_string()));
    assert!(s.add_cwd("/a".to_string()));
    assert!(!s.add_cwd("/b".to_string()));
    assert_eq!(s.cwds, vec!["/a", "/b", "/c"]);
}

#[test]
fn removal_leaves_what_grouping_anew_would_give() {
    let mut removed = index(vec![session("a", &["/x"]), session("b", &["/x", "/y"])]);
    removed.remove_session("b");
    let mut anew = index(vec![session("a", &["/x"])]);
    anew.rebuild_by_path();
    assert_eq!(removed.by_path.get("/x"), anew.by_path.get("/x"));
    assert_eq!(removed.by_path.get("/x"), Some(&vec!["a".to_string()]));
    assert!(removed.by_path.get("/y").is_none());
}

#[test]
fn sessions_that_were_not_met_are_dropped_and_no_others() {
    let mut known = index(vec![session("a", &["/x"]), session("b", &["/y"])]);
    let met = vec!["a".to_string()];
    let stale = stale_sessions(&known, &met);
    assert_eq!(stale, vec!["b".to_string()]);
    drop_sessions(&mut known, &stale);
    assert!(known.sessions_by_id.get("a").is_some());
    assert!(known.sessions_by_id.get("b").is_none());
}

#[test]
fn segments_make_up_the_text_without_colours() {
    let coloured = "\u{1b}[31mred\u{1b}[0m and \u{1b}[1mbold text\u{1b}[0m";
    assert_eq!(ansi_segments(coloured).concat(), strip_ansi(coloured));
    assert_eq!(strip_ansi(coloured), "red and bold text");
    assert_eq!(longest_ansi_segment(coloured).as_deref(), Some("bold text"));
}

#[test]
fn an_empty_screen_gives_no_filters() {
    assert!(parse_pane_messages("").is_empty());
    assert!(build_filters(&Vec::new()).is_empty());
}

#[test]
fn sessions_without_records_are_not_extended() {
    let bare = EnrichedSession {
        base: Session {
            session_id: "ses_1".to_string(),
            provider: Provider::OpenCode,
            started_at: Timestamp { secs: 0, nanos: 0 },
            updated_at: Timestamp { secs: 0, nanos: 0 },
            project_dir: String::new(),
            title: String::new(),
            parent_id: None,
        },
        last_message_ts: None,
        static_ext: None,
        live_ext: None,
    };
    assert!(extract_static(&bare).is_none());
    assert!(extract_live(&bare).is_none());
}
