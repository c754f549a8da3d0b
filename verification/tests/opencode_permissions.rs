use ai_audit::json::{parse_json, Json};
use ai_audit::opencode::permission_log::{
    cache_key, log_decisions_cache_dir, parse_log_piece, parse_log_tail, request_reading, resume_reading, CachedLogState, LogFile,
    CACHE_SCHEMA_VERSION,
};
use ai_audit::opencode::permissions::{
    display_human, display_json, display_nul, find_permission_decision, parse_events, LogDecision,
    PermissionEvent, ToolCall, Window,
};
use ai_audit::time::Timestamp;
use ai_audit::transcript::{EntryType, Role, TranscriptEntry};
use std::cell::RefCell;

fn parse_rfc3339(text: &str) -> Option<Timestamp> {
    let t = chrono::DateTime::parse_from_rfc3339(text).ok()?;
    Some(Timestamp { secs: t.timestamp(), nanos: t.timestamp_subsec_nanos() })
}

const JOIN_TOLERANCE_MS: i64 = 5_000;

fn json(text: &str) -> Json {
    parse_json(text).unwrap()
}

fn ts(ms: i64) -> Timestamp {
    Timestamp { secs: ms / 1000, nanos: (ms % 1000) as u32 * 1_000_000 }
}

fn instant(text: &str) -> Timestamp {
    parse_rfc3339(text).unwrap()
}

fn window(from: &str, to: &str) -> Window {
    Window { from: Some(instant(from)), to: Some(instant(to)) }
}

fn extract_pattern(tool: &str, input: &Option<Json>) -> String {
    ai_audit::opencode::permissions::extract_pattern(tool, input.as_ref())
}

fn tool_call_window(calls: &[(Timestamp, String, String)]) -> (Timestamp, Timestamp) {
    let calls = calls
        .iter()
        .map(|(timestamp, tool, pattern)| ToolCall {
            timestamp: *timestamp,
            tool: tool.clone(),
            pattern: pattern.clone(),
        })
        .collect();
    let w = ai_audit::opencode::permissions::tool_call_window(&calls);
    (w.from.unwrap(), w.to.unwrap())
}

fn parse_log_file(log: &str) -> Option<Vec<LogDecision>> {
    Some(ai_audit::opencode::permission_log::parse_log_file(log))
}

fn parse_log_filename_ts(name: &str) -> Option<Timestamp> {
    ai_audit::opencode::permission_log::parse_log_filename_ts(name)
}

/// What was kept of the reading of one log file.
type Kept = RefCell<Option<CachedLogState>>;

fn state_of(state: &CachedLogState) -> CachedLogState {
    CachedLogState {
        schema_version: state.schema_version,
        decisions: state.decisions.iter().map(decision_of).collect(),
        last_offset: state.last_offset,
    }
}

fn decision_of(d: &LogDecision) -> LogDecision {
    LogDecision {
        timestamp: d.timestamp,
        permission: d.permission.clone(),
        pattern: d.pattern.clone(),
        action: d.action.clone(),
    }
}

fn read_cached_state(kept: &Kept) -> Option<CachedLogState> {
    kept.borrow().as_ref().map(state_of)
}

fn load_log_decisions_incremental(log: &str, kept: &Kept) -> Result<Vec<LogDecision>, String> {
    let before = read_cached_state(kept);
    ai_audit::opencode::permission_log::load_log_decisions_incremental(
        log.len() as u64,
        before,
        (),
        |_: (), from: u64| ((), Ok(log[from as usize..].to_string())),
        |_: (), state: &CachedLogState| {
            *kept.borrow_mut() = Some(state_of(state));
        },
    )
    .1
}

fn decision(at: &str, permission: &str, pattern: &str, action: &str) -> String {
    format!(
        "INFO {} service=permission permission={} pattern={} action={{\"action\":\"{}\"}} evaluated\n",
        at, permission, pattern, action
    )
}

#[test]
fn parse_log_file_picks_up_decision_line() {
    let mut log = "INFO 2026-05-30T00:00:01 some unrelated line\n".to_string();
    log.push_str(&decision("2026-05-30T00:00:02", "bash", "ls -la", "allow"));
    log.push_str("INFO 2026-05-30T00:00:03 another unrelated line\n");

    let decisions = parse_log_file(&log).unwrap();
    assert_eq!(decisions.len(), 1);
    assert_eq!(decisions[0].permission, "bash");
    assert_eq!(decisions[0].pattern, "ls -la");
    assert_eq!(decisions[0].action, "allow");
    assert_eq!(decisions[0].timestamp, instant("2026-05-30T00:00:02Z"));
}

#[test]
fn parse_log_file_ignores_non_permission_lines_fast() {
    let log = "INFO 2026-05-30T00:00:01 totally unrelated\n".repeat(100);
    let decisions = parse_log_file(&log).unwrap();
    assert!(decisions.is_empty());
}

#[test]
fn parse_log_filename_ts_accepts_canonical_form() {
    let parsed = parse_log_filename_ts("2026-05-30T013220.log").unwrap();
    assert_eq!(parsed, instant("2026-05-30T01:32:20Z"));
}

#[test]
fn parse_log_filename_ts_rejects_garbage() {
    assert!(parse_log_filename_ts("garbage.log").is_none());
}

#[test]
fn select_log_files_skips_outside_window() {
    // Both files were changed in the window, so only their names tell them apart.
    let modified = Some(instant("2026-05-30T12:30:00Z").secs);
    let files = vec![
        LogFile { name: "2026-05-30T120000.log".to_string(), modified },
        LogFile { name: "2027-01-01T000000.log".to_string(), modified },
    ];
    let w = window("2026-05-30T11:00:00Z", "2026-05-30T13:00:00Z");

    let names = ai_audit::opencode::permission_log::select_log_files(files, w);
    assert!(names.contains(&"2026-05-30T120000.log".to_string()));
    assert!(!names.contains(&"2027-01-01T000000.log".to_string()));
}

#[test]
fn cache_state_round_trip_preserves_data() {
    let state = CachedLogState {
        schema_version: CACHE_SCHEMA_VERSION,
        decisions: vec![LogDecision {
            timestamp: ts(1_000_000),
            permission: "bash".to_string(),
            pattern: "ls".to_string(),
            action: "allow".to_string(),
        }],
        last_offset: 4242,
    };
    let (decisions, last_offset) = resume_reading(Some(state), 5000);
    assert_eq!(last_offset, 4242);
    assert_eq!(decisions.len(), 1);
    assert_eq!(decisions[0].permission, "bash");
}

#[test]
fn cache_state_schema_mismatch_returns_none() {
    let state = CachedLogState { schema_version: 99, decisions: Vec::new(), last_offset: 10 };
    let (decisions, last_offset) = resume_reading(Some(state), 5000);
    assert!(decisions.is_empty());
    assert_eq!(last_offset, 0);
}

#[test]
fn incremental_cache_cold_parses_full_file() {
    let cache: Kept = RefCell::new(None);
    let mut log = decision("2026-05-30T00:00:01", "bash", "ls", "allow");
    log.push_str(&decision("2026-05-30T00:00:02", "bash", "pwd", "deny"));

    let decisions = load_log_decisions_incremental(&log, &cache).unwrap();
    assert_eq!(decisions.len(), 2);
    assert_eq!(decisions[0].pattern, "ls");
    assert_eq!(decisions[1].pattern, "pwd");

    // The reading was kept, with the whole length of the file.
    let state = read_cached_state(&cache).unwrap();
    assert_eq!(state.last_offset, log.len() as u64);
    assert_eq!(state.decisions.len(), 2);
}

#[test]
fn incremental_cache_warm_parses_only_appended_tail() {
    let cache: Kept = RefCell::new(None);
    let mut log = decision("2026-05-30T00:00:01", "bash", "ls", "allow");
    let first = load_log_decisions_incremental(&log, &cache).unwrap();
    assert_eq!(first.len(), 1);
    let first_offset = read_cached_state(&cache).unwrap().last_offset;

    log.push_str(&decision("2026-05-30T00:00:02", "read", "/tmp/x", "ask"));

    let second = load_log_decisions_incremental(&log, &cache).unwrap();
    assert_eq!(second.len(), 2);
    assert_eq!(second[0].pattern, "ls");
    assert_eq!(second[1].pattern, "/tmp/x");
    let second_offset = read_cached_state(&cache).unwrap().last_offset;
    assert!(second_offset > first_offset, "offset should advance after tail parse");
}

#[test]
fn incremental_cache_handles_partial_trailing_line() {
    let cache: Kept = RefCell::new(None);
    // A line that is still being written.
    let first_line = decision("2026-05-30T00:00:01", "bash", "ls", "allow");
    let mut log = first_line.clone();
    log.push_str("INFO 2026-05-30T00:00:02 service=permission permission=read pattern=/tmp/y action={\"action\":\"ask\"} eval");

    let decisions = load_log_decisions_incremental(&log, &cache).unwrap();
    assert_eq!(decisions.len(), 1);

    // The kept position is the end of the first line.
    let state = read_cached_state(&cache).unwrap();
    assert_eq!(state.last_offset, first_line.len() as u64);

    log.push_str("uated\n");
    log.push_str(&decision("2026-05-30T00:00:03", "bash", "pwd", "deny"));

    let decisions = load_log_decisions_incremental(&log, &cache).unwrap();
    assert_eq!(decisions.len(), 3);
    assert_eq!(decisions[1].pattern, "/tmp/y");
    assert_eq!(decisions[2].pattern, "pwd");
}

#[test]
fn incremental_cache_detects_truncation_and_reparses() {
    let cache: Kept = RefCell::new(None);
    let mut log = decision("2026-05-30T00:00:01", "bash", "ls", "allow");
    log.push_str(&decision("2026-05-30T00:00:02", "bash", "pwd", "deny"));
    let initial = load_log_decisions_incremental(&log, &cache).unwrap();
    assert_eq!(initial.len(), 2);

    let log = decision("2026-05-30T00:01:00", "read", "/etc/x", "allow");
    let after = load_log_decisions_incremental(&log, &cache).unwrap();
    assert_eq!(after.len(), 1);
    assert_eq!(after[0].pattern, "/etc/x");
}

#[test]
fn load_log_decisions_cached_filters_to_window() {
    let mut log = decision("2026-05-30T00:00:02", "bash", "ls", "allow");
    log.push_str(&decision("2026-05-30T00:10:00", "bash", "pwd", "deny"));
    let files = vec![LogFile {
        name: "2026-05-30T000000.log".to_string(),
        modified: Some(instant("2026-05-30T00:10:00Z").secs),
    }];

    let decisions = ai_audit::opencode::permission_log::load_log_decisions_cached(
        Some(files),
        window("2026-05-30T00:00:00Z", "2026-05-30T00:00:05Z"),
        |_: &String| ai_audit::opencode::permission_log::parse_log_file(&log),
    );
    assert_eq!(decisions.len(), 1);
    assert_eq!(decisions[0].pattern, "ls");
}

#[test]
fn a_missing_log_directory_holds_no_decisions() {
    let decisions = ai_audit::opencode::permission_log::load_log_decisions_cached(
        None,
        Window { from: None, to: None },
        |_: &String| Vec::new(),
    );
    assert!(decisions.is_empty());
}

#[test]
fn files_that_ended_before_the_window_are_skipped() {
    let w = window("2026-05-30T11:00:00Z", "2026-05-30T13:00:00Z");
    let file = |modified: Option<i64>| LogFile { name: "2026-05-30T090000.log".to_string(), modified };
    let select = ai_audit::opencode::permission_log::select_log_files;
    let from = instant("2026-05-30T11:00:00Z").secs;
    assert!(select(vec![file(Some(from - 3601))], w).is_empty());
    assert_eq!(select(vec![file(Some(from))], w).len(), 1);
    assert_eq!(select(vec![file(None)], w).len(), 1);
    let other = LogFile { name: "2026-05-30T110000.txt".to_string(), modified: None };
    assert!(select(vec![other], w).is_empty());
}

#[test]
fn a_tail_counts_complete_lines_only() {
    let whole = decision("2026-05-30T00:00:01", "bash", "ls", "allow");
    let end = whole.len() as u64;
    let (decisions, offset, more) = parse_log_piece(&whole, 100, 100 + end).unwrap();
    assert_eq!(decisions.len(), 1);
    assert_eq!(offset, 100 + end);
    assert!(!more);
    assert!(parse_log_piece(&whole, 100, 101 + end).unwrap().2);
    let half = &whole[..whole.len() - 1];
    let (decisions, offset, more) = parse_log_piece(half, 100, 99 + end).unwrap();
    assert!(decisions.is_empty());
    assert_eq!(offset, 100);
    assert!(!more);
    assert!(parse_log_piece(&whole, u64::MAX, u64::MAX).is_none());
}

#[test]
fn a_log_read_line_by_line_reads_like_the_whole() {
    let mut log = String::new();
    for minute in 0..5 {
        log.push_str("INFO something else é\n");
        let at = format!("2026-05-30T00:0{}:00", minute);
        log.push_str(&decision(&at, "bash", "ls", "allow"));
    }
    log.push_str("INFO not yet whole");
    let end = log.len() as u64;
    let at_once =
        |calls: u32, from: u64| (calls + 1, Ok(log[from as usize..].to_string()));
    let by_line = |calls: u32, from: u64| {
        let rest = &log[from as usize..];
        let len = rest.find('\n').map(|i| i + 1).unwrap_or(rest.len());
        (calls + 1, Ok(rest[..len].to_string()))
    };
    let (few, whole) = parse_log_tail(0, end, 0, at_once);
    let (many, lines) = parse_log_tail(0, end, 0, by_line);
    let (whole, lines) = (whole.unwrap(), lines.unwrap());
    assert_eq!((few, many), (2, 11));
    assert_eq!((whole.0.len(), whole.1), (5, end - 18));
    assert_eq!((lines.0.len(), lines.1), (5, end - 18));
    for (a, b) in whole.0.iter().zip(&lines.0) {
        assert_eq!(a.timestamp, b.timestamp);
    }
}

#[test]
fn reading_failures_are_passed_on() {
    let r = ai_audit::opencode::permission_log::load_log_decisions_incremental(
        10,
        None,
        (),
        |_: (), _: u64| ((), Err("gone".to_string())),
        |_: (), _: &CachedLogState| {},
    );
    assert!(r.1.is_err());
}

#[test]
fn nothing_is_read_or_kept_where_nothing_is_new() {
    let kept = || CachedLogState {
        schema_version: CACHE_SCHEMA_VERSION,
        decisions: Vec::new(),
        last_offset: 10,
    };
    assert_eq!(request_reading(&Some(kept()), 10), None);
    assert_eq!(request_reading(&Some(kept()), 12), Some(10));
    assert_eq!(request_reading(&Some(kept()), 4), Some(0));
    let (calls, r) = ai_audit::opencode::permission_log::load_log_decisions_incremental(
        10,
        Some(kept()),
        0,
        |calls: u32, _: u64| (calls + 1, Ok(String::new())),
        |calls: u32, _: &CachedLogState| calls + 1,
    );
    assert_eq!(calls, 0);
    assert!(r.unwrap().is_empty());
}

#[test]
fn cache_keys_are_digests_of_paths() {
    // The published digest of the empty text begins so.
    assert_eq!(
        cache_key(""),
        "af1349b9f5f9a1a6.json"
    );
    assert_ne!(cache_key("/a.log"), cache_key("/b.log"));
    assert_eq!(
        log_decisions_cache_dir(Some("/home/u/.cache")),
        Ok("/home/u/.cache/ai-audit/opencode/log-decisions".to_string())
    );
    assert!(log_decisions_cache_dir(None).is_err());
}

fn call_entry(ms: i64, tool: &str, input: &str) -> TranscriptEntry {
    TranscriptEntry {
        timestamp: ts(ms),
        role: Role::Assistant,
        entry_type: EntryType::ToolUse,
        content: String::new(),
        tool_name: Some(tool.to_string()),
        tool_input: parse_json(input),
    }
}

#[test]
fn events_join_calls_and_decisions() {
    let transcript = vec![
        call_entry(20_000, "bash", r#"{"command":"pwd"}"#),
        call_entry(10_000, "bash", r#"{"command":"ls"}"#),
    ];
    let events = parse_events(Some(transcript), |w: Window| {
        assert_eq!(w.from, Some(ts(5_000)));
        assert_eq!(w.to, Some(ts(25_000)));
        Ok(vec![LogDecision {
            timestamp: ts(11_000),
            permission: "bash".to_string(),
            pattern: "ls".to_string(),
            action: "deny".to_string(),
        }])
    })
    .unwrap();
    let shown: Vec<(&str, &str)> =
        events.iter().map(|e| (e.pattern.as_str(), e.action.as_str())).collect();
    assert_eq!(shown, vec![("ls", "deny"), ("pwd", "unknown")]);
}

#[test]
fn no_calls_need_no_log() {
    let loaded = RefCell::new(false);
    let events = parse_events(Some(Vec::new()), |_: Window| {
        *loaded.borrow_mut() = true;
        Ok(Vec::new())
    });
    assert!(events.unwrap().is_empty());
    assert!(!*loaded.borrow());
    assert!(parse_events(None, |_: Window| Ok(Vec::new())).unwrap().is_empty());
}

fn event() -> PermissionEvent {
    PermissionEvent {
        timestamp: ts(1705314600000),
        tool: "bash".to_string(),
        pattern: "ls -la".to_string(),
        action: "allow".to_string(),
    }
}

#[test]
fn events_are_shown_in_three_forms() {
    assert_eq!(
        display_human(&event()),
        format!("{:<24} {:<8} {:<12} {}", "2024-01-15 10:30:00", "ALLOW", "bash", "ls -la")
    );
    assert_eq!(
        display_json("1705314600", &event()),
        r#"{"timestamp":1705314600,"tool":"bash","pattern":"ls -la","action":"allow"}"#
    );
    assert_eq!(display_nul("1705314600", &event()), "1705314600\tbash\tls -la\tallow\0");
}

#[test]
fn long_patterns_are_cut_and_quotes_escaped() {
    let mut e = event();
    e.pattern = "x".repeat(61);
    assert!(display_human(&e).ends_with(&format!(" {}...", "x".repeat(57))));
    e.pattern = "echo \"a\\b\"".to_string();
    let document = json(&display_json("1", &e));
    assert_eq!(document.get_str("pattern"), Some("echo \"a\\b\""));
}

#[test]
fn the_first_of_two_decisions_counts() {
    let decide = |action: &str| LogDecision {
        timestamp: ts(1_000_000),
        permission: "bash".to_string(),
        pattern: "ls".to_string(),
        action: action.to_string(),
    };
    let both = vec![decide("deny"), decide("allow")];
    let action = find_permission_decision(&both, "bash", "ls", ts(1_000_000));
    assert_eq!(action.as_deref(), Some("deny"));
}

#[test]
fn extract_pattern_bash_uses_command_field() {
    let input = json(r#"{"command": "ls -la"}"#);
    assert_eq!(extract_pattern("bash", &Some(input)), "ls -la");
}

#[test]
fn extract_pattern_read_prefers_camelcase_file_path() {
    let input = json(r#"{"filePath": "/a/b.rs", "file_path": "/wrong.rs"}"#);
    assert_eq!(extract_pattern("read", &Some(input)), "/a/b.rs");
}

#[test]
fn extract_pattern_read_falls_back_to_snake_case() {
    let input = json(r#"{"file_path": "/legacy.rs"}"#);
    assert_eq!(extract_pattern("read", &Some(input)), "/legacy.rs");
}

#[test]
fn extract_pattern_unknown_tool_serializes_input() {
    let input = json(r#"{"foo": 1}"#);
    let p = extract_pattern("mystery", &Some(input));
    assert!(p.contains("\"foo\":1"));
}

#[test]
fn extract_pattern_none_input_returns_empty() {
    assert_eq!(extract_pattern("bash", &None), "");
}

#[test]
fn tool_call_window_pads_by_tolerance() {
    let calls = vec![
        (ts(10_000), "bash".to_string(), "ls".to_string()),
        (ts(20_000), "bash".to_string(), "pwd".to_string()),
    ];
    let (lo, hi) = tool_call_window(&calls);
    assert_eq!(lo, ts(10_000 - JOIN_TOLERANCE_MS));
    assert_eq!(hi, ts(20_000 + JOIN_TOLERANCE_MS));
}

#[test]
fn tool_call_window_single_call() {
    let calls = vec![(ts(5_000), "bash".to_string(), "ls".to_string())];
    let (lo, hi) = tool_call_window(&calls);
    assert_eq!(lo, ts(5_000 - JOIN_TOLERANCE_MS));
    assert_eq!(hi, ts(5_000 + JOIN_TOLERANCE_MS));
}

#[test]
fn find_permission_decision_matches_exact() {
    let d = vec![LogDecision {
        timestamp: ts(1_000_000),
        permission: "bash".to_string(),
        pattern: "ls -la".to_string(),
        action: "allow".to_string(),
    }];
    let action = find_permission_decision(&d, "bash", "ls -la", ts(1_000_000));
    assert_eq!(action.as_deref(), Some("allow"));
}

#[test]
fn find_permission_decision_respects_tolerance() {
    let d = vec![LogDecision {
        timestamp: ts(1_000_000),
        permission: "bash".to_string(),
        pattern: "ls".to_string(),
        action: "allow".to_string(),
    }];
    // 10 seconds away → outside the 5 s window
    let action = find_permission_decision(&d, "bash", "ls", ts(11_000_000));
    assert_eq!(action, None);
}

#[test]
fn find_permission_decision_prefix_match_either_direction() {
    let d = vec![LogDecision {
        timestamp: ts(1_000_000),
        permission: "bash".to_string(),
        pattern: "ls -la /tmp".to_string(),
        action: "allow".to_string(),
    }];
    // Tool pattern is a prefix of the log pattern → matches.
    let action = find_permission_decision(&d, "bash", "ls", ts(1_000_000));
    assert_eq!(action.as_deref(), Some("allow"));
}
