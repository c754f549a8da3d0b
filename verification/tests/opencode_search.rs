use ai_audit::opencode::parts::{message_files_to_search, raw_part_contains, raw_part_edits};
use ai_audit::opencode::sessions::{
    merge_sessions, session_contains_text, session_edited_file, session_tail_contains_text,
    SessionInfo,
};
use ai_audit::time::Timestamp;
use std::cell::RefCell;

/// The message files of sessions: session, message, texts of the part files.
struct Storage {
    messages: RefCell<Vec<(String, String, Vec<String>)>>,
}

fn no_files() -> Storage {
    Storage { messages: RefCell::new(Vec::new()) }
}

fn create_raw_part(storage: &Storage, session_id: &str, msg_id: &str, _part_id: &str, json: &str) {
    let mut messages = storage.messages.borrow_mut();
    if let Some(m) = messages.iter_mut().find(|m| m.0 == session_id && m.1 == msg_id) {
        m.2.push(json.to_string());
        return;
    }
    messages.push((session_id.to_string(), msg_id.to_string(), vec![json.to_string()]));
}

fn create_session_with_messages(
    storage: &Storage,
    session_id: &str,
    messages: &[(&str, &[(&str, &str)])],
) {
    for (msg_id, parts) in messages {
        for (part_id, text) in *parts {
            let part_json = format!(
                r#"{{"id":"{}","sessionID":"{}","messageID":"{}","type":"text","text":"{}"}}"#,
                part_id, session_id, msg_id, text
            );
            create_raw_part(storage, session_id, msg_id, part_id, &part_json);
        }
    }
}

/// The part files of the last messages of a session, newest message first.
fn raw_parts(storage: &Storage, session_id: &str, last_n: Option<usize>) -> Vec<String> {
    let messages = storage.messages.borrow();
    let names = messages
        .iter()
        .filter(|m| m.0 == session_id)
        .map(|m| format!("{}.json", m.1))
        .collect();
    let mut raws = Vec::new();
    for name in message_files_to_search(names, last_n) {
        for m in messages.iter().filter(|m| m.0 == session_id && format!("{}.json", m.1) == name) {
            raws.extend(m.2.iter().cloned());
        }
    }
    raws
}

fn session_contains_text_in_dirs(storage: &Storage, session_id: &str, needle: &str) -> bool {
    session_contains_text(&raw_parts(storage, session_id, None), &Vec::new(), needle)
}

fn session_contains_text_in_dirs_tail(
    storage: &Storage,
    session_id: &str,
    needle: &str,
    last_n: Option<usize>,
) -> bool {
    session_tail_contains_text(&raw_parts(storage, session_id, last_n), &Vec::new(), needle)
}

fn session_edited_file_in_dirs(storage: &Storage, session_id: &str, target: &str) -> bool {
    session_edited_file(&raw_parts(storage, session_id, None), &Vec::new(), target)
}

fn at_millis(ms: i64) -> Timestamp {
    Timestamp { secs: ms / 1000, nanos: (ms % 1000) as u32 * 1_000_000 }
}

#[test]
fn newest_message_files_come_first() {
    let names = || vec!["msg_1.json".to_string(), "msg_3.json".to_string(), "msg_2.json".to_string()];
    assert_eq!(
        message_files_to_search(names(), Some(2)),
        vec!["msg_3.json".to_string(), "msg_2.json".to_string()]
    );
    assert_eq!(message_files_to_search(names(), None).len(), 3);
    assert!(message_files_to_search(names(), Some(0)).is_empty());
}

#[test]
fn unreadable_part_files_hold_nothing() {
    assert!(!raw_part_contains("needle in no document", "needle"));
    assert!(!raw_part_edits("/src/main.rs", "/src/main.rs"));
    assert!(raw_part_contains(r#"{"type":"text","text":"a needle"}"#, "needle"));
    assert!(!raw_part_contains(r#"{"type":"file","filename":"needle"}"#, "needle"));
}

#[test]
fn test_session_contains_text_match() {
    let storage = no_files();
    create_session_with_messages(
        &storage,
        "ses_abc",
        &[("msg_1", &[("prt_1", "Hello world")])],
    );

    let session = "ses_abc";

    assert!(session_contains_text_in_dirs(
        &storage, session,
        "Hello"
    ));
    assert!(session_contains_text_in_dirs(
        &storage, session,
        "world"
    ));
    assert!(!session_contains_text_in_dirs(
        &storage, session,
        "WORLD"
    ));
    assert!(!session_contains_text_in_dirs(
        &storage, session,
        "goodbye"
    ));
}

#[test]
fn test_session_contains_text_multiple_messages() {
    let storage = no_files();
    create_session_with_messages(
        &storage,
        "ses_abc",
        &[
            ("msg_1", &[("prt_1", "first message")]),
            ("msg_2", &[("prt_2", "second with target")]),
        ],
    );

    let session = "ses_abc";

    assert!(session_contains_text_in_dirs(
        &storage, session,
        "target"
    ));
    assert!(session_contains_text_in_dirs(
        &storage, session,
        "first"
    ));
}

#[test]
fn test_session_contains_text_no_match() {
    let storage = no_files();
    create_session_with_messages(
        &storage,
        "ses_abc",
        &[("msg_1", &[("prt_1", "some content")])],
    );

    let session = "ses_abc";

    assert!(!session_contains_text_in_dirs(
        &storage, session,
        "absent"
    ));
}

#[test]
fn mod_test_session_contains_text_empty_session() {
    let storage = no_files();
    let session = "ses_abc";
    
    assert!(!session_contains_text_in_dirs(
        &storage, session,
        "anything"
    ));
}

#[test]
fn test_session_contains_text_nonexistent_dir() {
    let storage = no_files();
    let session = "ses_missing";

    assert!(!session_contains_text_in_dirs(
        &storage, session,
        "anything"
    ));
}

#[test]
fn test_session_tail_contains_text_matches_recent_only() {
    let storage = no_files();
    // Create 5 messages, put the target in msg_3 (not in last 2)
    create_session_with_messages(
        &storage,
        "ses_tail",
        &[
            ("msg_1", &[("prt_1", "old message")]),
            ("msg_2", &[("prt_2", "another old")]),
            ("msg_3", &[("prt_3", "unique target phrase")]),
            ("msg_4", &[("prt_4", "recent message")]),
            ("msg_5", &[("prt_5", "latest message")]),
        ],
    );

    let session = "ses_tail";

    // Searching last 2 should NOT find "unique target phrase" (it's in msg_3)
    assert!(!session_contains_text_in_dirs_tail(
        &storage, session,
        "unique target phrase",
        Some(2)
    ));

    // Searching last 3 SHOULD find it (msg_3 is 3rd from end)
    assert!(session_contains_text_in_dirs_tail(
        &storage, session,
        "unique target phrase",
        Some(3)
    ));

    // Searching all messages should also find it
    assert!(session_contains_text_in_dirs_tail(
        &storage, session,
        "unique target phrase",
        None
    ));

    // Searching last 2 should find "latest message"
    assert!(session_contains_text_in_dirs_tail(
        &storage, session,
        "latest message",
        Some(2)
    ));
}

#[test]
fn test_session_tail_contains_text_no_match() {
    let storage = no_files();
    create_session_with_messages(
        &storage,
        "ses_tail2",
        &[
            ("msg_1", &[("prt_1", "first")]),
            ("msg_2", &[("prt_2", "second")]),
        ],
    );

    let session = "ses_tail2";

    assert!(!session_contains_text_in_dirs_tail(
        &storage, session,
        "absent",
        Some(5)
    ));
}

#[test]
fn test_session_tail_contains_text_empty_session() {
    let storage = no_files();
    let session = "ses_empty";
    
    assert!(!session_contains_text_in_dirs_tail(
        &storage, session,
        "anything",
        Some(3)
    ));
}

#[test]
fn test_session_search_finds_tool_name() {
    let storage = no_files();
    create_raw_part(
        &storage,
        "ses_abc",
        "msg_1",
        "prt_1",
        r#"{"id":"prt_1","type":"tool","tool":"bash","state":{"status":"completed","input":{"command":"ls -la"}}}"#,
    );

    let session = "ses_abc";

    assert!(session_contains_text_in_dirs(
        &storage, session,
        "bash"
    ));
    assert!(!session_contains_text_in_dirs(
        &storage, session,
        "grep"
    ));
}

#[test]
fn test_session_search_finds_tool_input() {
    let storage = no_files();
    create_raw_part(
        &storage,
        "ses_abc",
        "msg_1",
        "prt_1",
        r#"{"id":"prt_1","type":"tool","tool":"bash","state":{"status":"completed","input":{"command":"cargo test --release"}}}"#,
    );

    let session = "ses_abc";

    assert!(session_contains_text_in_dirs(
        &storage, session,
        "cargo test"
    ));
    assert!(session_contains_text_in_dirs(
        &storage, session,
        "--release"
    ));
    assert!(!session_contains_text_in_dirs(
        &storage, session,
        "npm install"
    ));
}

#[test]
fn test_session_search_finds_tool_output() {
    let storage = no_files();
    create_raw_part(
        &storage,
        "ses_abc",
        "msg_1",
        "prt_1",
        r#"{"id":"prt_1","type":"tool","tool":"bash","state":{"status":"completed","input":{"command":"echo hello"},"output":"hello world output"}}"#,
    );

    let session = "ses_abc";

    assert!(session_contains_text_in_dirs(
        &storage, session,
        "hello world output"
    ));
}

#[test]
fn test_merge_sessions_dedup_db_wins() {
    let ts1 = at_millis(1705314600000);
    let ts2 = at_millis(1705314700000);

    let file_sessions = vec![SessionInfo {
        session_id: "ses_001".to_string(),
        started_at: ts1,
        updated_at: ts1,
        project_dir: "/old/path".to_string(),
        title: "Old title".to_string(),
        parent_id: None,
    }];

    let db_sessions = vec![SessionInfo {
        session_id: "ses_001".to_string(),
        started_at: ts1,
        updated_at: ts2,
        project_dir: "/new/path".to_string(),
        title: "New title".to_string(),
        parent_id: None,
    }];

    let merged = merge_sessions(file_sessions, db_sessions);
    assert_eq!(merged.len(), 1);
    // DB version wins
    assert_eq!(merged[0].title, "New title");
    assert_eq!(merged[0].project_dir, "/new/path");
}

#[test]
fn test_merge_sessions_combines_unique() {
    let ts1 = at_millis(1705314600000);
    let ts2 = at_millis(1705314700000);

    let file_sessions = vec![SessionInfo {
        session_id: "ses_file_only".to_string(),
        started_at: ts1,
        updated_at: ts1,
        project_dir: "/proj".to_string(),
        title: "File session".to_string(),
        parent_id: None,
    }];

    let db_sessions = vec![SessionInfo {
        session_id: "ses_db_only".to_string(),
        started_at: ts2,
        updated_at: ts2,
        project_dir: "/proj".to_string(),
        title: "DB session".to_string(),
        parent_id: None,
    }];

    let merged = merge_sessions(file_sessions, db_sessions);
    assert_eq!(merged.len(), 2);
    // Sorted by started_at
    assert_eq!(merged[0].session_id, "ses_file_only");
    assert_eq!(merged[1].session_id, "ses_db_only");
}

#[test]
fn test_merge_sessions_empty_sources() {
    let merged = merge_sessions(Vec::new(), Vec::new());
    assert!(merged.is_empty());

    let ts = at_millis(1705314600000);
    let sessions = vec![SessionInfo {
        session_id: "ses_001".to_string(),
        started_at: ts,
        updated_at: ts,
        project_dir: "/proj".to_string(),
        title: "Only".to_string(),
        parent_id: None,
    }];

    let merged = merge_sessions(sessions.clone(), Vec::new());
    assert_eq!(merged.len(), 1);

    let merged = merge_sessions(Vec::new(), sessions);
    assert_eq!(merged.len(), 1);
}

#[test]
fn test_session_edited_file_write_tool_absolute() {
    let storage = no_files();
    create_raw_part(
        &storage,
        "ses_abc",
        "msg_1",
        "prt_1",
        r#"{"id":"prt_1","type":"tool","tool":"write","state":{"status":"completed","input":{"filePath":"/home/user/src/main.rs","content":"fn main() {}"}}}"#,
    );

    let session = "ses_abc";

    assert!(session_edited_file_in_dirs(
        &storage, session,
        "/home/user/src/main.rs"
    ));
    assert!(!session_edited_file_in_dirs(
        &storage, session,
        "/home/user/src/lib.rs"
    ));
}

#[test]
fn test_session_edited_file_edit_tool() {
    let storage = no_files();
    create_raw_part(
        &storage,
        "ses_abc",
        "msg_1",
        "prt_1",
        r#"{"id":"prt_1","type":"tool","tool":"edit","state":{"status":"completed","input":{"filePath":"/home/user/src/lib.rs","oldString":"old","newString":"new"}}}"#,
    );

    let session = "ses_abc";

    assert!(session_edited_file_in_dirs(
        &storage, session,
        "/home/user/src/lib.rs"
    ));
}

#[test]
fn test_session_edited_file_multi_edit_tool() {
    let storage = no_files();
    create_raw_part(
        &storage,
        "ses_abc",
        "msg_1",
        "prt_1",
        r#"{"id":"prt_1","type":"tool","tool":"multi_edit","state":{"status":"completed","input":{"filePath":"/home/user/src/mod.rs","edits":[]}}}"#,
    );

    let session = "ses_abc";

    assert!(session_edited_file_in_dirs(
        &storage, session,
        "/home/user/src/mod.rs"
    ));
}

#[test]
fn test_session_edited_file_create_tool() {
    let storage = no_files();
    create_raw_part(
        &storage,
        "ses_abc",
        "msg_1",
        "prt_1",
        r#"{"id":"prt_1","type":"tool","tool":"create","state":{"status":"completed","input":{"filePath":"/home/user/new.rs","content":"// new"}}}"#,
    );

    let session = "ses_abc";

    assert!(session_edited_file_in_dirs(
        &storage, session,
        "/home/user/new.rs"
    ));
}

#[test]
fn test_session_edited_file_snake_case_field() {
    let storage = no_files();
    create_raw_part(
        &storage,
        "ses_abc",
        "msg_1",
        "prt_1",
        r#"{"id":"prt_1","type":"tool","tool":"write","state":{"status":"completed","input":{"file_path":"/home/user/src/main.rs","content":"fn main() {}"}}}"#,
    );

    let session = "ses_abc";

    assert!(session_edited_file_in_dirs(
        &storage, session,
        "/home/user/src/main.rs"
    ));
}

#[test]
fn test_session_edited_file_relative_path_in_tool() {
    let storage = no_files();
    create_raw_part(
        &storage,
        "ses_abc",
        "msg_1",
        "prt_1",
        r#"{"id":"prt_1","type":"tool","tool":"write","state":{"status":"completed","input":{"filePath":"src/main.rs","content":"fn main() {}"}}}"#,
    );

    let session = "ses_abc";

    assert!(session_edited_file_in_dirs(
        &storage, session,
        "/home/user/project/src/main.rs"
    ));
    assert!(!session_edited_file_in_dirs(
        &storage, session,
        "/home/user/project/src/lib.rs"
    ));
}

#[test]
fn test_session_edited_file_ignores_non_write_tools() {
    let storage = no_files();
    create_raw_part(
        &storage,
        "ses_abc",
        "msg_1",
        "prt_1",
        r#"{"id":"prt_1","type":"tool","tool":"read","state":{"status":"completed","input":{"filePath":"/home/user/src/main.rs"}}}"#,
    );

    let session = "ses_abc";

    assert!(!session_edited_file_in_dirs(
        &storage, session,
        "/home/user/src/main.rs"
    ));
}

#[test]
fn test_session_edited_file_ignores_text_parts() {
    let storage = no_files();
    create_session_with_messages(
        &storage,
        "ses_abc",
        &[("msg_1", &[("prt_1", "/home/user/src/main.rs")])],
    );

    let session = "ses_abc";

    assert!(!session_edited_file_in_dirs(
        &storage, session,
        "/home/user/src/main.rs"
    ));
}

#[test]
fn test_session_edited_file_empty_session() {
    let storage = no_files();
    let session = "ses_empty";
    
    assert!(!session_edited_file_in_dirs(
        &storage, session,
        "/home/user/src/main.rs"
    ));
}

#[test]
fn test_session_edited_file_nonexistent_dir() {
    let storage = no_files();
    let session = "ses_missing";

    assert!(!session_edited_file_in_dirs(
        &storage, session,
        "/home/user/src/main.rs"
    ));
}

#[test]
fn escapes_do_not_hide_what_a_part_says() {
    let storage = no_files();
    create_raw_part(&storage, "ses_1", "msg_1", "prt_1", r#"{"type":"text","text":"say \"hi\" now"}"#);
    assert!(session_contains_text_in_dirs(&storage, "ses_1", "\"hi\""));
    create_raw_part(&storage, "ses_1", "msg_1", "prt_2", r#"{"type":"text","text":"caf\u00e9\tbar"}"#);
    assert!(session_contains_text_in_dirs(&storage, "ses_1", "café"));
    assert!(session_contains_text_in_dirs(&storage, "ses_1", "é\tb"));
    assert!(!session_contains_text_in_dirs(&storage, "ses_1", "u00e9"));
    create_raw_part(
        &storage,
        "ses_1",
        "msg_1",
        "prt_3",
        r#"{"type":"tool","tool":"write","state":{"input":{"filePath":"\/home\/u\/caf\u00e9.rs"}}}"#,
    );
    assert!(session_edited_file_in_dirs(&storage, "ses_1", "/home/u/café.rs"));
}

#[test]
fn longer_tails_find_what_shorter_ones_find() {
    let storage = no_files();
    for (id, text) in [("msg_1", "one"), ("msg_2", "two"), ("msg_3", "three")] {
        let part = format!(r#"{{"type":"text","text":"{}"}}"#, text);
        create_raw_part(&storage, "ses_1", id, "prt_1", &part);
    }
    for needle in ["one", "two", "three", "four"] {
        let found: Vec<bool> = (0..5)
            .map(|n| session_contains_text_in_dirs_tail(&storage, "ses_1", needle, Some(n)))
            .collect();
        assert!(found.windows(2).all(|w| !w[0] || w[1]), "{}: {:?}", needle, found);
        assert_eq!(found[3], session_contains_text_in_dirs(&storage, "ses_1", needle));
    }
    assert!(session_contains_text_in_dirs_tail(&storage, "ses_1", "three", Some(1)));
    assert!(!session_contains_text_in_dirs_tail(&storage, "ses_1", "two", Some(1)));
}
