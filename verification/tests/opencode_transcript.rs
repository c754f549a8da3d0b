use ai_audit::json::parse_json;
use ai_audit::opencode::db::{inject_id, parse_rows};
use ai_audit::opencode::transcript::{
    merge_transcript_entries, parse_transcript, FileMessage, MessageMeta, StoredMessage,
};
use ai_audit::time::Timestamp;
use ai_audit::transcript::{EntryType, Role, TranscriptEntry};
use std::cell::RefCell;

/// The text of a message file and of its part files, by the names of the files.
type StoredFiles = Vec<(String, String, Vec<(String, String)>)>;

fn no_files() -> RefCell<StoredFiles> {
    RefCell::new(Vec::new())
}

fn create_test_storage(
    storage: &RefCell<StoredFiles>,
    session_id: &str,
    messages: &[(&str, &str, i64, &[(&str, &str)])],
) {
    for (msg_id, role, ts, parts) in messages {
        let msg_json = format!(
            r#"{{"id":"{}","sessionID":"{}","role":"{}","time":{{"created":{}}}}}"#,
            msg_id, session_id, role, ts
        );
        let parts = parts.iter().map(|(id, json)| (id.to_string(), json.to_string())).collect();
        storage.borrow_mut().push((msg_id.to_string(), msg_json, parts));
    }
}

/// The head of a message file.
fn message_meta(text: &str) -> Option<MessageMeta> {
    let document: serde_json::Value = serde_json::from_str(text).ok()?;
    Some(MessageMeta {
        id: document["id"].as_str()?.to_string(),
        role: document["role"].as_str().map(str::to_string),
        created: document["time"]["created"].as_i64()?,
    })
}

fn parse_transcript_from_dir(
    storage: &RefCell<StoredFiles>,
    session_id: &str,
) -> Result<Vec<TranscriptEntry>, String> {
    let mut messages = Vec::new();
    for (_, text, parts) in storage.borrow().iter() {
        if let Some(meta) = message_meta(text) {
            let part_texts = parts.iter().map(|p| p.1.clone()).collect();
            messages.push(FileMessage { meta, part_texts });
        }
    }
    ai_audit::opencode::transcript::parse_transcript_from_dir(session_id, Some(&messages))
}

/// Rows of messages (id, session, time, data) and parts (message, time, data).
struct Store {
    messages: RefCell<Vec<(String, String, i64, String)>>,
    parts: RefCell<Vec<(String, i64, String)>>,
}

fn setup_transcript_db() -> Store {
    Store { messages: RefCell::new(Vec::new()), parts: RefCell::new(Vec::new()) }
}

fn insert_msg(store: &Store, id: &str, session_id: &str, role: &str, ts: i64) {
    let data = format!(r#"{{"role":"{}","time":{{"created":{}}}}}"#, role, ts);
    store.messages.borrow_mut().push((id.to_string(), session_id.to_string(), ts, data));
}

fn insert_prt(store: &Store, _id: &str, msg_id: &str, _session_id: &str, ts: i64, data: &str) {
    store.parts.borrow_mut().push((msg_id.to_string(), ts, data.to_string()));
}

fn parse_transcript_from_conn(
    store: &Store,
    session_id: &str,
) -> Result<Vec<TranscriptEntry>, String> {
    let mut found: Vec<(String, String, i64, String)> =
        store.messages.borrow().iter().filter(|m| m.1 == session_id).cloned().collect();
    found.sort_by_key(|m| m.2);
    let mut messages = Vec::new();
    for (id, _, _, data) in found {
        let mut rows: Vec<(String, i64, String)> =
            store.parts.borrow().iter().filter(|p| p.0 == id).cloned().collect();
        rows.sort_by_key(|p| p.1);
        messages.push(StoredMessage {
            message: inject_id(parse_json(&data).unwrap(), &id),
            parts: parse_rows(&rows.into_iter().map(|p| p.2).collect()),
        });
    }
    ai_audit::opencode::transcript::parse_transcript_from_conn(session_id, &messages)
}

fn at_millis(ms: i64) -> Timestamp {
    Timestamp { secs: ms / 1000, nanos: (ms % 1000) as u32 * 1_000_000 }
}

fn text_entry(ms: i64, role: Role, content: &str) -> TranscriptEntry {
    TranscriptEntry {
        timestamp: at_millis(ms),
        role,
        entry_type: EntryType::Text,
        content: content.to_string(),
        tool_name: None,
        tool_input: None,
    }
}

#[test]
fn files_without_messages_are_an_error() {
    let none = ai_audit::opencode::transcript::parse_transcript_from_dir("ses_x", None);
    assert!(none.is_err());
    let storage = no_files();
    assert!(parse_transcript_from_dir(&storage, "ses_x").unwrap().is_empty());
}

#[test]
fn merging_a_transcript_with_itself_changes_nothing() {
    let entries = || {
        vec![
            text_entry(1000, Role::User, "Question"),
            text_entry(2000, Role::Assistant, "Answer"),
        ]
    };
    let merged = merge_transcript_entries(entries(), entries());
    let contents: Vec<&str> = merged.iter().map(|e| e.content.as_str()).collect();
    assert_eq!(contents, vec!["Question", "Answer"]);
}

#[test]
fn one_source_is_enough() {
    let only_files = parse_transcript(Ok(vec![text_entry(1000, Role::User, "Question")]), None);
    assert_eq!(only_files.unwrap().len(), 1);
    let only_records = parse_transcript(
        Err("no files".to_string()),
        Some(vec![text_entry(1000, Role::User, "Question")]),
    );
    assert_eq!(only_records.unwrap().len(), 1);
    let nothing = parse_transcript(Err("no files".to_string()), None);
    assert_eq!(nothing.err(), Some("no files".to_string()));
}

#[test]
fn a_tool_without_output_gives_an_empty_result() {
    let storage = no_files();
    create_test_storage(
        &storage,
        "ses_1",
        &[(
            "msg_1",
            "assistant",
            1705314601000,
            &[("prt_1", r#"{"type":"tool","state":{"status":"running"}}"#)],
        )],
    );
    let entries = parse_transcript_from_dir(&storage, "ses_1").unwrap();
    let kinds: Vec<&str> = entries.iter().map(|e| e.entry_type.as_str()).collect();
    assert_eq!(kinds, vec!["tool_use", "tool_result"]);
    assert_eq!(entries[0].tool_name.as_deref(), Some("unknown"));
    assert!(entries[0].tool_input.is_none());
    assert_eq!(entries[1].content, "");
    assert_eq!(entries[1].timestamp, at_millis(1705314601000));
}

#[test]
fn test_parse_text_part() {
    let storage = no_files();

    create_test_storage(
        &storage,
        "ses_test1",
        &[(
            "msg_001",
            "user",
            1705314600000,
            &[(
                "prt_001",
                r#"{"id":"prt_001","sessionID":"ses_test1","messageID":"msg_001","type":"text","text":"Hello world"}"#,
            )],
        )],
    );

    let entries = parse_transcript_from_dir(&storage, "ses_test1").unwrap();
    assert_eq!(entries.len(), 1);
    assert!(matches!(entries[0].role, Role::User));
    assert!(matches!(entries[0].entry_type, EntryType::Text));
    assert_eq!(entries[0].content, "Hello world");
}

#[test]
fn test_parse_tool_part() {
    let storage = no_files();

    let tool_json = r#"{
        "id": "prt_002",
        "sessionID": "ses_test1",
        "messageID": "msg_002",
        "type": "tool",
        "tool": "Bash",
        "state": {
            "status": "completed",
            "input": {"command": "ls"},
            "output": "file1.txt\nfile2.txt",
            "time": {"start": 1705314601000, "end": 1705314602000}
        },
        "time": {"start": 1705314601000, "end": 1705314602000}
    }"#;

    create_test_storage(
        &storage,
        "ses_test1",
        &[(
            "msg_002",
            "assistant",
            1705314601000,
            &[("prt_002", tool_json)],
        )],
    );

    let entries = parse_transcript_from_dir(&storage, "ses_test1").unwrap();
    assert_eq!(entries.len(), 2);

    // First: ToolUse
    assert!(matches!(entries[0].entry_type, EntryType::ToolUse));
    assert_eq!(entries[0].tool_name.as_deref(), Some("Bash"));
    assert!(entries[0].tool_input.is_some());

    // Second: ToolResult
    assert!(matches!(entries[1].entry_type, EntryType::ToolResult));
    assert_eq!(entries[1].content, "file1.txt\nfile2.txt");
}

#[test]
fn test_parse_reasoning_part() {
    let storage = no_files();

    let reasoning_json = r#"{
        "id": "prt_003",
        "sessionID": "ses_test1",
        "messageID": "msg_003",
        "type": "reasoning",
        "text": "Let me think about this...",
        "time": {"start": 1705314603000, "end": 1705314604000}
    }"#;

    create_test_storage(
        &storage,
        "ses_test1",
        &[(
            "msg_003",
            "assistant",
            1705314603000,
            &[("prt_003", reasoning_json)],
        )],
    );

    let entries = parse_transcript_from_dir(&storage, "ses_test1").unwrap();
    assert_eq!(entries.len(), 1);
    assert!(matches!(entries[0].entry_type, EntryType::Thinking));
    assert_eq!(entries[0].content, "Let me think about this...");
}

#[test]
fn test_skip_step_parts() {
    let storage = no_files();

    create_test_storage(
        &storage,
        "ses_test1",
        &[(
            "msg_004",
            "assistant",
            1705314605000,
            &[
                (
                    "prt_001",
                    r#"{"id":"prt_001","sessionID":"ses_test1","messageID":"msg_004","type":"step-start","snapshot":"abc"}"#,
                ),
                (
                    "prt_002",
                    r#"{"id":"prt_002","sessionID":"ses_test1","messageID":"msg_004","type":"text","text":"Actual content"}"#,
                ),
                (
                    "prt_003",
                    r#"{"id":"prt_003","sessionID":"ses_test1","messageID":"msg_004","type":"step-finish","reason":"done"}"#,
                ),
            ],
        )],
    );

    let entries = parse_transcript_from_dir(&storage, "ses_test1").unwrap();
    assert_eq!(entries.len(), 1);
    assert_eq!(entries[0].content, "Actual content");
}

#[test]
fn test_ordering() {
    let storage = no_files();

    create_test_storage(
        &storage,
        "ses_test1",
        &[
            (
                "msg_002",
                "assistant",
                1705314601000,
                &[(
                    "prt_001",
                    r#"{"id":"prt_001","sessionID":"ses_test1","messageID":"msg_002","type":"text","text":"Response"}"#,
                )],
            ),
            (
                "msg_001",
                "user",
                1705314600000,
                &[(
                    "prt_001",
                    r#"{"id":"prt_001","sessionID":"ses_test1","messageID":"msg_001","type":"text","text":"Question"}"#,
                )],
            ),
        ],
    );

    let entries = parse_transcript_from_dir(&storage, "ses_test1").unwrap();
    assert_eq!(entries.len(), 2);
    assert!(entries[0].timestamp.before(entries[1].timestamp));
    assert_eq!(entries[0].content, "Question");
    assert_eq!(entries[1].content, "Response");
}

#[test]
fn test_parse_transcript_from_db_text() {
    let conn = setup_transcript_db();
    insert_msg(&conn, "msg_001", "ses_db1", "user", 1705314600000);
    insert_prt(
        &conn,
        "prt_001",
        "msg_001",
        "ses_db1",
        1705314600000,
        r#"{"type":"text","text":"Hello from DB"}"#,
    );

    let entries = parse_transcript_from_conn(&conn, "ses_db1").unwrap();
    assert_eq!(entries.len(), 1);
    assert!(matches!(entries[0].role, Role::User));
    assert!(matches!(entries[0].entry_type, EntryType::Text));
    assert_eq!(entries[0].content, "Hello from DB");
}

#[test]
fn test_parse_transcript_from_db_tool() {
    let conn = setup_transcript_db();
    insert_msg(&conn, "msg_001", "ses_db2", "assistant", 1705314601000);
    insert_prt(
        &conn,
        "prt_001",
        "msg_001",
        "ses_db2",
        1705314601000,
        r#"{"type":"tool","tool":"Bash","state":{"input":{"command":"ls"},"output":"file.txt"},"time":{"start":1705314601000,"end":1705314602000}}"#,
    );

    let entries = parse_transcript_from_conn(&conn, "ses_db2").unwrap();
    assert_eq!(entries.len(), 2);
    assert!(matches!(entries[0].entry_type, EntryType::ToolUse));
    assert_eq!(entries[0].tool_name.as_deref(), Some("Bash"));
    assert!(matches!(entries[1].entry_type, EntryType::ToolResult));
    assert_eq!(entries[1].content, "file.txt");
}

#[test]
fn test_parse_transcript_from_db_reasoning() {
    let conn = setup_transcript_db();
    insert_msg(&conn, "msg_001", "ses_db3", "assistant", 1705314603000);
    insert_prt(
        &conn,
        "prt_001",
        "msg_001",
        "ses_db3",
        1705314603000,
        r#"{"type":"reasoning","text":"Thinking deeply...","time":{"start":1705314603000}}"#,
    );

    let entries = parse_transcript_from_conn(&conn, "ses_db3").unwrap();
    assert_eq!(entries.len(), 1);
    assert!(matches!(entries[0].entry_type, EntryType::Thinking));
    assert_eq!(entries[0].content, "Thinking deeply...");
}

#[test]
fn test_parse_transcript_from_db_skips_step_parts() {
    let conn = setup_transcript_db();
    insert_msg(&conn, "msg_001", "ses_db4", "assistant", 1705314605000);
    insert_prt(
        &conn,
        "prt_001",
        "msg_001",
        "ses_db4",
        1705314605000,
        r#"{"type":"step-start","snapshot":"abc"}"#,
    );
    insert_prt(
        &conn,
        "prt_002",
        "msg_001",
        "ses_db4",
        1705314605100,
        r#"{"type":"text","text":"Actual content"}"#,
    );
    insert_prt(
        &conn,
        "prt_003",
        "msg_001",
        "ses_db4",
        1705314605200,
        r#"{"type":"step-finish","reason":"done"}"#,
    );

    let entries = parse_transcript_from_conn(&conn, "ses_db4").unwrap();
    assert_eq!(entries.len(), 1);
    assert_eq!(entries[0].content, "Actual content");
}

#[test]
fn test_parse_transcript_from_db_ordering() {
    let conn = setup_transcript_db();
    // Insert in reverse order — should still be sorted by timestamp
    insert_msg(&conn, "msg_002", "ses_db5", "assistant", 1705314601000);
    insert_msg(&conn, "msg_001", "ses_db5", "user", 1705314600000);
    insert_prt(
        &conn,
        "prt_002",
        "msg_002",
        "ses_db5",
        1705314601000,
        r#"{"type":"text","text":"Response"}"#,
    );
    insert_prt(
        &conn,
        "prt_001",
        "msg_001",
        "ses_db5",
        1705314600000,
        r#"{"type":"text","text":"Question"}"#,
    );

    let entries = parse_transcript_from_conn(&conn, "ses_db5").unwrap();
    assert_eq!(entries.len(), 2);
    assert!(entries[0].timestamp.before(entries[1].timestamp));
    assert_eq!(entries[0].content, "Question");
    assert_eq!(entries[1].content, "Response");
}

#[test]
fn test_parse_transcript_from_db_empty_session() {
    let conn = setup_transcript_db();
    let result = parse_transcript_from_conn(&conn, "ses_missing");
    assert!(result.is_err());
}

// --- Merge tests ---

#[test]
fn test_merge_transcript_entries_dedup() {
    let ts = at_millis(1705314600000);

    let file_entries = vec![TranscriptEntry {
        timestamp: ts,
        role: Role::User,
        entry_type: EntryType::Text,
        content: "Hello".to_string(),
        tool_name: None,
        tool_input: None,
    }];

    let db_entries = vec![TranscriptEntry {
        timestamp: ts,
        role: Role::User,
        entry_type: EntryType::Text,
        content: "Hello".to_string(),
        tool_name: None,
        tool_input: None,
    }];

    let merged = merge_transcript_entries(file_entries, db_entries);
    assert_eq!(merged.len(), 1);
    assert_eq!(merged[0].content, "Hello");
}

#[test]
fn test_merge_transcript_entries_combines_unique() {
    let ts1 = at_millis(1705314600000);
    let ts2 = at_millis(1705314601000);

    let file_entries = vec![TranscriptEntry {
        timestamp: ts1,
        role: Role::User,
        entry_type: EntryType::Text,
        content: "From files only".to_string(),
        tool_name: None,
        tool_input: None,
    }];

    let db_entries = vec![TranscriptEntry {
        timestamp: ts2,
        role: Role::Assistant,
        entry_type: EntryType::Text,
        content: "From DB only".to_string(),
        tool_name: None,
        tool_input: None,
    }];

    let merged = merge_transcript_entries(file_entries, db_entries);
    assert_eq!(merged.len(), 2);
    assert_eq!(merged[0].content, "From files only");
    assert_eq!(merged[1].content, "From DB only");
}

#[test]
fn test_merge_transcript_entries_db_wins_on_conflict() {
    let ts = at_millis(1705314600000);

    // Same timestamp+role+type+content = duplicate, DB version kept
    let file_entries = vec![
        TranscriptEntry {
            timestamp: ts,
            role: Role::User,
            entry_type: EntryType::Text,
            content: "Same content".to_string(),
            tool_name: None,
            tool_input: None,
        },
        TranscriptEntry {
            timestamp: ts,
            role: Role::User,
            entry_type: EntryType::Text,
            content: "File-only extra".to_string(),
            tool_name: None,
            tool_input: None,
        },
    ];

    let db_entries = vec![TranscriptEntry {
        timestamp: ts,
        role: Role::User,
        entry_type: EntryType::Text,
        content: "Same content".to_string(),
        tool_name: None,
        tool_input: None,
    }];

    let merged = merge_transcript_entries(file_entries, db_entries);
    assert_eq!(merged.len(), 2);
    // "Same content" appears once (from DB), "File-only extra" also present
    let contents: Vec<&str> = merged.iter().map(|e| e.content.as_str()).collect();
    assert!(contents.contains(&"Same content"));
    assert!(contents.contains(&"File-only extra"));
}

#[test]
fn messages_of_unknown_roles_are_passed_over() {
    let part = r#"{"type":"text","text":"said"}"#;
    let said_by = |role: Option<&str>| {
        let meta = MessageMeta {
            id: "msg_1".to_string(),
            role: role.map(str::to_string),
            created: 1705314600000,
        };
        let messages = vec![FileMessage { meta, part_texts: vec![part.to_string()] }];
        ai_audit::opencode::transcript::parse_transcript_from_dir("ses_1", Some(&messages))
            .unwrap()
            .len()
    };
    assert_eq!(said_by(Some("system")), 1);
    assert_eq!(said_by(Some("tool")), 0);
    assert_eq!(said_by(None), 0);
}
