use ai_audit::json::{parse_json, Json};
use ai_audit::opencode::db::{
    inject_id, parse_rows, session_contains_text_from_db, session_edited_file_from_db,
    session_matches_filters, session_tail_contains_text_from_db,
};
use ai_audit::opencode::info::{fetch_info, AssistantAttrs, SessionDetailInfo};
use ai_audit::opencode::sessions::{merge_sessions, session_of_row, SessionInfo, SessionRow};
use ai_audit::opencode::status::{
    classify_static, meta_of_row, resume_payload, LastMessageMeta, LastMessageRow, ResumeModel,
    ResumePayload, StaticStatus,
};
use ai_audit::provider::Provider;
use ai_audit::session_detect::filters::{FilterCriterion, SessionFilter};
use std::cell::RefCell;
use std::collections::HashMap;

/// Rows of the three tables, in the order in which they were written.
struct Store {
    sessions: RefCell<Vec<SessionRow>>,
    messages: RefCell<Vec<Message>>,
    parts: RefCell<Vec<Part>>,
}

#[derive(Clone)]
struct Message {
    id: String,
    session_id: String,
    time: i64,
    data: String,
}

#[derive(Clone)]
struct Part {
    message_id: String,
    session_id: String,
    time: i64,
    data: String,
}

fn setup_test_db() -> Store {
    Store {
        sessions: RefCell::new(Vec::new()),
        messages: RefCell::new(Vec::new()),
        parts: RefCell::new(Vec::new()),
    }
}

fn insert_session(
    store: &Store,
    id: &str,
    parent_id: Option<&str>,
    directory: &str,
    title: &str,
    created: i64,
    updated: i64,
) {
    store.sessions.borrow_mut().push(SessionRow {
        id: id.to_string(),
        parent_id: parent_id.map(str::to_string),
        directory: Some(directory.to_string()),
        title: Some(title.to_string()),
        created,
        updated,
    });
}

fn insert_data(store: &Store, id: &str, session_id: &str, time: i64, data: &str) {
    store.messages.borrow_mut().push(Message {
        id: id.to_string(),
        session_id: session_id.to_string(),
        time,
        data: data.to_string(),
    });
}

fn insert_message(store: &Store, id: &str, session_id: &str, role: &str, time: i64) {
    let data = format!(r#"{{"role":"{}","time":{{"created":{}}}}}"#, role, time);
    insert_data(store, id, session_id, time, &data);
}

fn insert_part(store: &Store, _id: &str, message_id: &str, session_id: &str, time: i64, data: &str) {
    store.parts.borrow_mut().push(Part {
        message_id: message_id.to_string(),
        session_id: session_id.to_string(),
        time,
        data: data.to_string(),
    });
}

impl Store {
    fn messages_of(&self, session_id: &str) -> Vec<Message> {
        let mut found: Vec<Message> =
            self.messages.borrow().iter().filter(|m| m.session_id == session_id).cloned().collect();
        found.sort_by(|a, b| (a.time, &a.id).cmp(&(b.time, &b.id)));
        found
    }

    fn last_messages_of(&self, session_id: &str, n: usize) -> Vec<Vec<Json>> {
        let all = self.messages_of(session_id);
        all.iter().rev().take(n).map(|m| self.parts_of_message(&m.id)).collect()
    }

    fn parts_of_message(&self, message_id: &str) -> Vec<Json> {
        let mut found: Vec<Part> =
            self.parts.borrow().iter().filter(|p| p.message_id == message_id).cloned().collect();
        found.sort_by_key(|p| p.time);
        parse_rows(&found.into_iter().map(|p| p.data).collect())
    }

    fn parts_of_session(&self, session_id: &str) -> Vec<(String, Json)> {
        let mut found: Vec<Part> =
            self.parts.borrow().iter().filter(|p| p.session_id == session_id).cloned().collect();
        found.sort_by_key(|p| p.time);
        found
            .into_iter()
            .filter_map(|p| parse_json(&p.data).map(|j| (p.message_id, j)))
            .collect()
    }

    fn row_of(&self, session_id: &str) -> Option<SessionRow> {
        self.sessions.borrow().iter().find(|s| s.id == session_id).cloned()
    }
}

fn list_sessions_from_conn(store: &Store) -> Option<Vec<SessionInfo>> {
    let infos = store.sessions.borrow().iter().cloned().map(session_of_row).collect();
    Some(merge_sessions(Vec::new(), infos))
}

fn get_session_info_from_conn(store: &Store, session_id: &str) -> Result<SessionInfo, String> {
    match store.row_of(session_id) {
        Some(row) => Ok(session_of_row(row)),
        None => Err(format!("session {} not found", session_id)),
    }
}

fn get_messages_for_session(store: &Store, session_id: &str) -> Option<Vec<(String, Json)>> {
    let found = store.messages_of(session_id);
    Some(
        found
            .into_iter()
            .map(|m| (m.id.clone(), inject_id(parse_json(&m.data).unwrap(), &m.id)))
            .collect(),
    )
}

fn get_parts_for_message(store: &Store, message_id: &str) -> Option<Vec<Json>> {
    Some(store.parts_of_message(message_id))
}

fn get_parts_for_session(store: &Store, session_id: &str) -> Option<Vec<(String, Json)>> {
    Some(store.parts_of_session(session_id))
}

fn bare_parts(store: &Store, session_id: &str) -> Vec<Json> {
    store.parts_of_session(session_id).into_iter().map(|p| p.1).collect()
}

fn session_contains_text_from_conn(store: &Store, session_id: &str, needle: &str) -> bool {
    session_contains_text_from_db(&bare_parts(store, session_id), needle)
}

fn session_tail_contains_text_from_conn(
    store: &Store,
    session_id: &str,
    needle: &str,
    last_n: usize,
) -> bool {
    session_tail_contains_text_from_db(&store.last_messages_of(session_id, last_n), needle)
}

fn session_edited_file_from_conn(store: &Store, session_id: &str, target: &str) -> bool {
    session_edited_file_from_db(&bare_parts(store, session_id), target)
}

fn session_matches_filters_from_conn(
    store: &Store,
    session_id: &str,
    filters: &Vec<SessionFilter>,
    last_n: usize,
    project_dir: &str,
) -> bool {
    session_matches_filters(&store.last_messages_of(session_id, last_n), filters, project_dir)
}

fn is_waiting(part: &Json) -> bool {
    part.get_str("type") == Some("tool")
        && matches!(
            part.get2("state", "status").and_then(|s| s.as_str()),
            Some("running") | Some("pending")
        )
}

fn last_meta(store: &Store, session_id: &str) -> Option<(LastMessageMeta, bool)> {
    let row = store.row_of(session_id)?;
    let last = store.messages_of(session_id).pop()?;
    let parts = store.parts_of_message(&last.id);
    let data = parse_json(&last.data).unwrap();
    let errored = matches!(data.get("error"), Some(e) if !matches!(e, Json::Null));
    let meta = meta_of_row(LastMessageRow {
        session_id: session_id.to_string(),
        session_updated: row.updated,
        msg_id: last.id,
        created: last.time,
        role: data.get_str("role").map(str::to_string),
        completed: data.get2("time", "completed").and_then(|c| c.as_i64()),
        parts_total: parts.len() as i64,
        stuck_tools: parts.iter().filter(|p| is_waiting(p)).count() as i64,
    });
    Some((meta, errored))
}

fn fetch_last_message_meta(store: &Store, _ids: &[String]) -> Option<HashMap<String, LastMessageMeta>> {
    let ids: Vec<String> = store.sessions.borrow().iter().map(|s| s.id.clone()).collect();
    Some(ids.iter().filter_map(|id| last_meta(store, id).map(|m| (id.clone(), m.0))).collect())
}

fn text_in(data: &Json, outer: &str, inner: &str) -> Option<String> {
    data.get2(outer, inner).and_then(|j| j.as_str()).map(str::to_string)
}

fn payload_of(store: &Store, m: &Message) -> ResumePayload {
    let data = parse_json(&m.data).unwrap();
    let texts = store
        .parts_of_message(&m.id)
        .iter()
        .filter(|p| p.get_str("type") == Some("text"))
        .map(|p| p.get_str("text").map(str::to_string))
        .collect();
    resume_payload(
        m.id.clone(),
        data.get_str("agent").map(str::to_string),
        text_in(&data, "model", "providerID"),
        text_in(&data, "model", "modelID"),
        texts,
    )
}

fn has_role(m: &Message, role: &str) -> bool {
    parse_json(&m.data).unwrap().get_str("role") == Some(role)
}

fn fetch_last_user_message(store: &Store, session_id: &str) -> Option<Option<ResumePayload>> {
    let all = store.messages_of(session_id);
    Some(all.iter().rev().find(|m| has_role(m, "user")).map(|m| payload_of(store, m)))
}

fn fetch_user_message_before_last_assistant(
    store: &Store,
    session_id: &str,
) -> Option<Option<ResumePayload>> {
    let all = store.messages_of(session_id);
    let Some(answer) = all.iter().rev().find(|m| has_role(m, "assistant")) else {
        return Some(None);
    };
    let asked = all.iter().rev().find(|m| has_role(m, "user") && m.time < answer.time);
    Some(asked.map(|m| payload_of(store, m)))
}

fn insert_ended_session(store: &Store, session_id: &str, msg_id: &str, role: &str, completed: bool) {
    insert_session(store, session_id, None, "", "", 1000, 2000);
    let ended = if completed { "123" } else { "null" };
    let data = format!(r#"{{"role":"{}","time":{{"completed":{}}}}}"#, role, ended);
    insert_data(store, msg_id, session_id, 1500, &data);
}

fn insert_part_at(store: &Store, id: &str, msg_id: &str, data: &str, time: i64) {
    insert_part(store, id, msg_id, "", time, data);
}

fn insert_message_at(store: &Store, msg_id: &str, session_id: &str, role: &str, time: i64) {
    insert_message_full(store, msg_id, session_id, role, time, None, None);
}

fn insert_message_full(
    store: &Store,
    msg_id: &str,
    session_id: &str,
    role: &str,
    time: i64,
    agent: Option<&str>,
    model: Option<(&str, &str)>,
) {
    let agent = match agent {
        Some(a) => format!(r#","agent":"{}""#, a),
        None => String::new(),
    };
    let model = match model {
        Some((p, m)) => format!(r#","model":{{"providerID":"{}","modelID":"{}"}}"#, p, m),
        None => String::new(),
    };
    let data = format!(r#"{{"role":"{}","time":{{"completed":null}}{}{}}}"#, role, agent, model);
    insert_data(store, msg_id, session_id, time, &data);
}

fn fetch_info_from_conn(store: &Store, session_id: &str) -> Result<SessionDetailInfo, String> {
    let messages = store.messages_of(session_id);
    let tools = bare_parts(store, session_id)
        .iter()
        .filter(|p| p.get_str("type") == Some("tool"))
        .count();
    let attrs = messages.iter().rev().find(|m| has_role(m, "assistant")).map(|m| {
        let data = parse_json(&m.data).unwrap();
        AssistantAttrs {
            agent: data.get_str("agent").map(str::to_string),
            provider_flat: data.get_str("providerID").map(str::to_string),
            model_flat: data.get_str("modelID").map(str::to_string),
            provider_nested: text_in(&data, "model", "providerID"),
            model_nested: text_in(&data, "model", "modelID"),
        }
    });
    fetch_info(
        session_id,
        store.row_of(session_id),
        messages.len() as i64,
        tools as i64,
        last_meta(store, session_id),
        attrs,
    )
}

#[test]
fn test_list_sessions_from_conn_empty() {
    let conn = setup_test_db();
    let sessions = list_sessions_from_conn(&conn).unwrap();
    assert!(sessions.is_empty());
}

#[test]
fn test_list_sessions_from_conn() {
    let conn = setup_test_db();
    insert_session(
        &conn,
        "ses_001",
        None,
        "/home/user/project",
        "First session",
        1705314600000,
        1705314700000,
    );
    insert_session(
        &conn,
        "ses_002",
        Some("ses_001"),
        "/home/user/project",
        "Sub-agent",
        1705314800000,
        1705314900000,
    );

    let sessions = list_sessions_from_conn(&conn).unwrap();
    assert_eq!(sessions.len(), 2);

    assert_eq!(sessions[0].session_id, "ses_001");
    assert_eq!(sessions[0].project_dir, "/home/user/project");
    assert_eq!(sessions[0].title, "First session");
    assert!(sessions[0].parent_id.is_none());

    assert_eq!(sessions[1].session_id, "ses_002");
    assert_eq!(sessions[1].parent_id.as_deref(), Some("ses_001"));
}

#[test]
fn test_list_sessions_ordering() {
    let conn = setup_test_db();
    // Insert in reverse order
    insert_session(
        &conn,
        "ses_b",
        None,
        "/b",
        "B",
        1705314800000,
        1705314800000,
    );
    insert_session(
        &conn,
        "ses_a",
        None,
        "/a",
        "A",
        1705314600000,
        1705314600000,
    );

    let sessions = list_sessions_from_conn(&conn).unwrap();
    assert_eq!(sessions[0].session_id, "ses_a");
    assert_eq!(sessions[1].session_id, "ses_b");
}

#[test]
fn test_get_session_info_from_conn() {
    let conn = setup_test_db();
    insert_session(
        &conn,
        "ses_001",
        None,
        "/home/user/project",
        "My session",
        1705314600000,
        1705314700000,
    );

    let info = get_session_info_from_conn(&conn, "ses_001").unwrap();
    assert_eq!(info.session_id, "ses_001");
    assert_eq!(info.title, "My session");
    assert_eq!(info.project_dir, "/home/user/project");
}

#[test]
fn test_get_session_info_not_found() {
    let conn = setup_test_db();
    let result = get_session_info_from_conn(&conn, "ses_missing");
    assert!(result.is_err());
}

#[test]
fn test_get_messages_for_session() {
    let conn = setup_test_db();
    insert_message(&conn, "msg_001", "ses_001", "user", 1705314600000);
    insert_message(&conn, "msg_002", "ses_001", "assistant", 1705314601000);
    insert_message(&conn, "msg_003", "ses_002", "user", 1705314602000);

    let messages = get_messages_for_session(&conn, "ses_001").unwrap();
    assert_eq!(messages.len(), 2);
    assert_eq!(messages[0].0, "msg_001");
    assert_eq!(messages[0].1.get("role").unwrap().as_str().unwrap(), "user");
    assert_eq!(
        messages[0].1.get("id").unwrap().as_str().unwrap(),
        "msg_001"
    );
    assert_eq!(messages[1].0, "msg_002");
    assert_eq!(
        messages[1].1.get("role").unwrap().as_str().unwrap(),
        "assistant"
    );
}

#[test]
fn test_get_parts_for_message() {
    let conn = setup_test_db();
    insert_part(
        &conn,
        "prt_001",
        "msg_001",
        "ses_001",
        1705314600000,
        r#"{"type":"text","text":"Hello world"}"#,
    );
    insert_part(
        &conn,
        "prt_002",
        "msg_001",
        "ses_001",
        1705314600100,
        r#"{"type":"text","text":"More text"}"#,
    );

    let parts = get_parts_for_message(&conn, "msg_001").unwrap();
    assert_eq!(parts.len(), 2);
    assert_eq!(
        parts[0].get("text").unwrap().as_str().unwrap(),
        "Hello world"
    );
    assert_eq!(parts[1].get("text").unwrap().as_str().unwrap(), "More text");
}

#[test]
fn test_get_parts_for_session() {
    let conn = setup_test_db();
    insert_part(
        &conn,
        "prt_001",
        "msg_001",
        "ses_001",
        1705314600000,
        r#"{"type":"text","text":"Hello"}"#,
    );
    insert_part(
        &conn,
        "prt_002",
        "msg_002",
        "ses_001",
        1705314601000,
        r#"{"type":"tool","tool":"bash","state":{"input":{"command":"ls"}}}"#,
    );
    insert_part(
        &conn,
        "prt_003",
        "msg_003",
        "ses_002",
        1705314602000,
        r#"{"type":"text","text":"Other session"}"#,
    );

    let parts = get_parts_for_session(&conn, "ses_001").unwrap();
    assert_eq!(parts.len(), 2);
    assert_eq!(parts[0].0, "msg_001");
    assert_eq!(parts[1].0, "msg_002");
}

#[test]
fn test_session_contains_text_from_conn_text_part() {
    let conn = setup_test_db();
    insert_message(&conn, "msg_001", "ses_001", "user", 1705314600000);
    insert_part(
        &conn,
        "prt_001",
        "msg_001",
        "ses_001",
        1705314600000,
        r#"{"type":"text","text":"Hello world"}"#,
    );

    assert!(session_contains_text_from_conn(&conn, "ses_001", "Hello"));
    assert!(session_contains_text_from_conn(&conn, "ses_001", "world"));
    assert!(!session_contains_text_from_conn(&conn, "ses_001", "WORLD"));
    assert!(!session_contains_text_from_conn(
        &conn, "ses_001", "goodbye"
    ));
}

#[test]
fn test_session_contains_text_from_conn_tool_part() {
    let conn = setup_test_db();
    insert_message(&conn, "msg_001", "ses_001", "assistant", 1705314600000);
    insert_part(
        &conn,
        "prt_001",
        "msg_001",
        "ses_001",
        1705314600000,
        r#"{"type":"tool","tool":"bash","state":{"input":{"command":"cargo test"},"output":"test passed"}}"#,
    );

    assert!(session_contains_text_from_conn(&conn, "ses_001", "bash"));
    assert!(session_contains_text_from_conn(
        &conn,
        "ses_001",
        "cargo test"
    ));
    assert!(session_contains_text_from_conn(
        &conn,
        "ses_001",
        "test passed"
    ));
    assert!(!session_contains_text_from_conn(
        &conn,
        "ses_001",
        "npm install"
    ));
}

#[test]
fn test_session_tail_contains_text_from_conn() {
    let conn = setup_test_db();
    insert_session(
        &conn,
        "ses_001",
        None,
        "/proj",
        "Test",
        1705314600000,
        1705314605000,
    );
    insert_message(&conn, "msg_001", "ses_001", "user", 1705314600000);
    insert_message(&conn, "msg_002", "ses_001", "assistant", 1705314601000);
    insert_message(&conn, "msg_003", "ses_001", "user", 1705314602000);
    insert_message(&conn, "msg_004", "ses_001", "assistant", 1705314603000);
    insert_message(&conn, "msg_005", "ses_001", "user", 1705314604000);

    insert_part(
        &conn,
        "prt_001",
        "msg_001",
        "ses_001",
        1705314600000,
        r#"{"type":"text","text":"old message"}"#,
    );
    insert_part(
        &conn,
        "prt_003",
        "msg_003",
        "ses_001",
        1705314602000,
        r#"{"type":"text","text":"unique target phrase"}"#,
    );
    insert_part(
        &conn,
        "prt_004",
        "msg_004",
        "ses_001",
        1705314603000,
        r#"{"type":"text","text":"recent message"}"#,
    );
    insert_part(
        &conn,
        "prt_005",
        "msg_005",
        "ses_001",
        1705314604000,
        r#"{"type":"text","text":"latest message"}"#,
    );

    // Last 2 should NOT find "unique target phrase" (it's in msg_003)
    assert!(!session_tail_contains_text_from_conn(
        &conn,
        "ses_001",
        "unique target phrase",
        2
    ));

    // Last 3 SHOULD find it
    assert!(session_tail_contains_text_from_conn(
        &conn,
        "ses_001",
        "unique target phrase",
        3
    ));

    // Last 2 should find "latest message"
    assert!(session_tail_contains_text_from_conn(
        &conn,
        "ses_001",
        "latest message",
        2
    ));
}

#[test]
fn db_test_session_contains_text_empty_session() {
    let conn = setup_test_db();
    assert!(!session_contains_text_from_conn(
        &conn,
        "ses_missing",
        "anything"
    ));
}

#[test]
fn test_timestamp_conversion() {
    let conn = setup_test_db();
    insert_session(
        &conn,
        "ses_ts",
        None,
        "/proj",
        "Timestamp test",
        1705314600000, // 2024-01-15 10:30:00 UTC
        1705314700000,
    );

    let info = get_session_info_from_conn(&conn, "ses_ts").unwrap();
    assert_eq!(info.started_at.millis(), 1705314600000);
    assert_eq!(info.updated_at.millis(), 1705314700000);
}

#[test]
fn test_zero_updated_at_falls_back_to_started() {
    let conn = setup_test_db();
    insert_session(&conn, "ses_zero", None, "/proj", "Zero", 1705314600000, 0);

    let info = get_session_info_from_conn(&conn, "ses_zero").unwrap();
    assert_eq!(info.started_at, info.updated_at);
}

// === session_edited_file_from_conn tests ===

#[test]
fn test_session_edited_file_from_conn_write_tool() {
    let conn = setup_test_db();
    insert_message(&conn, "msg_001", "ses_001", "assistant", 1705314600000);
    insert_part(
        &conn,
        "prt_001",
        "msg_001",
        "ses_001",
        1705314600000,
        r#"{"type":"tool","tool":"write","state":{"status":"completed","input":{"filePath":"/home/user/src/main.rs","content":"fn main() {}"}}}"#,
    );

    assert!(session_edited_file_from_conn(
        &conn,
        "ses_001",
        "/home/user/src/main.rs"
    ));
    assert!(!session_edited_file_from_conn(
        &conn,
        "ses_001",
        "/home/user/src/lib.rs"
    ));
}

#[test]
fn test_session_edited_file_from_conn_edit_tool() {
    let conn = setup_test_db();
    insert_message(&conn, "msg_001", "ses_001", "assistant", 1705314600000);
    insert_part(
        &conn,
        "prt_001",
        "msg_001",
        "ses_001",
        1705314600000,
        r#"{"type":"tool","tool":"edit","state":{"status":"completed","input":{"filePath":"/home/user/src/lib.rs","oldString":"old","newString":"new"}}}"#,
    );

    assert!(session_edited_file_from_conn(
        &conn,
        "ses_001",
        "/home/user/src/lib.rs"
    ));
}

#[test]
fn test_session_edited_file_from_conn_relative_path() {
    let conn = setup_test_db();
    insert_message(&conn, "msg_001", "ses_001", "assistant", 1705314600000);
    insert_part(
        &conn,
        "prt_001",
        "msg_001",
        "ses_001",
        1705314600000,
        r#"{"type":"tool","tool":"write","state":{"status":"completed","input":{"filePath":"src/main.rs","content":"fn main() {}"}}}"#,
    );

    assert!(session_edited_file_from_conn(
        &conn,
        "ses_001",
        "/home/user/project/src/main.rs"
    ));
    assert!(!session_edited_file_from_conn(
        &conn,
        "ses_001",
        "/home/user/project/src/lib.rs"
    ));
}

#[test]
fn test_session_edited_file_from_conn_snake_case_field() {
    let conn = setup_test_db();
    insert_message(&conn, "msg_001", "ses_001", "assistant", 1705314600000);
    insert_part(
        &conn,
        "prt_001",
        "msg_001",
        "ses_001",
        1705314600000,
        r#"{"type":"tool","tool":"write","state":{"status":"completed","input":{"file_path":"/home/user/src/main.rs","content":"fn main() {}"}}}"#,
    );

    assert!(session_edited_file_from_conn(
        &conn,
        "ses_001",
        "/home/user/src/main.rs"
    ));
}

#[test]
fn test_session_edited_file_from_conn_ignores_non_write() {
    let conn = setup_test_db();
    insert_message(&conn, "msg_001", "ses_001", "assistant", 1705314600000);
    insert_part(
        &conn,
        "prt_001",
        "msg_001",
        "ses_001",
        1705314600000,
        r#"{"type":"tool","tool":"read","state":{"status":"completed","input":{"filePath":"/home/user/src/main.rs"}}}"#,
    );

    assert!(!session_edited_file_from_conn(
        &conn,
        "ses_001",
        "/home/user/src/main.rs"
    ));
}

#[test]
fn test_session_edited_file_from_conn_ignores_text_parts() {
    let conn = setup_test_db();
    insert_message(&conn, "msg_001", "ses_001", "user", 1705314600000);
    insert_part(
        &conn,
        "prt_001",
        "msg_001",
        "ses_001",
        1705314600000,
        r#"{"type":"text","text":"/home/user/src/main.rs"}"#,
    );

    assert!(!session_edited_file_from_conn(
        &conn,
        "ses_001",
        "/home/user/src/main.rs"
    ));
}

#[test]
fn test_session_edited_file_from_conn_empty_session() {
    let conn = setup_test_db();
    assert!(!session_edited_file_from_conn(
        &conn,
        "ses_missing",
        "/home/user/src/main.rs"
    ));
}

// === session_matches_filters tests ===

#[test]
fn test_session_matches_filters_text_contains() {
    let conn = setup_test_db();
    insert_session(
        &conn,
        "ses_001",
        None,
        "/proj",
        "Test",
        1705314600000,
        1705314605000,
    );
    insert_message(&conn, "msg_001", "ses_001", "assistant", 1705314600000);
    insert_part(
        &conn,
        "prt_001",
        "msg_001",
        "ses_001",
        1705314600000,
        r#"{"type":"text","text":"Hello world, this is a test message"}"#,
    );

    let filters = vec![SessionFilter {
        depth: 0,
        criteria: vec![FilterCriterion::TextContains(
            "this is a test".to_string(),
        )],
    }];

    assert!(session_matches_filters_from_conn(
        &conn, "ses_001", &filters, 5, "/proj"
    ));

    // Non-matching text
    let filters_bad = vec![SessionFilter {
        depth: 0,
        criteria: vec![FilterCriterion::TextContains(
            "nonexistent text".to_string(),
        )],
    }];
    assert!(!session_matches_filters_from_conn(
        &conn,
        "ses_001",
        &filters_bad,
        5,
        "/proj"
    ));
}

#[test]
fn test_session_matches_filters_text_contains_in_tool_output() {
    let conn = setup_test_db();
    insert_session(
        &conn,
        "ses_001",
        None,
        "/proj",
        "Test",
        1705314600000,
        1705314605000,
    );
    insert_message(&conn, "msg_001", "ses_001", "assistant", 1705314600000);
    // Only a tool part with output — no text parts at all
    insert_part(
        &conn,
        "prt_001",
        "msg_001",
        "ses_001",
        1705314600000,
        r#"{"type":"tool","tool":"bash","state":{"input":{"command":"tmux capture-pane -t %616 -p"},"output":"╭ vaab@wen ~/dev/charm/0k-charms ── 6m59 2026-03-16 15:05:24\n╰ $"}}"#,
    );

    // TextContains should find text inside tool output
    let filters = vec![SessionFilter {
        depth: 0,
        criteria: vec![FilterCriterion::TextContains(
            "vaab@wen ~/dev/charm/0k-charms".to_string(),
        )],
    }];
    assert!(session_matches_filters_from_conn(
        &conn, "ses_001", &filters, 5, "/proj"
    ));

    // Non-matching text still fails
    let filters_bad = vec![SessionFilter {
        depth: 0,
        criteria: vec![FilterCriterion::TextContains(
            "nonexistent output".to_string(),
        )],
    }];
    assert!(!session_matches_filters_from_conn(
        &conn,
        "ses_001",
        &filters_bad,
        5,
        "/proj"
    ));
}

#[test]
fn test_session_matches_filters_tool_field_equals() {
    let conn = setup_test_db();
    insert_session(
        &conn,
        "ses_001",
        None,
        "/proj",
        "Test",
        1705314600000,
        1705314605000,
    );
    insert_message(&conn, "msg_001", "ses_001", "assistant", 1705314600000);
    insert_part(
        &conn,
        "prt_001",
        "msg_001",
        "ses_001",
        1705314600000,
        r#"{"type":"tool","tool":"grep","state":{"input":{"pattern":"foo","path":"src/"},"output":"found"}}"#,
    );

    let filters = vec![SessionFilter {
        depth: 0,
        criteria: vec![FilterCriterion::ToolFieldEquals {
            tool_name: "grep".to_string(),
            field: "pattern".to_string(),
            value: "foo".to_string(),
        }],
    }];

    assert!(session_matches_filters_from_conn(
        &conn, "ses_001", &filters, 5, "/proj"
    ));

    // Wrong tool name
    let filters_bad = vec![SessionFilter {
        depth: 0,
        criteria: vec![FilterCriterion::ToolFieldEquals {
            tool_name: "read".to_string(),
            field: "pattern".to_string(),
            value: "foo".to_string(),
        }],
    }];
    assert!(!session_matches_filters_from_conn(
        &conn,
        "ses_001",
        &filters_bad,
        5,
        "/proj"
    ));
}

#[test]
fn test_session_matches_filters_tool_field_prefix_match() {
    let conn = setup_test_db();
    insert_session(
        &conn,
        "ses_001",
        None,
        "/proj",
        "Test",
        1705314600000,
        1705314605000,
    );
    insert_message(&conn, "msg_001", "ses_001", "assistant", 1705314600000);
    insert_part(
        &conn,
        "prt_001",
        "msg_001",
        "ses_001",
        1705314600000,
        r#"{"type":"tool","tool":"interactive_bash","state":{"input":{"tmux_command":"send-keys -t %581 \"Rathole server connection details for vps-03.0k.io: Server host: vps-03 -- Port: 2333 -- Token: abc123\""},"output":"(no output)"}}"#,
    );

    // Truncated prefix (as TUI would show) should match
    let filters = vec![SessionFilter {
        depth: 0,
        criteria: vec![FilterCriterion::ToolFieldEquals {
            tool_name: "interactive_bash".to_string(),
            field: "tmux_command".to_string(),
            value:
                "send-keys -t %581 \"Rathole server connection details for vps-03.0k.io: Server"
                    .to_string(),
        }],
    }];
    assert!(session_matches_filters_from_conn(
        &conn, "ses_001", &filters, 5, "/proj"
    ));

    // Exact match still works
    let filters_exact = vec![SessionFilter {
        depth: 0,
        criteria: vec![FilterCriterion::ToolFieldEquals {
            tool_name: "interactive_bash".to_string(),
            field: "tmux_command".to_string(),
            value: "send-keys -t %581 \"Rathole server connection details for vps-03.0k.io: Server host: vps-03 -- Port: 2333 -- Token: abc123\"".to_string(),
        }],
    }];
    assert!(session_matches_filters_from_conn(
        &conn,
        "ses_001",
        &filters_exact,
        5,
        "/proj"
    ));

    // Wrong prefix should not match
    let filters_bad = vec![SessionFilter {
        depth: 0,
        criteria: vec![FilterCriterion::ToolFieldEquals {
            tool_name: "interactive_bash".to_string(),
            field: "tmux_command".to_string(),
            value: "send-keys -t %999 \"Something else".to_string(),
        }],
    }];
    assert!(!session_matches_filters_from_conn(
        &conn,
        "ses_001",
        &filters_bad,
        5,
        "/proj"
    ));
}

#[test]
fn test_session_matches_filters_combined_criteria() {
    let conn = setup_test_db();
    insert_session(
        &conn,
        "ses_001",
        None,
        "/proj",
        "Test",
        1705314600000,
        1705314605000,
    );
    insert_message(&conn, "msg_001", "ses_001", "assistant", 1705314600000);
    insert_part(
        &conn,
        "prt_001",
        "msg_001",
        "ses_001",
        1705314600000,
        r#"{"type":"text","text":"Implementing the new feature"}"#,
    );
    insert_part(
        &conn,
        "prt_002",
        "msg_001",
        "ses_001",
        1705314600100,
        r#"{"type":"tool","tool":"read","state":{"input":{"filePath":"/proj/src/main.rs"},"output":"fn main(){}"}}"#,
    );

    // Both criteria must match in the same message.
    // The filter value is relative — it gets resolved against project_dir "/proj".
    let filters = vec![SessionFilter {
        depth: 0,
        criteria: vec![
            FilterCriterion::TextContains("new feature".to_string()),
            FilterCriterion::ToolFieldEquals {
                tool_name: "read".to_string(),
                field: "filePath".to_string(),
                value: "src/main.rs".to_string(),
            },
        ],
    }];

    assert!(session_matches_filters_from_conn(
        &conn, "ses_001", &filters, 5, "/proj"
    ));
}

#[test]
fn test_session_matches_filters_empty_session() {
    let conn = setup_test_db();
    let filters = vec![SessionFilter {
        depth: 0,
        criteria: vec![FilterCriterion::TextContains(
            "anything".to_string(),
        )],
    }];
    assert!(!session_matches_filters_from_conn(
        &conn,
        "ses_missing",
        &filters,
        5,
        ""
    ));
}

#[test]
fn test_session_matches_filters_window_limit() {
    let conn = setup_test_db();
    insert_session(
        &conn,
        "ses_001",
        None,
        "/proj",
        "Test",
        1705314600000,
        1705314605000,
    );
    insert_message(&conn, "msg_001", "ses_001", "user", 1705314600000);
    insert_message(&conn, "msg_002", "ses_001", "assistant", 1705314601000);
    insert_message(&conn, "msg_003", "ses_001", "user", 1705314602000);

    insert_part(
        &conn,
        "prt_001",
        "msg_001",
        "ses_001",
        1705314600000,
        r#"{"type":"text","text":"old message content"}"#,
    );
    insert_part(
        &conn,
        "prt_003",
        "msg_003",
        "ses_001",
        1705314602000,
        r#"{"type":"text","text":"latest message content"}"#,
    );

    let filters = vec![SessionFilter {
        depth: 0,
        criteria: vec![FilterCriterion::TextContains(
            "old message".to_string(),
        )],
    }];

    // Window of 1 should NOT find old message (only msg_003 is in window)
    assert!(!session_matches_filters_from_conn(
        &conn, "ses_001", &filters, 1, "/proj"
    ));

    // Window of 3 SHOULD find it
    assert!(session_matches_filters_from_conn(
        &conn, "ses_001", &filters, 3, "/proj"
    ));
}

#[test]
fn fetch_info_returns_basic_metadata() {
    let conn = setup_test_db();
    insert_session(&conn, "ses_001", None,
        "/home/u/proj",
        "My session",
        1_700_000_000_000,
        1_700_000_010_000,
    );
    insert_data(
        &conn,
        "msg_u",
        "ses_001",
        1_700_000_001_000,
        r#"{"role":"user","time":{"created":1700000001000}}"#,
    );
    insert_data(
        &conn,
        "msg_a",
        "ses_001",
        1_700_000_002_000,
        r#"{"role":"assistant","time":{"created":1700000002000,"completed":1700000003000},"agent":"build","modelID":"opus-4-7","providerID":"anthropic"}"#,
    );
    insert_part(
        &conn,
        "prt_text",
        "msg_a",
        "ses_001",
        1_700_000_002_500,
        r#"{"type":"text","text":"hi"}"#,
    );
    insert_part(
        &conn,
        "prt_tool",
        "msg_a",
        "ses_001",
        1_700_000_002_600,
        r#"{"type":"tool","tool":"bash","state":{"status":"completed"}}"#,
    );

    let info = fetch_info_from_conn(&conn, "ses_001").unwrap();
    assert_eq!(info.session_id, "ses_001");
    assert_eq!(info.provider, Provider::OpenCode);
    assert_eq!(info.project_dir.as_deref(), Some("/home/u/proj"));
    assert_eq!(info.title.as_deref(), Some("My session"));
    assert_eq!(info.message_count, 2);
    assert_eq!(info.tool_call_count, 1);
    assert_eq!(info.static_status, Some(StaticStatus::Completed));
    assert!(!info.aborted);
    assert_eq!(info.agent.as_deref(), Some("build"));
    assert_eq!(info.model.as_deref(), Some("anthropic/opus-4-7"));
}

#[test]
fn fetch_info_unknown_session_errors() {
    let conn = setup_test_db();
    let err = fetch_info_from_conn(&conn, "ses_missing").unwrap_err();
    assert!(err.contains("session not found"));
    assert!(err.contains("ses_missing"));
}

#[test]
fn fetch_info_marks_errored_completed_as_aborted() {
    let conn = setup_test_db();
    insert_session(&conn, "ses_err", None, "/p", "t", 1_000_000, 2_000_000);
    insert_data(
        &conn,
        "msg_a",
        "ses_err",
        1_500_000,
        r#"{"role":"assistant","time":{"completed":1800000},"error":{"name":"APIError"}}"#,
    );
    insert_part(
        &conn,
        "prt_step",
        "msg_a",
        "ses_err",
        1_600_000,
        r#"{"type":"step-start"}"#,
    );
    insert_part(
        &conn,
        "prt_text",
        "msg_a",
        "ses_err",
        1_700_000,
        r#"{"type":"text","text":"partial"}"#,
    );

    let info = fetch_info_from_conn(&conn, "ses_err").unwrap();
    assert_eq!(info.static_status, Some(StaticStatus::AssistantPartial));
    assert!(info.aborted);
}

#[test]
fn fetch_info_user_pending_is_not_aborted() {
    let conn = setup_test_db();
    insert_session(&conn, "ses_u", None, "/p", "t", 1_000_000, 2_000_000);
    insert_data(
        &conn,
        "msg_u",
        "ses_u",
        1_500_000,
        r#"{"role":"user","time":{"created":1500000}}"#,
    );

    let info = fetch_info_from_conn(&conn, "ses_u").unwrap();
    assert_eq!(info.static_status, Some(StaticStatus::UserPending));
    assert!(!info.aborted);
}

#[test]
fn fetch_info_empty_directory_renders_as_none() {
    let conn = setup_test_db();
    insert_session(&conn, "ses_empty", None, "", "", 1_000_000, 2_000_000);

    let info = fetch_info_from_conn(&conn, "ses_empty").unwrap();
    assert!(info.project_dir.is_none());
    assert!(info.title.is_none());
}

#[test]
fn fetch_info_carries_parent_id() {
    let conn = setup_test_db();
    insert_session(&conn, "ses_child", Some("ses_parent"), "/p", "", 1, 2);

    let info = fetch_info_from_conn(&conn, "ses_child").unwrap();
    assert_eq!(info.parent_session_id.as_deref(), Some("ses_parent"));
}

#[test]
fn fetch_info_tool_stuck_is_aborted() {
    let conn = setup_test_db();
    insert_session(&conn, "ses_t", None, "/p", "t", 1_000_000, 2_000_000);
    insert_data(
        &conn,
        "msg_a",
        "ses_t",
        1_500_000,
        r#"{"role":"assistant","time":{"created":1500000}}"#,
    );
    insert_part(
        &conn,
        "prt_tool",
        "msg_a",
        "ses_t",
        1_600_000,
        r#"{"type":"tool","state":{"status":"running"}}"#,
    );

    let info = fetch_info_from_conn(&conn, "ses_t").unwrap();
    assert_eq!(info.static_status, Some(StaticStatus::AssistantToolStuck));
    assert!(info.aborted);
}

#[test]
fn fetch_last_message_meta_reads_fixture_shapes() {
    let conn = setup_test_db();
    insert_ended_session(&conn, "ses_completed", "msg_completed", "assistant", true);
    insert_part_at(&conn, "prt_completed", "msg_completed", r#"{"type":"text","text":"done"}"#, 1600);
    insert_ended_session(&conn, "ses_user", "msg_user", "user", false);
    insert_ended_session(&conn, "ses_empty", "msg_empty", "assistant", false);
    insert_ended_session(&conn, "ses_partial", "msg_partial", "assistant", false);
    insert_part_at(&conn, "prt_partial", "msg_partial", r#"{"type":"text","text":"partial"}"#, 1600);
    insert_ended_session(&conn, "ses_tool", "msg_tool", "assistant", false);
    insert_part_at(&conn, "prt_tool", "msg_tool", r#"{"type":"tool","state":{"status":"running"}}"#, 1600);

    let meta = fetch_last_message_meta(&conn, &[]).unwrap();

    assert_eq!(
        classify_static(meta.get("ses_completed").unwrap()),
        StaticStatus::Completed
    );
    assert_eq!(
        classify_static(meta.get("ses_user").unwrap()),
        StaticStatus::UserPending
    );
    assert_eq!(
        classify_static(meta.get("ses_empty").unwrap()),
        StaticStatus::AssistantEmpty
    );
    assert_eq!(
        classify_static(meta.get("ses_partial").unwrap()),
        StaticStatus::AssistantPartial
    );
    assert_eq!(
        classify_static(meta.get("ses_tool").unwrap()),
        StaticStatus::AssistantToolStuck
    );
}

#[test]
fn fetch_last_user_message_returns_text_for_user_pending_session() {
    let conn = setup_test_db();
    // user-pending shape: only one user message, no assistant follow-up.
    insert_session(&conn, "ses_1", None, "", "", 1000, 2000);
    insert_message_at(&conn, "msg_user", "ses_1", "user", 1500);
    insert_part_at(
        &conn,
        "prt_text",
        "msg_user",
        r#"{"type":"text","text":"do the thing"}"#,
        1600,
    );

    let payload = fetch_last_user_message(&conn, "ses_1").unwrap().unwrap();
    assert_eq!(payload.user_msg_id, "msg_user");
    assert_eq!(payload.text, "do the thing");
}

#[test]
fn fetch_last_user_message_picks_most_recent_user_message() {
    let conn = setup_test_db();
    insert_session(&conn, "ses_1", None, "", "", 1000, 2000);
    // Older user message — should be ignored.
    insert_message_at(&conn, "msg_user_old", "ses_1", "user", 1000);
    insert_part_at(
        &conn,
        "prt_old",
        "msg_user_old",
        r#"{"type":"text","text":"original request"}"#,
        1100,
    );
    // Newer user message (e.g. follow-up) — should be picked.
    insert_message_at(&conn, "msg_user_new", "ses_1", "user", 2000);
    insert_part_at(
        &conn,
        "prt_new",
        "msg_user_new",
        r#"{"type":"text","text":"follow up"}"#,
        2100,
    );
    // Empty assistant stub between/after — must not be picked.
    insert_message_at(&conn, "msg_assist", "ses_1", "assistant", 2500);

    let payload = fetch_last_user_message(&conn, "ses_1").unwrap().unwrap();
    assert_eq!(payload.user_msg_id, "msg_user_new");
    assert_eq!(payload.text, "follow up");
}

#[test]
fn fetch_last_user_message_concatenates_multiple_text_parts() {
    let conn = setup_test_db();
    insert_session(&conn, "ses_1", None, "", "", 1000, 2000);
    insert_message_at(&conn, "msg_user", "ses_1", "user", 1500);
    insert_part_at(
        &conn,
        "prt_a",
        "msg_user",
        r#"{"type":"text","text":"first line"}"#,
        1600,
    );
    insert_part_at(
        &conn,
        "prt_b",
        "msg_user",
        r#"{"type":"text","text":"second line"}"#,
        1700,
    );
    // Non-text parts must be ignored.
    insert_part_at(
        &conn,
        "prt_file",
        "msg_user",
        r#"{"type":"file","filename":"a.txt"}"#,
        1800,
    );

    let payload = fetch_last_user_message(&conn, "ses_1").unwrap().unwrap();
    assert_eq!(payload.text, "first line\nsecond line");
}

#[test]
fn fetch_last_user_message_returns_none_when_no_user_message() {
    let conn = setup_test_db();
    insert_session(&conn, "ses_1", None, "", "", 1000, 2000);
    // Only an assistant stub; no user message at all.
    insert_message_at(&conn, "msg_assist", "ses_1", "assistant", 1500);

    let payload = fetch_last_user_message(&conn, "ses_1").unwrap();
    assert!(payload.is_none());
}

#[test]
fn fetch_last_user_message_handles_user_with_no_text_parts() {
    // Defensive: if a user message exists but has no text parts
    // (e.g. only attachments), we still return the message id with
    // empty text rather than dropping the session.
    let conn = setup_test_db();
    insert_session(&conn, "ses_1", None, "", "", 1000, 2000);
    insert_message_at(&conn, "msg_user", "ses_1", "user", 1500);
    insert_part_at(
        &conn,
        "prt_file",
        "msg_user",
        r#"{"type":"file","filename":"a.txt"}"#,
        1600,
    );

    let payload = fetch_last_user_message(&conn, "ses_1").unwrap().unwrap();
    assert_eq!(payload.user_msg_id, "msg_user");
    assert_eq!(payload.text, "");
    assert_eq!(payload.agent, None);
    assert_eq!(payload.model, None);
}

/// the new payload extracts `agent` and `model` from
/// the user message's JSON.  This is what `nudge` forwards to
/// opencode's `prompt_async` so the resumed turn keeps the
/// session's original identity rather than falling back to the
/// daemon's `default_agent`.
#[test]
fn fetch_last_user_message_extracts_agent_and_model() {
    let conn = setup_test_db();
    insert_session(&conn, "ses_1", None, "", "", 1000, 2000);
    insert_message_full(
        &conn,
        "msg_user",
        "ses_1",
        "user",
        1500,
        Some("Conductor"),
        Some(("anthropic", "opus-4-5")),
    );
    insert_part_at(
        &conn,
        "prt_text",
        "msg_user",
        r#"{"type":"text","text":"hello"}"#,
        1600,
    );

    let payload = fetch_last_user_message(&conn, "ses_1").unwrap().unwrap();
    assert_eq!(payload.user_msg_id, "msg_user");
    assert_eq!(payload.text, "hello");
    assert_eq!(payload.agent.as_deref(), Some("Conductor"));
    assert_eq!(
        payload.model,
        Some(ResumeModel {
            provider_id: "anthropic".to_string(),
            model_id: "opus-4-5".to_string(),
        })
    );
}

/// when `model` is missing or partial (e.g. only
/// `providerID` recorded), we return `None` rather than fabricate
/// a partial value.  Opencode will then fall back to the agent's
/// configured model, which is the right behavior.
#[test]
fn fetch_last_user_message_missing_model_returns_none() {
    let conn = setup_test_db();
    insert_session(&conn, "ses_1", None, "", "", 1000, 2000);
    // Insert with agent but no model.
    insert_message_full(&conn, "msg_user", "ses_1", "user", 1500, Some("ag"), None);

    let payload = fetch_last_user_message(&conn, "ses_1").unwrap().unwrap();
    assert_eq!(payload.agent.as_deref(), Some("ag"));
    assert_eq!(payload.model, None);
}

/// for AssistantPartial / AssistantToolStuck shapes,
/// the nudge's ContinuePrompt path needs the agent/model from the
/// user message that PRECEDES the broken assistant turn (not the
/// most recent user message in absolute terms, which may not
/// exist or may be unrelated).
#[test]
fn fetch_user_message_before_last_assistant_picks_correct_user() {
    let conn = setup_test_db();
    insert_session(&conn, "ses_1", None, "", "", 1000, 2000);
    // Realistic timeline:
    //   t=1000  user msg with agent=A   (driving turn 1)
    //   t=1100  assistant (completed, turn 1)
    //   t=2000  user msg with agent=B   (driving turn 2 — the broken one)
    //   t=2100  assistant (partial, turn 2 — never completed)
    insert_message_full(
        &conn,
        "msg_u1",
        "ses_1",
        "user",
        1000,
        Some("A"),
        Some(("anthropic", "sonnet-4")),
    );
    insert_message_full(&conn, "msg_a1", "ses_1", "assistant", 1100, None, None);
    insert_message_full(
        &conn,
        "msg_u2",
        "ses_1",
        "user",
        2000,
        Some("B"),
        Some(("openai", "gpt-5")),
    );
    insert_message_full(&conn, "msg_a2", "ses_1", "assistant", 2100, None, None);
    insert_part_at(
        &conn,
        "prt_u2",
        "msg_u2",
        r#"{"type":"text","text":"do thing B"}"#,
        2050,
    );

    let payload = fetch_user_message_before_last_assistant(&conn, "ses_1")
        .unwrap()
        .unwrap();
    assert_eq!(
        payload.user_msg_id, "msg_u2",
        "must pick the user message that drove the last assistant"
    );
    assert_eq!(payload.agent.as_deref(), Some("B"));
    assert_eq!(payload.text, "do thing B");
}

/// defensive: if no assistant message exists, return
/// None.  (In practice this shouldn't happen for AssistantPartial
/// shapes — the classifier would have produced UserPending —
/// but the function should still behave safely.)
#[test]
fn fetch_user_message_before_last_assistant_no_assistant() {
    let conn = setup_test_db();
    insert_session(&conn, "ses_1", None, "", "", 1000, 2000);
    insert_message_full(&conn, "msg_u", "ses_1", "user", 1000, Some("A"), None);

    let payload = fetch_user_message_before_last_assistant(&conn, "ses_1").unwrap();
    assert!(payload.is_none());
}

/// SAFETY BOUNDARY: a session with (user_msg,
/// assistant_msg-with-parts) must NEVER classify as UserPending
/// or AssistantEmpty, because CleanResume on either of those would
/// delete real assistant work.  It must classify as
/// AssistantPartial (or AssistantToolStuck if there's a stuck
/// tool), which routes to ContinuePrompt (preserves the work).
///
/// This guards against a hypothetical regression where the
/// classifier's ordering invariant breaks.
#[test]
fn user_then_assistant_with_parts_never_classifies_as_user_pending_or_empty() {
    let conn = setup_test_db();
    insert_session(&conn, "ses_1", None, "", "", 1000, 2000);
    // User message FIRST, then assistant message AFTER with a part.
    insert_message_at(&conn, "msg_u", "ses_1", "user", 1000);
    insert_message_at(&conn, "msg_a", "ses_1", "assistant", 2000);
    insert_part_at(
        &conn,
        "prt_a",
        "msg_a",
        r#"{"type":"text","text":"partial reply"}"#,
        2100,
    );

    let meta = fetch_last_message_meta(&conn, &[]).unwrap();
    let entry = meta.get("ses_1").unwrap();
    let status = classify_static(entry);
    assert_ne!(
        status,
        StaticStatus::UserPending,
        "classifier MUST NOT return UserPending while a partial assistant exists \
         (would cause CleanResume to delete the partial work). entry={:?}",
        entry
    );
    assert_ne!(
        status,
        StaticStatus::AssistantEmpty,
        "classifier MUST NOT return AssistantEmpty when assistant has parts \
         (would cause CleanResume to delete the partial work). entry={:?}",
        entry
    );
    assert_eq!(
        status,
        StaticStatus::AssistantPartial,
        "expected AssistantPartial for (user, assistant-with-parts) shape"
    );
}

/// the same boundary, with a stuck tool: must be
/// classified as AssistantToolStuck, never UserPending/Empty.
#[test]
fn user_then_assistant_with_stuck_tool_classifies_as_tool_stuck() {
    let conn = setup_test_db();
    insert_session(&conn, "ses_1", None, "", "", 1000, 2000);
    insert_message_at(&conn, "msg_u", "ses_1", "user", 1000);
    insert_message_at(&conn, "msg_a", "ses_1", "assistant", 2000);
    insert_part_at(
        &conn,
        "prt_tool",
        "msg_a",
        r#"{"type":"tool","state":{"status":"running"}}"#,
        2100,
    );

    let meta = fetch_last_message_meta(&conn, &[]).unwrap();
    let status = classify_static(meta.get("ses_1").unwrap());
    assert_eq!(status, StaticStatus::AssistantToolStuck);
}
