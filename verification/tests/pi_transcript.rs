use ai_audit::pi::transcript::parse_transcript;
use ai_audit::transcript::{EntryType, Role, TranscriptEntry};

/// A text without the indentation of its lines and without its first line break.
fn unindented(text: &str) -> String {
    let lines: Vec<&str> = text.lines().map(str::trim_start).collect();
    lines.join("\n").trim_start_matches('\n').to_string()
}

fn parse_transcript_from_file(text: &str) -> Option<Vec<TranscriptEntry>> {
    let lines = text.lines().map(str::to_string).collect();
    Some(ai_audit::pi::transcript::parse_transcript_from_file(&lines))
}

#[test]
fn a_session_without_a_file_is_an_error() {
    let error = parse_transcript("ses_x", None).err().unwrap();
    assert!(error.contains("ses_x"));
    assert!(parse_transcript("ses_x", Some(&Vec::new())).unwrap().is_empty());
}

#[test]
fn test_parse_transcript_text_thinking_toolcall() {
    let f = unindented(r#"
        {"type":"session","version":3,"id":"x","timestamp":"2026-04-30T09:36:43Z","cwd":"/tmp"}
        {"type":"message","id":"u","timestamp":"2026-04-30T09:37:00Z","message":{"role":"user","content":[{"type":"text","text":"please refactor"}]}}
        {"type":"message","id":"a","timestamp":"2026-04-30T09:37:01Z","message":{"role":"assistant","content":[{"type":"thinking","thinking":"I will read the file"},{"type":"text","text":"Reading now"},{"type":"toolCall","id":"tc1","name":"read","arguments":{"path":"/foo"}}]}}
        {"type":"message","id":"tr","timestamp":"2026-04-30T09:37:02Z","message":{"role":"toolResult","toolCallId":"tc1","toolName":"read","content":[{"type":"text","text":"file contents"}]}}
    "#);

    let entries = parse_transcript_from_file(&f).unwrap();
    assert_eq!(entries.len(), 5);

    // 1. user text
    assert!(matches!(entries[0].entry_type, EntryType::Text));
    assert!(matches!(entries[0].role, Role::User));
    assert_eq!(entries[0].content, "please refactor");

    // 2. assistant thinking
    assert!(matches!(entries[1].entry_type, EntryType::Thinking));
    assert!(matches!(entries[1].role, Role::Assistant));
    assert!(entries[1].content.contains("I will read"));

    // 3. assistant text
    assert!(matches!(entries[2].entry_type, EntryType::Text));
    assert!(matches!(entries[2].role, Role::Assistant));

    // 4. assistant toolCall
    assert!(matches!(entries[3].entry_type, EntryType::ToolUse));
    assert_eq!(entries[3].tool_name.as_deref(), Some("read"));
    assert!(entries[3].tool_input.is_some());

    // 5. tool result
    assert!(matches!(entries[4].entry_type, EntryType::ToolResult));
    assert!(matches!(entries[4].role, Role::User));
    assert_eq!(entries[4].tool_name.as_deref(), Some("read"));
    assert_eq!(entries[4].content, "file contents");
}

#[test]
fn test_parse_transcript_skips_non_message() {
    let f = unindented(r#"
        {"type":"session","version":3,"id":"x","timestamp":"2026-04-30T09:36:43Z","cwd":"/tmp"}
        {"type":"model_change","id":"m","timestamp":"2026-04-30T09:36:44Z","provider":"x","modelId":"y"}
        {"type":"message","id":"u","timestamp":"2026-04-30T09:37:00Z","message":{"role":"user","content":"hi"}}
    "#);
    let entries = parse_transcript_from_file(&f).unwrap();
    assert_eq!(entries.len(), 1);
    assert!(matches!(entries[0].role, Role::User));
    assert_eq!(entries[0].content, "hi");
}

#[test]
fn test_parse_transcript_string_content_user() {
    // Pi user messages can have content as a plain string (not an array).
    let f = unindented(r#"
        {"type":"session","version":3,"id":"x","timestamp":"2026-04-30T09:36:43Z","cwd":"/tmp"}
        {"type":"message","id":"u","timestamp":"2026-04-30T09:37:00Z","message":{"role":"user","content":"plain string"}}
    "#);
    let entries = parse_transcript_from_file(&f).unwrap();
    assert_eq!(entries.len(), 1);
    assert_eq!(entries[0].content, "plain string");
}
