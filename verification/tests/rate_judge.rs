use ai_audit::opencode::run::{Launch, ProcessEnd};
use ai_audit::rate::agent::{extract_session_id, invoke_agent, AgentLaunch, AgentResult};
use ai_audit::rate::cache::report_dir;
use ai_audit::rate::hash::read_file_hash;
use ai_audit::rate::judge::{
    build_judge_message, extract_frontmatter, extract_text_from_json, invoke_judge,
    looks_like_judgement, request_judgement, JudgeFrontmatter, JudgeRating, JudgeRequest,
};
use ai_audit::time::Timestamp;

fn parse_rfc3339(text: &str) -> Option<Timestamp> {
    let t = chrono::DateTime::parse_from_rfc3339(text).ok()?;
    Some(Timestamp { secs: t.timestamp(), nanos: t.timestamp_subsec_nanos() })
}

fn now() -> Timestamp {
    parse_rfc3339("2025-01-29T10:30:00Z").unwrap()
}

fn text(document: &serde_yaml::Value, key: &str) -> Option<String> {
    document.get(key)?.as_str().map(str::to_string)
}

fn count(document: &serde_yaml::Value, key: &str) -> Option<u32> {
    u32::try_from(document.get(key)?.as_u64()?).ok()
}

fn read_frontmatter(yaml: &str) -> Option<JudgeFrontmatter> {
    let document: serde_yaml::Value = serde_yaml::from_str(yaml).ok()?;
    Some(JudgeFrontmatter {
        points: count(&document, "points")?,
        max_points: count(&document, "max_points")?,
        test_name: text(&document, "test_name")?,
        agent_model: text(&document, "agent_model")?,
        judge_model: text(&document, "judge_model")?,
        timestamp: parse_rfc3339(&text(&document, "timestamp")?)?,
    })
}

fn parse_judge_output(output: &str) -> Result<JudgeRating, String> {
    ai_audit::rate::parse_judge_output(output, read_frontmatter)
}

const JUDGEMENT: &str =
    "---\npoints: 1\nmax_points: 2\ntest_name: t\nagent_model: a\njudge_model: j\ntimestamp: 2025-01-29T10:30:00Z\n---\n\n# Report\n";

#[test]
fn frontmatter_stands_between_dashes() {
    assert_eq!(extract_frontmatter("---\na: 1\n---\nrest"), Ok("\na: 1".to_string()));
    assert!(looks_like_judgement(JUDGEMENT).is_ok());
    assert!(looks_like_judgement("no judgement").is_err());
}

#[test]
fn judges_are_told_what_to_judge() {
    let checklist = vec!["first".to_string(), "second".to_string()];
    let message = build_judge_message("t", "a", "j", &checklist, "the output");
    assert!(message.contains("first"));
    assert!(message.contains("second"));
    assert!(message.contains("the output"));
}

fn request(checklist: &Vec<String>) -> JudgeRequest<'_> {
    JudgeRequest {
        prompt_path: "/p.md",
        agent_output: "out",
        checklist,
        test_name: "t",
        agent_model: "a",
        judge_model: "j",
        timeout_secs: 7,
    }
}

fn event(output: &str) -> Vec<String> {
    let quoted = serde_json::Value::String(output.to_string()).to_string();
    vec![
        r#"{"type":"session","id":"x"}"#.to_string(),
        format!(
            r#"{{"type":"agent_end","messages":[{{"role":"assistant","content":[{{"type":"text","text":{}}}]}}]}}"#,
            quoted
        ),
    ]
}

#[test]
fn a_judge_without_a_prompt_is_not_started() {
    let checklist = Vec::new();
    let (starts, refused) = invoke_judge(
        &request(&checklist),
        false,
        "/p.md",
        0,
        |starts: u32, _: &Vec<String>, _: u64| (starts + 1, Launch::NotFound),
        read_frontmatter,
    );
    assert!(refused.err().unwrap().contains("/p.md"));
    assert_eq!(starts, 0);
    assert!(request_judgement(&request(&checklist), false, "/p.md").is_err());
    assert_eq!(request_judgement(&request(&checklist), true, "/p.md").unwrap().1, 7);
}

#[test]
fn a_judgement_is_read_from_what_the_judge_printed() {
    let checklist = Vec::new();
    let rating = invoke_judge(
        &request(&checklist),
        true,
        "/p.md",
        (),
        |_: (), _: &Vec<String>, secs: u64| {
            assert_eq!(secs, 7);
            let end = ProcessEnd::Exited(Some(0));
            ((), Launch::Ran { printed: event(JUDGEMENT), log: Vec::new(), end })
        },
        read_frontmatter,
    )
    .1
    .unwrap();
    assert_eq!((rating.points, rating.max_points), (1, 2));
    let cut_short = invoke_judge(
        &request(&checklist),
        true,
        "/p.md",
        (),
        |_: (), _: &Vec<String>, _: u64| {
            let end = ProcessEnd::Exited(Some(0));
            ((), Launch::Ran { printed: event("I will look at"), log: Vec::new(), end })
        },
        read_frontmatter,
    );
    assert!(cut_short.1.is_err());
}

#[test]
fn test_invoke_agent_command_not_found() {
    let result = invoke_agent(
        "/tmp/test_instruction.txt",
        "nonexistent-agent",
        "fake-model",
        1,
        (),
        |_: (), _: &Vec<String>, _: u64| ((), AgentLaunch::NotFound),
    )
    .1;
    assert!(result.is_err());
}

#[test]
fn agents_end_in_several_ways() {
    let run = |launch: fn() -> AgentLaunch| {
        let start = |starts: u32, args: &Vec<String>, secs: u64| {
            assert_eq!(args.last().map(String::as_str), Some("/i"));
            assert_eq!(secs, 9);
            (starts + 1, launch())
        };
        let (starts, result) = invoke_agent("/i", "ag", "m", 9, 0, start);
        assert_eq!(starts, 1);
        result
    };
    assert!(run(|| AgentLaunch::TimedOut).err().unwrap().contains("9"));
    assert!(run(|| AgentLaunch::Failed("no".to_string())).err().unwrap().contains("no"));
    assert_eq!(run(|| AgentLaunch::Lost("gone".to_string())).err(), Some("gone".to_string()));
    let failed = run(|| AgentLaunch::Ended {
        stdout: String::new(),
        stderr: "broken".to_string(),
        code: Some(2),
    });
    assert!(failed.is_err());
    let done = run(|| AgentLaunch::Ended {
        stdout: "{\"sessionID\":\"ses_1\"}\n".to_string(),
        stderr: String::new(),
        code: Some(0),
    })
    .unwrap();
    assert_eq!(done.session_id.as_deref(), Some("ses_1"));
}

fn should_skip_cached(exists: bool, no_cache: bool) -> bool {
    ai_audit::rate::should_skip_cached(exists, no_cache)
}

#[test]
fn test_should_skip_cached_no_cache_flag() {
    assert!(!should_skip_cached(true, true));
}

#[test]
fn test_should_skip_cached_file_exists() {
    assert!(should_skip_cached(true, false));
}

#[test]
fn test_should_skip_cached_file_not_exists() {
    assert!(!should_skip_cached(false, false));
}

#[test]
fn test_ensure_report_dir() {
    assert_eq!(report_dir("/t/a/b/c/report.json").as_deref(), Some("/t/a/b/c"));
}

#[test]
fn file_hashes_are_read_from_what_was_printed() {
    let name = "0123456789abcdef0123456789abcdef01234567";
    assert_eq!(read_file_hash(&format!("{}\n", name)), Ok(name.to_string()));
    assert!(read_file_hash("short\n").is_err());
}

#[test]
fn test_judge_rating_clone() {
    let rating = JudgeRating {
        points: 5,
        max_points: 10,
        test_name: "test".to_string(),
        agent_model: "agent".to_string(),
        judge_model: "judge".to_string(),
        timestamp: now(),
        full_report: "report".to_string(),
    };
    let cloned = rating.clone();
    assert_eq!(cloned.points, rating.points);
    assert_eq!(cloned.test_name, rating.test_name);
}

#[test]
fn test_parse_judge_output_valid() {
    let output = r#"---
points: 8
max_points: 11
test_name: example-test
agent_model: sonnet
judge_model: opus
timestamp: 2025-01-29T10:30:00Z
---

# Rating Report

## Checklist Results

- [x] First item: PASS - Good work
- [ ] Second item: FAIL - Missing implementation
- [x] Third item: PASS - Works correctly

## Summary

The agent completed most requirements successfully.
"#;

    let rating = parse_judge_output(output).unwrap();
    assert_eq!(rating.points, 8);
    assert_eq!(rating.max_points, 11);
    assert_eq!(rating.test_name, "example-test");
    assert_eq!(rating.agent_model, "sonnet");
    assert_eq!(rating.judge_model, "opus");
    assert_eq!(rating.full_report, output);
}

#[test]
fn test_parse_judge_output_missing_frontmatter() {
    let output = "# Rating Report\n\nNo YAML here.";

    let result = parse_judge_output(output);
    assert!(result.is_err());
    assert!(result.unwrap_err().contains("missing YAML frontmatter"));
}

#[test]
fn test_parse_judge_output_unclosed_frontmatter() {
    let output = r#"---
points: 5
max_points: 10
# Missing closing ---
"#;

    let result = parse_judge_output(output);
    assert!(result.is_err());
    assert!(result.unwrap_err().contains("unclosed YAML frontmatter"));
}

#[test]
fn test_parse_judge_output_invalid_yaml() {
    let output = r#"---
points: not_a_number
max_points: 10
---
"#;

    let result = parse_judge_output(output);
    assert!(result.is_err());
    assert!(result.unwrap_err().contains("Failed to parse YAML"));
}

#[test]
fn test_parse_judge_output_points_exceed_max() {
    let output = r#"---
points: 15
max_points: 10
test_name: test
agent_model: agent
judge_model: judge
timestamp: 2025-01-29T10:30:00Z
---
"#;

    let result = parse_judge_output(output);
    assert!(result.is_err());
    assert!(result.unwrap_err().contains("exceeds max_points"));
}

#[test]
fn test_parse_judge_output_missing_required_field() {
    let output = r#"---
points: 5
max_points: 10
---
"#;

    let result = parse_judge_output(output);
    assert!(result.is_err());
    // serde_yaml will error on missing required field
}

#[test]
fn test_parse_judge_output_zero_points() {
    let output = r#"---
points: 0
max_points: 5
test_name: zero-test
agent_model: agent
judge_model: judge
timestamp: 2025-01-29T10:30:00Z
---

# Report
All items failed.
"#;

    let rating = parse_judge_output(output).unwrap();
    assert_eq!(rating.points, 0);
    assert_eq!(rating.max_points, 5);
}

#[test]
fn test_parse_judge_output_perfect_score() {
    let output = r#"---
points: 10
max_points: 10
test_name: perfect-test
agent_model: agent
judge_model: judge
timestamp: 2025-01-29T10:30:00Z
---

# Report
Perfect score!
"#;

    let rating = parse_judge_output(output).unwrap();
    assert_eq!(rating.points, 10);
    assert_eq!(rating.max_points, 10);
}

#[test]
fn test_extract_text_from_json() {
    let json_output = r#"{"sessionID":"ses_abc123","type":"start"}
{"type":"text","part":{"text":"---\npoints: 5\n"}}
{"type":"text","part":{"text":"max_points: 10\n---"}}
{"type":"end"}"#;

    let text = extract_text_from_json(json_output);
    assert_eq!(text, "---\npoints: 5\nmax_points: 10\n---");
}

#[test]
fn test_extract_text_from_json_empty() {
    let json_output = r#"{"sessionID":"ses_abc123","type":"start"}
{"type":"end"}"#;

    let text = extract_text_from_json(json_output);
    assert_eq!(text, "");
}

#[test]
fn test_extract_session_id() {
    let output = r#"{"sessionID":"ses_abc123","type":"start"}
{"type":"text","part":{"text":"Hello"}}
{"type":"end"}"#;

    let session_id = extract_session_id(output);
    assert_eq!(session_id, Some("ses_abc123".to_string()));
}

#[test]
fn test_extract_session_id_not_found() {
    let output = r#"{"type":"text","part":{"text":"Hello"}}
{"type":"end"}"#;

    let session_id = extract_session_id(output);
    assert_eq!(session_id, None);
}

#[test]
fn test_agent_result_clone() {
    let result = AgentResult {
        output: "test output".to_string(),
        session_id: Some("ses_123".to_string()),
    };
    let cloned = result.clone();
    assert_eq!(cloned.output, result.output);
    assert_eq!(cloned.session_id, result.session_id);
}
