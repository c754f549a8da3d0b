use ai_audit::opencode::cache::{
    build_cache_key, cache_dir, cache_path, read_object_name, sanitize_for_filename, TokenUsage,
};
use ai_audit::opencode::run::{
    build_args, check_end, events_of_lines, extract_text_content, finish_run, full_prompt,
    get_default_agent, get_default_model, next_step, read_events, read_stream, run, text_of_events,
    Launch, ProcessEnd, RunAnswers, RunOptions, RunRequest, RunResult, INSTRUCTION_PREFIX,
};
use ai_audit::opencode::scan::agent_in_log;
use ai_audit::steps::Step;

fn texts(lines: &[&str]) -> Vec<String> {
    lines.iter().map(|l| l.to_string()).collect()
}

fn no_tokens() -> TokenUsage {
    TokenUsage { input: 0, output: 0, reasoning: 0, cache_read: 0, cache_write: 0 }
}

fn result(output: &str) -> RunResult {
    RunResult { output: output.to_string(), session_id: None, agent: None, tokens: no_tokens() }
}

const SHA_A: &str = "0123456789abcdef0123456789abcdef01234567";
const SHA_B: &str = "fedcba9876543210fedcba9876543210fedcba98";

#[test]
fn test_run_result_clone() {
    let result = RunResult {
        output: "test output".to_string(),
        session_id: Some("ses_123".to_string()),
        agent: Some("sisyphus".to_string()),
        tokens: TokenUsage { input: 100, output: 50, reasoning: 0, cache_read: 0, cache_write: 0 },
    };
    let cloned = result.clone();
    assert_eq!(cloned.output, result.output);
    assert_eq!(cloned.session_id, result.session_id);
    assert_eq!(cloned.tokens.input, result.tokens.input);
}

#[test]
fn printed_object_names_are_read() {
    assert_eq!(read_object_name(&format!("{}\n", SHA_A)), Ok(SHA_A.to_string()));
    assert!(read_object_name("not a name\n").is_err());
    assert!(read_object_name("abc\n").is_err());
    assert_eq!(
        build_cache_key(Some("agent"), "m", SHA_A, SHA_B),
        "agent-m-01234567-fedcba98.json"
    );
}

#[test]
fn results_are_kept_below_the_cache_directory() {
    assert_eq!(cache_dir(Some("/c")), Ok("/c/ai-audit/opencode/run".to_string()));
    assert!(cache_dir(None).is_err());
    assert_eq!(
        cache_path(Some("/c"), None, "a/b", SHA_A, SHA_B),
        Ok("/c/ai-audit/opencode/run/sisyphus-a_b-01234567-fedcba98.json".to_string())
    );
}

#[test]
fn the_stream_names_session_and_tokens() {
    let stream = read_stream(&texts(&[
        r#"{"sessionID":"ses_1","type":"step_start"}"#,
        r#"{"sessionID":"ses_2","type":"step_finish","part":{"tokens":{"input":5,"output":7,"reasoning":1,"cache":{"read":2,"write":3}}}}"#,
        "not a document",
        r#"{"type":"step_finish","part":{"tokens":{"input":10,"output":1}}}"#,
    ]))
    .unwrap();
    assert_eq!(stream.session_id.as_deref(), Some("ses_1"));
    assert_eq!(stream.tokens.input, 15);
    assert_eq!(stream.tokens.output, 8);
    assert_eq!(stream.tokens.reasoning, 1);
    assert_eq!(stream.tokens.cache_read, 2);
    assert_eq!(stream.tokens.cache_write, 3);
}

#[test]
fn arguments_name_what_is_given() {
    let prompt = full_prompt("p");
    assert_eq!(
        build_args("a/b", "/i.md", Some("ag"), Some("ses_1"), "p"),
        texts(&[
            "run",
            "--model=a/b",
            "-f=/i.md",
            "--agent=ag",
            "--session=ses_1",
            "--format=json",
            "--print-logs",
            "--",
            prompt.as_str(),
        ])
    );
    assert_eq!(
        build_args("a/b", "/i.md", None, None, "p"),
        texts(&["run", "--model=a/b", "-f=/i.md", "--format=json", "--print-logs", "--", prompt.as_str()])
    );
    assert!(full_prompt("do it").starts_with(INSTRUCTION_PREFIX));
    assert!(full_prompt("do it").ends_with("do it"));
}

#[test]
fn ends_of_processes_are_judged() {
    assert!(check_end(ProcessEnd::Exited(Some(0)), 5, "m").is_none());
    assert!(check_end(ProcessEnd::Exited(Some(3)), 5, "m").unwrap().contains("3"));
    assert!(check_end(ProcessEnd::TimedOut, 5, "m").unwrap().contains("5"));
    assert!(finish_run(&Launch::NotFound, 5, "m").is_err());
    assert!(finish_run(&Launch::Failed("no".to_string()), 5, "m").err().unwrap().contains("no"));
    assert!(finish_run(&Launch::Lost("gone".to_string()), 5, "m").err().unwrap().contains("gone"));
    let done = finish_run(
        &Launch::Ran {
            printed: texts(&[
                r#"{"sessionID":"ses_1","type":"text","part":{"text":"Hello"}}"#,
            ]),
            log: Vec::new(),
            end: ProcessEnd::Exited(Some(0)),
        },
        5,
        "m",
    )
    .unwrap();
    assert_eq!(done.output, "Hello");
    assert_eq!(done.session_id.as_deref(), Some("ses_1"));
}

#[test]
fn defaults_come_from_the_printed_configuration() {
    let config = "{\n  \"model\": \"a/b\",\n  \"agent\": {\n    \"build\": {\n      \"model\": \"x\"\n    }\n  }\n}\n";
    assert_eq!(get_default_model(Ok(config.to_string())), Ok("a/b".to_string()));
    assert_eq!(get_default_agent(Ok(config.to_string())), Ok(Some("build".to_string())));
    assert!(get_default_model(Ok("{}".to_string())).is_err());
    assert_eq!(get_default_agent(Ok("{}".to_string())), Ok(None));
    assert!(get_default_model(Err("no".to_string())).is_err());
}

#[test]
fn the_log_names_the_agent() {
    assert_eq!(agent_in_log(&Vec::new()), None);
    let log = texts(&[
        "INFO service=llm agent=title mode=primary x",
        "INFO service=llm agent=build mode=subagent x",
        "INFO service=llm agent=conductor mode=primary x",
    ]);
    assert_eq!(agent_in_log(&log).as_deref(), Some("conductor"));
}

/// What was asked of the world, in order.
type Log = Vec<String>;

fn and<T>(mut log: Log, line: String, reply: T) -> (Log, T) {
    log.push(line);
    (log, reply)
}

fn run_with(options: &RunOptions<'_>, kept: fn() -> Option<RunResult>) -> (Log, Result<RunResult, String>) {
    run(
        "p",
        "/i.md",
        options,
        Vec::new(),
        |log: Log| and(log, "config".to_string(), Ok("{}".to_string())),
        |log: Log, path: &str| and(log, format!("hash {}", path), Ok(SHA_A.to_string())),
        |log: Log, _: &str| and(log, "hash text".to_string(), Ok(SHA_A.to_string())),
        |log: Log, name: &str| and(log, format!("read {}", name), kept()),
        |log: Log, _: &Vec<String>, secs: u64| {
            let ran = Launch::Ran {
                printed: vec![r#"{"type":"text","part":{"text":"new"}}"#.to_string()],
                log: vec!["INFO service=llm agent=other mode=primary x".to_string()],
                end: ProcessEnd::Exited(Some(0)),
            };
            and(log, format!("start {}", secs), ran)
        },
        |log: Log, name: &str, _: &RunResult| and(log, format!("keep {}", name), ()).0,
    )
}

#[test]
fn kept_results_are_not_run_again() {
    let options = RunOptions { model: Some("a/b"), agent: Some("ag"), ..RunOptions::default() };
    let (log, kept) = run_with(&options, || Some(result("kept")));
    assert_eq!(kept.unwrap().output, "kept");
    assert_eq!(log, vec!["hash /i.md", "hash text", "read ag-a_b-01234567-01234567.json"]);

    let (log, fresh) = run_with(&options, || None);
    assert_eq!(fresh.unwrap().output, "new");
    assert_eq!(log[3..], ["start 300", "keep other-a_b-01234567-01234567.json"]);
}

#[test]
fn sessions_that_go_on_are_neither_read_nor_kept() {
    let options = RunOptions {
        model: Some("a/b"),
        agent: Some("ag"),
        session_id: Some("ses_1"),
        ..RunOptions::default()
    };
    let (log, fresh) = run_with(&options, || Some(result("kept")));
    assert_eq!(fresh.unwrap().output, "new");
    assert_eq!(log, vec!["hash /i.md", "hash text", "start 300"]);
}

#[test]
fn runs_without_a_model_ask_no_further() {
    let (log, failed) = run_with(&RunOptions::default(), || None);
    assert!(failed.is_err());
    assert_eq!(log, vec!["config"]);
    let mut answers = RunAnswers::none();
    match next_step("p", "/i.md", &RunOptions::default(), &answers) {
        Step::Request(RunRequest::Config) => {}
        other => panic!("{:?}", other),
    }
    answers.model_config = Some(Err("no".to_string()));
    match next_step("p", "/i.md", &RunOptions::default(), &answers) {
        Step::Done(r) => assert_eq!(r.err().as_deref(), Some("no")),
        other => panic!("{:?}", other),
    }
}

#[test]
fn events_tell_session_tokens_and_text() {
    let events = events_of_lines(&texts(&[
        "noise",
        r#"{"sessionID":"ses_1","type":"text","part":{"text":"Hello "}}"#,
        r#"{"sessionID":"ses_2","type":"step_finish","part":{"tokens":{"input":3,"output":4,"reasoning":5,"cache":{"read":6,"write":7}}}}"#,
        r#"{"type":"text","part":{"text":"World"}}"#,
    ]));
    assert_eq!(events.len(), 3);
    let stream = read_events(&events).unwrap();
    assert_eq!(stream.session_id.as_deref(), Some("ses_1"));
    assert_eq!((stream.tokens.input, stream.tokens.cache_write), (3, 7));
    assert_eq!(text_of_events(&events), "Hello World");
}

#[test]
fn test_sanitize_for_filename() {
    assert_eq!(sanitize_for_filename("hello-world"), "hello-world");
    assert_eq!(sanitize_for_filename("hello/world"), "hello_world");
    assert_eq!(sanitize_for_filename("a:b:c"), "a_b_c");
    assert_eq!(
        sanitize_for_filename("anthropic/sonnet-4"),
        "anthropic_sonnet-4"
    );
}

#[test]
fn test_build_cache_key() {
    let key = build_cache_key(
        Some("my-agent"),
        "anthropic/sonnet-4",
        "a1b2c3d4e5f6g7h8",
        "11223344aabbccdd",
    );
    assert_eq!(
        key,
        "my-agent-anthropic_sonnet-4-a1b2c3d4-11223344.json"
    );
}

#[test]
fn test_build_cache_key_no_agent() {
    let key = build_cache_key(None, "openai/gpt-4", "abcdef1234567890", "fedcba0987654321");
    assert_eq!(key, "sisyphus-openai_gpt-4-abcdef12-fedcba09.json");
}

#[test]
fn test_extract_text_content() {
    let output = r#"{"sessionID":"ses_abc123","type":"start"}
{"type":"text","part":{"text":"Hello "}}
{"type":"text","part":{"text":"World"}}
{"type":"end"}"#;

    let text = extract_text_content(output);
    assert_eq!(text, "Hello World");
}

#[test]
fn test_extract_text_content_empty() {
    let output = r#"{"sessionID":"ses_abc123","type":"start"}
{"type":"end"}"#;

    let text = extract_text_content(output);
    assert_eq!(text, "");
}

#[test]
fn test_run_options_default() {
    let opts = RunOptions::<'_>::default();
    assert_eq!(opts.model, None);
    assert_eq!(opts.agent, None);
    assert_eq!(opts.timeout_secs, None);
    assert_eq!(opts.session_id, None);
    assert!(!opts.verbose);
    assert!(opts.cache); // cache is true by default
}

#[test]
fn test_instruction_prefix() {
    assert!(INSTRUCTION_PREFIX.contains("instruction"));
    assert!(INSTRUCTION_PREFIX.contains("attached file"));
}
