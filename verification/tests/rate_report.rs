use ai_audit::rate::judge::JudgeRating;
use ai_audit::rate::report::{
    format_errors_section, generate_summary_at, AgentStats, FailureRecord, FailureStage,
    SummaryHead,
};
use ai_audit::time::Timestamp;

fn parse_rfc3339(text: &str) -> Option<Timestamp> {
    let t = chrono::DateTime::parse_from_rfc3339(text).ok()?;
    Some(Timestamp { secs: t.timestamp(), nanos: t.timestamp_subsec_nanos() })
}

fn now() -> Timestamp {
    parse_rfc3339("2025-01-29T10:30:00Z").unwrap()
}

fn make_rating(agent_model: &str, judge_model: &str, points: u32, max_points: u32) -> JudgeRating {
    JudgeRating {
        points,
        max_points,
        test_name: "test".to_string(),
        agent_model: agent_model.to_string(),
        judge_model: judge_model.to_string(),
        timestamp: now(),
        full_report: "report".to_string(),
    }
}

fn share(points: u128, max_points: u128) -> f64 {
    if max_points == 0 {
        0.0
    } else {
        points as f64 / max_points as f64 * 100.0
    }
}

fn mean(points: u128, n: usize) -> f64 {
    if n == 0 {
        0.0
    } else {
        points as f64 / n as f64
    }
}

fn generate_summary(
    ratings: &[JudgeRating],
    errors: &[FailureRecord],
    test_name: &str,
    agent_instruction_hash: &str,
    judge_prompt_hash: &str,
) -> String {
    generate_summary_at(
        &ratings.to_vec(),
        &errors.to_vec(),
        &SummaryHead { test_name, agent_instruction_hash, judge_prompt_hash },
        now(),
        |points: u128, max_points: u128| format!("{:.1}", share(points, max_points)),
        |points: u128, n: usize, digits: usize| format!("{:.*}", digits, mean(points, n)),
    )
}

fn average_percentage(stats: &AgentStats) -> f64 {
    share(stats.total_points(), stats.total_max_points())
}

fn average_points(stats: &AgentStats) -> f64 {
    mean(stats.total_points(), stats.judge_count())
}

#[test]
fn a_whole_summary() {
    let ratings = vec![make_rating("b", "j2", 1, 4), make_rating("a", "j2", 2, 4), make_rating("a", "j1", 3, 4)];
    let errors = vec![FailureRecord {
        stage: FailureStage::JudgeTimeout,
        model: None,
        message: "late".to_string(),
        timestamp: now(),
    }];
    let expected = "# Rating Summary\n\n**Test**: t\n**Agent Instruction Hash**: h1\n\
**Judge Prompt Hash**: h2\n**Timestamp**: 2025-01-29T10:30:00Z\n\n## Per-Agent Results\n\n\
### a\n- j1: 3/4 (75.0%)\n- j2: 2/4 (50.0%)\n- **Average**: 2.5/4 (62.5%)\n\n\
### b\n- j2: 1/4 (25.0%)\n- **Average**: 1.0/4 (25.0%)\n\n\
## Global Average\n\n**All Judges \u{d7} All Agents**: 2.00/4 (50.0%)\n\n\
## Errors\n\n- Judge Timeout - late\n";
    assert_eq!(generate_summary(&ratings, &errors, "t", "h1", "h2"), expected);
}

#[test]
fn a_later_rating_of_a_judge_replaces_the_score() {
    let mut stats = AgentStats::new();
    stats.add_rating("judge", 1, 10);
    stats.add_rating("judge", 8, 10);
    assert_eq!(stats.judge_count(), 1);
    assert_eq!(stats.judge_at(0), "judge");
    assert_eq!(stats.score_of("judge"), Some((8, 10)));
    assert_eq!(stats.score_of("nobody"), None);
    assert_eq!(stats.total_points(), 9);
}

#[test]
fn errors_are_listed() {
    let error = |model: Option<&str>| FailureRecord {
        stage: FailureStage::TestParsing,
        model: model.map(str::to_string),
        message: "bad".to_string(),
        timestamp: now(),
    };
    assert_eq!(
        format_errors_section(&vec![error(None), error(Some("m"))]),
        "\n## Errors\n\n- Test Parsing - bad\n- Test Parsing: m - bad\n"
    );
}

#[test]
fn test_generate_summary_single_agent() {
    let ratings = vec![
        make_rating("sonnet-4", "opus-4", 8, 11),
        make_rating("sonnet-4", "gpt-4o", 9, 11),
    ];

    let summary = generate_summary(&ratings, &[], "work-deamalgamate", "abc123", "def456");

    // Check header
    assert!(summary.contains("# Rating Summary"));
    assert!(summary.contains("**Test**: work-deamalgamate"));
    assert!(summary.contains("**Agent Instruction Hash**: abc123"));
    assert!(summary.contains("**Judge Prompt Hash**: def456"));

    // Check agent section
    assert!(summary.contains("### sonnet-4"));
    assert!(summary.contains("opus-4: 8/11"));
    assert!(summary.contains("gpt-4o: 9/11"));

    // Check average calculation: (8+9)/2 = 8.5 out of 11
    assert!(summary.contains("**Average**: 8.5/11"));

    // Global average: 8.5/11 = 77.3%
    assert!(summary.contains("**All Judges × All Agents**"));
}

#[test]
fn test_generate_summary_multiple_agents() {
    let ratings = vec![
        make_rating("sonnet-4", "opus-4", 8, 11),
        make_rating("sonnet-4", "gpt-4o", 9, 11),
        make_rating("gpt-4", "opus-4", 7, 11),
        make_rating("gpt-4", "gpt-4o", 7, 11),
    ];

    let summary = generate_summary(&ratings, &[], "work-deamalgamate", "abc123", "def456");

    // Check both agents present
    assert!(summary.contains("### sonnet-4"));
    assert!(summary.contains("### gpt-4"));

    // Check gpt-4 ratings
    assert!(summary.contains("gpt-4"));

    // Global average section
    assert!(summary.contains("## Global Average"));
}

#[test]
fn test_generate_summary_with_errors() {
    let ratings = vec![make_rating("sonnet-4", "opus-4", 8, 11)];

    let errors = vec![
        FailureRecord {
            stage: FailureStage::AgentTimeout,
            model: Some("gpt-4-turbo".to_string()),
            message: "Timeout after 300s".to_string(),
            timestamp: now(),
        },
        FailureRecord {
            stage: FailureStage::JudgeParsing,
            model: Some("opus-4".to_string()),
            message: "Parse error: missing YAML frontmatter".to_string(),
            timestamp: now(),
        },
    ];

    let summary = generate_summary(&ratings, &errors, "work-deamalgamate", "abc123", "def456");

    // Check errors section
    assert!(summary.contains("## Errors"));
    assert!(summary.contains("Agent Timeout: gpt-4-turbo - Timeout after 300s"));
    assert!(summary
        .contains("Judge Parsing: opus-4 - Parse error: missing YAML frontmatter"));
}

#[test]
fn test_generate_summary_empty_ratings() {
    let errors = vec![FailureRecord {
        stage: FailureStage::TestParsing,
        model: None,
        message: "Invalid test file".to_string(),
        timestamp: now(),
    }];

    let summary = generate_summary(&[], &errors, "broken-test", "abc", "def");

    assert!(summary.contains("## No Ratings"));
    assert!(summary.contains("No successful ratings were collected"));
    assert!(summary.contains("## Errors"));
    assert!(summary.contains("Test Parsing - Invalid test file"));
}

#[test]
fn test_generate_summary_no_errors() {
    let ratings = vec![make_rating("agent", "judge", 5, 10)];

    let summary = generate_summary(&ratings, &[], "test", "hash1", "hash2");

    // Should not contain errors section
    assert!(!summary.contains("## Errors"));
}

#[test]
fn test_failure_stage_display() {
    assert_eq!(FailureStage::TestParsing.as_str(), "Test Parsing");
    assert_eq!(
        FailureStage::AgentInvocation.as_str(),
        "Agent Invocation"
    );
    assert_eq!(FailureStage::AgentTimeout.as_str(), "Agent Timeout");
    assert_eq!(
        FailureStage::JudgeInvocation.as_str(),
        "Judge Invocation"
    );
    assert_eq!(FailureStage::JudgeTimeout.as_str(), "Judge Timeout");
    assert_eq!(FailureStage::JudgeParsing.as_str(), "Judge Parsing");
    assert_eq!(FailureStage::ReportWriting.as_str(), "Report Writing");
}

#[test]
fn test_agent_stats_calculations() {
    let mut stats = AgentStats::new();
    stats.add_rating("judge1", 8, 10);
    stats.add_rating("judge2", 6, 10);

    // Total: 14/20 = 70%
    assert!((average_percentage(&stats) - 70.0).abs() < 0.01);

    // Average points: 14/2 = 7
    assert!((average_points(&stats) - 7.0).abs() < 0.01);

    // Max points per judge
    assert_eq!(stats.max_points_per_judge(), 10);
}

#[test]
fn test_agent_stats_empty() {
    let stats = AgentStats::new();
    assert_eq!(average_percentage(&stats), 0.0);
    assert_eq!(average_points(&stats), 0.0);
    assert_eq!(stats.max_points_per_judge(), 0);
}

#[test]
fn test_percentage_calculations() {
    let ratings = vec![
        make_rating("agent", "judge1", 8, 11),
        make_rating("agent", "judge2", 9, 11),
    ];

    let summary = generate_summary(&ratings, &[], "test", "h1", "h2");

    // 8/11 = 72.7%
    assert!(summary.contains("72.7%"));
    // 9/11 = 81.8%
    assert!(summary.contains("81.8%"));
}

#[test]
fn test_perfect_score() {
    let ratings = vec![make_rating("agent", "judge", 10, 10)];

    let summary = generate_summary(&ratings, &[], "test", "h1", "h2");
    assert!(summary.contains("100.0%"));
}

#[test]
fn test_zero_score() {
    let ratings = vec![make_rating("agent", "judge", 0, 10)];

    let summary = generate_summary(&ratings, &[], "test", "h1", "h2");
    assert!(summary.contains("0/10"));
    assert!(summary.contains("0.0%"));
}
