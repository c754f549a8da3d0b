use ai_audit::json::{parse_json, Json};
use ai_audit::opencode::latency::{message_part_latencies, part_duration_ms};

fn json(text: &str) -> Json {
    parse_json(text).unwrap()
}

fn seconds(ms: Option<u128>) -> Option<f64> {
    ms.map(|ms| ms as f64 / 1000.0)
}

fn sum_part_latencies(parts: &Vec<Json>) -> (Option<f64>, Option<f64>) {
    let sums = ai_audit::opencode::latency::sum_part_latencies(parts);
    (seconds(sums.generation_ms), seconds(sums.tool_ms))
}

#[test]
fn a_duration_needs_both_ends() {
    assert_eq!(part_duration_ms(&json(r#"{"time":{"start":1000,"end":1500}}"#)), Some(500));
    assert_eq!(part_duration_ms(&json(r#"{"time":{"start":2000,"end":1500}}"#)), Some(-500));
    assert_eq!(part_duration_ms(&json(r#"{"time":{"start":1000}}"#)), None);
    assert_eq!(part_duration_ms(&json(r#"{"type":"text"}"#)), None);
}

#[test]
fn answers_are_listed_with_their_latencies() {
    let messages = vec![
        json(r#"{"role":"user","time":{"created":1000}}"#),
        json(r#"{"role":"assistant","time":{"created":2000}}"#),
    ];
    let parts = vec![
        vec![json(r#"{"type":"text","time":{"start":0,"end":10}}"#)],
        vec![json(r#"{"type":"tool","time":{"start":2000,"end":2700}}"#)],
    ];
    let latencies = message_part_latencies(&messages, &parts);
    assert_eq!(latencies.len(), 1);
    assert_eq!(latencies[0].0.secs, 2);
    assert_eq!(latencies[0].1.generation_ms, None);
    assert_eq!(latencies[0].1.tool_ms, Some(700));
}

#[test]
fn sum_text_and_tool_parts() {
    let parts = vec![
        json(r#"{"type":"text","time":{"start":1000,"end":1500}}"#),
        json(r#"{"type":"reasoning","time":{"start":1500,"end":1800}}"#),
        json(r#"{"type":"tool","time":{"start":1800,"end":2300}}"#),
        json(r#"{"type":"tool","time":{"start":2300,"end":2400}}"#),
    ];
    let (gen, tool) = sum_part_latencies(&parts);
    // text 0.5 + reasoning 0.3 = 0.8
    assert!((gen.unwrap() - 0.8).abs() < 1e-9);
    // tool 0.5 + 0.1 = 0.6
    assert!((tool.unwrap() - 0.6).abs() < 1e-9);
}

#[test]
fn no_parts_yields_both_none() {
    let (gen, tool) = sum_part_latencies(&Vec::new());
    assert!(gen.is_none());
    assert!(tool.is_none());
}

#[test]
fn parts_with_null_times_are_omitted() {
    let parts = vec![
        json(r#"{"type":"text"}"#), // no time at all
        json(r#"{"type":"tool","time":{"start":null,"end":null}}"#),
        json(r#"{"type":"tool","time":{"start":1000,"end":1200}}"#),
    ];
    let (gen, tool) = sum_part_latencies(&parts);
    assert!(gen.is_none());
    assert_eq!(tool, Some(0.2));
}

#[test]
fn control_parts_are_skipped() {
    let parts = vec![
        json(r#"{"type":"step-start","time":{"start":1000,"end":1001}}"#),
        json(r#"{"type":"step-finish","time":{"start":2000,"end":2001}}"#),
        json(r#"{"type":"text","time":{"start":1500,"end":1900}}"#),
    ];
    let (gen, tool) = sum_part_latencies(&parts);
    assert_eq!(gen, Some(0.4));
    assert_eq!(tool, None);
}

#[test]
fn negative_duration_logged_and_skipped() {
    let parts = vec![
        json(r#"{"type":"text","time":{"start":2000,"end":1000}}"#), // skewed
        json(r#"{"type":"text","time":{"start":1000,"end":1300}}"#),
    ];
    let (gen, _) = sum_part_latencies(&parts);
    // The clean one survives.
    assert_eq!(gen, Some(0.3));
}

#[test]
fn only_tool_present_yields_tool_only() {
    let parts = vec![json(r#"{"type":"tool","time":{"start":1000,"end":1500}}"#)];
    let (gen, tool) = sum_part_latencies(&parts);
    assert_eq!(gen, None);
    assert_eq!(tool, Some(0.5));
}
