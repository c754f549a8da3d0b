use ai_audit::pi::attribution::resolve_attribution;
use ai_audit::provider::{ModelAttribution, Provider};

/// A text without the indentation of its lines and without its first line break.
fn unindented(text: &str) -> String {
    let lines: Vec<&str> = text.lines().map(str::trim_start).collect();
    lines.join("\n").trim_start_matches('\n').to_string()
}

fn infer(model: &str) -> Option<String> {
    if model.starts_with("opus-") {
        Some("anthropic".to_string())
    } else if model.starts_with("gpt-") {
        Some("openai".to_string())
    } else {
        None
    }
}

fn resolve_attribution_from_jsonl(text: &str, session_id: &str) -> Result<ModelAttribution, String> {
    ai_audit::pi::resolve_attribution_from_jsonl(text, session_id, infer, |_: &str| true)
}

#[test]
fn services_without_a_brand_are_refused() {
    let text = r#"{"type":"message","id":"a1","timestamp":"2026-04-30T09:37:01Z","message":{"role":"assistant","provider":"nobody","model":"m"}}"#;
    let refused = ai_audit::pi::resolve_attribution_from_jsonl(text, "ses", infer, |_: &str| false);
    assert!(refused.is_err());
    assert!(resolve_attribution_from_jsonl(text, "ses").is_ok());
    assert!(resolve_attribution(&Vec::new(), &Vec::new(), "ses", infer, |_: &str| true).is_err());
}

#[test]
fn test_resolve_attribution_pi_current_shape() {
    // Live Pi shape: message.provider + message.model on assistant.
    let jsonl = unindented(r#"
        {"type":"session","version":3,"id":"x","timestamp":"2026-04-30T09:36:43Z","cwd":"/tmp"}
        {"type":"message","id":"a1","timestamp":"2026-04-30T09:37:01Z","message":{"role":"assistant","provider":"openai-codex","model":"gpt-5.5","usage":{"input":1,"output":1}}}
    "#);
    let attr = resolve_attribution_from_jsonl(&jsonl, "ses").unwrap();
    assert_eq!(attr.harness, Provider::Pi);
    assert_eq!(attr.llm_provider.as_deref(), Some("openai-codex"));
    assert!(!attr.llm_provider_inferred);
    assert_eq!(attr.model_id, "gpt-5.5");
}

#[test]
fn test_resolve_attribution_pi_uses_model_change_when_assistant_lacks_provider() {
    // Assistant message has only `model` (or only `modelID`); the
    // resolver must fall back to the most recent model_change for
    // the LLM provider.
    let jsonl = unindented(r#"
        {"type":"session","version":3,"id":"x","timestamp":"2026-04-30T09:36:43Z","cwd":"/tmp"}
        {"type":"model_change","id":"m1","timestamp":"2026-04-30T09:36:44Z","provider":"anthropic","modelId":"opus-4-7"}
        {"type":"message","id":"a1","timestamp":"2026-04-30T09:37:01Z","message":{"role":"assistant","modelID":"opus-4-7","usage":{"input":1,"output":1}}}
    "#);
    let attr = resolve_attribution_from_jsonl(&jsonl, "ses").unwrap();
    assert_eq!(attr.llm_provider.as_deref(), Some("anthropic"));
    assert!(!attr.llm_provider_inferred);
    assert_eq!(attr.model_id, "opus-4-7");
}

#[test]
fn test_resolve_attribution_pi_legacy_modelid_inferred_anthropic() {
    // Only `modelID`, no provider anywhere.
    let jsonl = unindented(r#"
        {"type":"session","version":3,"id":"x","timestamp":"2026-04-30T09:36:43Z","cwd":"/tmp"}
        {"type":"message","id":"a1","timestamp":"2026-04-30T09:37:01Z","message":{"role":"assistant","modelID":"opus-4-7","usage":{"input":1,"output":1}}}
    "#);
    let attr = resolve_attribution_from_jsonl(&jsonl, "ses").unwrap();
    assert_eq!(attr.llm_provider.as_deref(), Some("anthropic"));
    assert!(attr.llm_provider_inferred);
    assert_eq!(attr.model_id, "opus-4-7");
}

#[test]
fn test_resolve_attribution_pi_unknown_family_errors_loudly() {
    // No provider, model family the inference table cannot map:
    // must error, never invent attribution.
    let jsonl = unindented(r#"
        {"type":"session","version":3,"id":"x","timestamp":"2026-04-30T09:36:43Z","cwd":"/tmp"}
        {"type":"message","id":"a1","timestamp":"2026-04-30T09:37:01Z","message":{"role":"assistant","modelID":"unknown-model-9000","usage":{"input":1,"output":1}}}
    "#);
    let err = resolve_attribution_from_jsonl(&jsonl, "ses")
        .expect_err("must fail for unknown family with no recorded provider");
    let msg = err;
    assert!(
        msg.contains("unknown-model-9000") || msg.contains("provider"),
        "error should mention the model or missing provider: {}",
        msg
    );
}

#[test]
fn test_resolve_attribution_pi_no_assistant_errors() {
    // Session with no assistant turn at all.
    let jsonl = unindented(r#"
        {"type":"session","version":3,"id":"x","timestamp":"2026-04-30T09:36:43Z","cwd":"/tmp"}
        {"type":"message","id":"u1","timestamp":"2026-04-30T09:37:01Z","message":{"role":"user","content":"hello"}}
    "#);
    let err = resolve_attribution_from_jsonl(&jsonl, "ses-empty").expect_err("must error");
    assert!(err.contains("ses-empty"));
}
