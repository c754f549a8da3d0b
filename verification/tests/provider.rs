use ai_audit::provider::{detect_provider, Provider};

#[test]
fn test_detect_provider_opencode() {
    assert_eq!(detect_provider("ses_abc123"), Provider::OpenCode);
    assert_eq!(detect_provider("ses_"), Provider::OpenCode);
}

#[test]
fn test_detect_provider_claudecode() {
    assert_eq!(
        detect_provider("550e8400-e29b-41d4-a716-446655440000"),
        Provider::ClaudeCode
    );
    assert_eq!(detect_provider("some-uuid"), Provider::ClaudeCode);
}

#[test]
fn test_provider_as_str() {
    assert_eq!(Provider::ClaudeCode.as_str(), "claudecode");
    assert_eq!(Provider::OpenCode.as_str(), "opencode");
}

#[test]
fn test_provider_display() {
    assert_eq!(format!("{}", Provider::ClaudeCode.as_str()), "claudecode");
    assert_eq!(format!("{}", Provider::OpenCode.as_str()), "opencode");
}
