use ai_audit::pi::sanity::{check, AiTaskSpec, HEAD_TAIL_LIMIT};

#[test]
fn predicate_pass_returns_ok() {
    let spec = AiTaskSpec {
        shape: "a '## Timeline' section",
        looks_complete: |s: &str| {
            if s.contains("## Timeline") {
                Ok(())
            } else {
                Err("missing '## Timeline'".to_string())
            }
        },
    };
    let output = "preamble\n\n## Timeline\n| 09:00 | 10:00 | work | yes | … |\n";
    assert!(check(&spec, Some("ses_test"), output).is_ok());
}

#[test]
fn predicate_fail_returns_cut_short_with_session_id() {
    let spec = AiTaskSpec {
        shape: "a '## Timeline' section",
        looks_complete: |s: &str| {
            if s.contains("## Timeline") {
                Ok(())
            } else {
                Err("missing '## Timeline'".to_string())
            }
        },
    };
    let preamble = "I'll perform deep segmentation following the prompt \
        strictly. Let me gather evidence in parallel.";
    let err = *check(&spec, Some("ses_222865b2dffeshd3LqPtseHRzy"), preamble)
        .expect_err("cut-short preamble must be rejected");
    assert_eq!(
        err.session_id.as_deref(),
        Some("ses_222865b2dffeshd3LqPtseHRzy")
    );
    assert_eq!(err.shape, "a '## Timeline' section");
    assert_eq!(err.reason, "missing '## Timeline'");
    assert_eq!(err.output_len, preamble.len());
    let rendered = err.message();
    assert!(rendered.contains("ses_222865b2dffeshd3LqPtseHRzy"));
    assert!(rendered.contains("Pi session: ses_222865b2dffeshd3LqPtseHRzy"));
    assert!(rendered.contains("a '## Timeline' section"));
    assert!(rendered.contains("--recompute"));
}

#[test]
fn cut_short_carries_head_and_tail_snippets() {
    let spec = AiTaskSpec {
        shape: "anything",
        looks_complete: |_: &str| Err("never matches".to_string()),
    };
    let big: String = "abcdefghij".repeat(50); // 500 chars
    let err = *check(&spec, None, &big).unwrap_err();
    // 200 chars head, 200 chars tail
    assert_eq!(err.head.chars().count(), HEAD_TAIL_LIMIT);
    assert_eq!(err.tail.chars().count(), HEAD_TAIL_LIMIT);
    assert!(big.starts_with(&err.head));
    assert!(big.ends_with(&err.tail));
}

#[test]
fn short_output_head_and_tail_collapse_to_full_text() {
    let spec = AiTaskSpec {
        shape: "anything",
        looks_complete: |_: &str| Err("never".to_string()),
    };
    let short = "tiny";
    let err = *check(&spec, None, short).unwrap_err();
    assert_eq!(err.head, "tiny");
    assert_eq!(err.tail, "tiny");
}

#[test]
fn utf8_boundaries_are_preserved_in_head_tail() {
    let spec = AiTaskSpec {
        shape: "anything",
        looks_complete: |_: &str| Err("never".to_string()),
    };
    // Multi-byte chars; if we sliced bytes naively this would panic.
    let s: String = "é".repeat(300); // 600 bytes, 300 chars
    let err = *check(&spec, None, &s).unwrap_err();
    assert_eq!(err.head.chars().count(), HEAD_TAIL_LIMIT);
    assert_eq!(err.tail.chars().count(), HEAD_TAIL_LIMIT);
}
