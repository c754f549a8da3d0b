use ai_audit::session_detect::ansi::{longest_ansi_segment, strip_ansi};
use ai_audit::session_detect::filters::{build_filters, FilterCriterion};
use ai_audit::session_detect::lines::{
    classify_tui_line, parse_tool_line, ParsedToolCall, TuiLineKind,
};
use ai_audit::session_detect::messages::{parse_pane_messages, PaneMessage};

// === strip_ansi tests ===

#[test]
fn test_strip_ansi() {
    assert_eq!(strip_ansi("hello"), "hello");
    assert_eq!(strip_ansi("\x1b[31mred\x1b[0m"), "red");
    assert_eq!(strip_ansi("\x1b[38;2;242;244;248mtext\x1b[0m"), "text");
    assert_eq!(strip_ansi(""), "");
    assert_eq!(
        strip_ansi("\x1b[1m\x1b[38;2;125;132;143m→ Read\x1b[0m"),
        "→ Read"
    );
}

// === classify_tui_line tests ===

#[test]
fn test_classify_tui_line_assistant_text() {
    let raw = "\x1b[38;2;242;244;248mThis is assistant text output\x1b[0m";
    match classify_tui_line(raw) {
        TuiLineKind::AssistantText(text) => {
            // Stores raw ANSI for segment extraction
            assert!(text.contains("\x1b["));
            assert!(text.contains("This is assistant text output"));
        }
        other => panic!("expected AssistantText, got {:?}", other),
    }
}

#[test]
fn test_classify_tui_line_tool_invocation() {
    let raw = "\x1b[38;2;125;132;143m→ Read src/main.rs [offset=0, limit=50]\x1b[0m";
    match classify_tui_line(raw) {
        TuiLineKind::ToolInvocation(text) => {
            assert!(text.starts_with('→'));
            assert!(text.contains("Read"));
        }
        other => panic!("expected ToolInvocation, got {:?}", other),
    }
}

#[test]
fn test_classify_tui_line_panel() {
    let raw = "\x1b[48;2;30;30;30m  ┃  Some panel content  \x1b[0m";
    assert_eq!(classify_tui_line(raw), TuiLineKind::PanelContent);
}

#[test]
fn test_classify_tui_line_panel_with_assistant_text_is_assistant() {
    // Panel line with assistant text foreground color should be
    // AssistantText, not PanelContent — it carries session content.
    let raw = "\x1b[38;2;0;206;209m┃\x1b[48;2;26;26;26m  \x1b[38;2;242;244;248mFind vigil-watch PermissionEntry struct\x1b[0m";
    match classify_tui_line(raw) {
        TuiLineKind::AssistantText(text) => {
            assert!(text.contains("Find vigil-watch"));
        }
        other => panic!(
            "panel line with assistant text color should be AssistantText, got {:?}",
            other
        ),
    }
}

#[test]
fn test_classify_tui_line_panel_empty_stays_panel() {
    // Empty panel border line (no assistant text color) stays PanelContent.
    let raw = "\x1b[38;2;0;206;209m┃\x1b[48;2;26;26;26m                              \x1b[0m";
    assert_eq!(classify_tui_line(raw), TuiLineKind::PanelContent);
}

#[test]
fn test_classify_tui_line_completion() {
    let raw = "  ▣  Sisyphus · opus-4-6 · 9.9s";
    assert_eq!(classify_tui_line(raw), TuiLineKind::CompletionMarker);
}

#[test]
fn test_classify_tui_line_footer() {
    let raw = "  ╹▀▀▀▀▀▀▀▀▀▀▀▀▀▀▀▀▀▀▀▀▀▀▀▀▀▀▀▀▀▀▀▀▀▀▀▀▀▀▀▀▀▀▀▀▀▀▀▀▀▀▀▀▀▀▀▀▀▀";
    assert_eq!(classify_tui_line(raw), TuiLineKind::Footer);
}

#[test]
fn test_classify_tui_line_empty() {
    assert_eq!(classify_tui_line(""), TuiLineKind::Empty);
    assert_eq!(classify_tui_line("   "), TuiLineKind::Empty);
    // ANSI codes that produce empty stripped content
    assert_eq!(classify_tui_line("\x1b[0m  \x1b[0m"), TuiLineKind::Empty);
}

#[test]
fn test_classify_tui_line_dim_gray_not_tool() {
    // Dim gray line WITHOUT tool icon should NOT be ToolInvocation
    let raw = "\x1b[38;2;125;132;143mSome info text without icon\x1b[0m";
    match classify_tui_line(raw) {
        TuiLineKind::ToolInvocation(_) => {
            panic!("should NOT be ToolInvocation without tool icon")
        }
        _ => {} // Any other kind is acceptable
    }
}

// === parse_tool_line tests ===

#[test]
fn test_parse_tool_line_read() {
    let result = parse_tool_line("→ Read src/foo.rs [offset=100, limit=50]");
    assert!(result.is_some());
    let tc = result.unwrap();
    assert_eq!(tc.tool_name, "read");
    assert!(tc
        .fields
        .contains(&("filePath".to_string(), "src/foo.rs".to_string())));
    assert!(tc
        .fields
        .contains(&("offset".to_string(), "100".to_string())));
    assert!(tc.fields.contains(&("limit".to_string(), "50".to_string())));
}

#[test]
fn test_parse_tool_line_grep() {
    let result = parse_tool_line("✱ Grep \"pattern\" in src/");
    assert!(result.is_some());
    let tc = result.unwrap();
    assert_eq!(tc.tool_name, "grep");
    assert!(tc
        .fields
        .contains(&("pattern".to_string(), "pattern".to_string())));
    assert!(tc
        .fields
        .contains(&("path".to_string(), "src/".to_string())));
}

#[test]
fn test_parse_tool_line_edit() {
    let result = parse_tool_line("← Edit src/foo.rs");
    assert!(result.is_some());
    let tc = result.unwrap();
    assert_eq!(tc.tool_name, "edit");
    assert!(tc
        .fields
        .contains(&("filePath".to_string(), "src/foo.rs".to_string())));
}

#[test]
fn test_parse_tool_line_task() {
    let result = parse_tool_line("⚙ background_output [task_id=bg_xxx]");
    assert!(result.is_some());
    let tc = result.unwrap();
    assert_eq!(tc.tool_name, "background_output");
    assert!(tc
        .fields
        .contains(&("task_id".to_string(), "bg_xxx".to_string())));
}

// === parse_pane_messages tests ===

#[test]
fn test_parse_pane_messages_basic() {
    // Build a minimal TUI fixture with ANSI codes
    let content = format!(
        "{}\n{}\n{}\n{}\n{}\n{}\n",
        "\x1b[38;2;242;244;248mI'll help you refactor the authentication module now.\x1b[0m",
        "\x1b[38;2;125;132;143m→ Read src/auth.rs [offset=0, limit=100]\x1b[0m",
        "",
        "  ▣  Sisyphus · opus-4-6 · 5.2s",
        "",
        "  ╹▀▀▀▀▀▀▀▀▀▀▀▀▀▀▀▀▀▀▀▀▀▀▀▀▀▀▀▀▀▀▀▀▀▀▀▀▀▀▀▀▀▀▀▀▀▀▀▀▀▀▀▀▀▀▀▀▀▀",
    );

    let messages = parse_pane_messages(&content);
    assert_eq!(messages.len(), 1, "should find 1 message");
    assert_eq!(messages[0].depth, 0);
    assert!(!messages[0].text_lines.is_empty(), "should have text lines");
    // text_lines contain raw ANSI; extract segments to check content
    let seg = longest_ansi_segment(&messages[0].text_lines[0]);
    assert!(
        seg.as_deref()
            .is_some_and(|s| s.contains("refactor the authentication")),
        "longest segment should contain assistant message, got {:?}",
        seg
    );
    assert!(!messages[0].tool_calls.is_empty(), "should have tool calls");
    assert_eq!(messages[0].tool_calls[0].tool_name, "read");
}

#[test]
fn test_parse_pane_messages_multiple() {
    let content = format!(
        "{}\n{}\n{}\n{}\n{}\n{}\n{}\n{}\n",
        "\x1b[38;2;242;244;248mFirst assistant message with enough text to be useful.\x1b[0m",
        "  ▣  Sisyphus · opus-4-6 · 3.0s",
        "",
        "\x1b[38;2;242;244;248mSecond assistant message with different content here.\x1b[0m",
        "\x1b[38;2;125;132;143m✱ Grep \"pattern\" in src/\x1b[0m",
        "  ▣  Sisyphus · opus-4-6 · 5.2s",
        "",
        "  ╹▀▀▀▀▀▀▀▀▀▀▀▀▀▀▀▀▀▀▀▀▀▀▀▀▀▀▀▀▀▀▀▀▀▀▀▀▀▀▀▀▀▀▀▀▀▀▀▀▀▀▀▀▀▀▀▀▀▀",
    );

    let messages = parse_pane_messages(&content);
    assert!(
        messages.len() >= 2,
        "should find at least 2 messages, got {}",
        messages.len()
    );
    // Depth 0 = closest to footer (second message)
    assert_eq!(messages[0].depth, 0);
    assert_eq!(messages[1].depth, 1);
}

#[test]
fn test_parse_pane_messages_no_footer() {
    let content = "just some plain text\nno TUI elements here\n";
    let messages = parse_pane_messages(content);
    assert!(messages.is_empty(), "no footer means no messages");
}

// === build_filters tests ===

#[test]
fn test_parse_pane_messages_panel_text_extracted() {
    // Reproduces the bug: a QUEUED session where all visible content is
    // inside ┃ panels with background color.  The system-reminder text
    // must be extracted as AssistantText, not discarded as PanelContent.
    let content = [
        // Empty panel border (no assistant color) → PanelContent
        "\x1b[38;2;0;206;209m┃\x1b[48;2;26;26;26m                              \x1b[0m",
        // System reminder text (has assistant color inside panel)
        "\x1b[38;2;0;206;209m┃\x1b[48;2;26;26;26m  \x1b[38;2;242;244;248m<system-reminder>\x1b[0m",
        "\x1b[38;2;0;206;209m┃\x1b[48;2;26;26;26m  \x1b[38;2;242;244;248mFind vigil-watch PermissionEntry struct and list_all_permissions to understand value field\x1b[0m",
        "\x1b[38;2;0;206;209m┃\x1b[48;2;26;26;26m  \x1b[38;2;242;244;248m</system-reminder>\x1b[0m",
        // Empty panel border → PanelContent
        "\x1b[38;2;0;206;209m┃\x1b[48;2;26;26;26m                              \x1b[0m",
        // Completion marker
        "  ▣  Sisyphus · opus-4-6",
        "",
        // Footer
        "  ╹▀▀▀▀▀▀▀▀▀▀▀▀▀▀▀▀▀▀▀▀▀▀▀▀▀▀▀▀▀▀▀▀▀▀▀▀▀▀▀▀▀▀▀▀▀▀▀▀▀▀▀▀▀▀▀▀▀▀",
    ]
    .join("\n");

    let messages = parse_pane_messages(&content);
    assert!(
        !messages.is_empty(),
        "should extract messages from panel text"
    );

    // The system-reminder text lines should be collected
    let all_text: Vec<&str> = messages
        .iter()
        .flat_map(|m| m.text_lines.iter().map(|s| s.as_str()))
        .collect();
    assert!(
        all_text.iter().any(|t| t.contains("PermissionEntry")),
        "should have extracted the system-reminder text, got: {:?}",
        all_text
    );

    // build_filters should produce a filter from the long text
    let filters = build_filters(&messages);
    assert!(
        !filters.is_empty(),
        "system-reminder text should produce filters"
    );
    assert!(
        filters.iter().any(|f| f.criteria.iter().any(|c| matches!(
            c,
            FilterCriterion::TextContains(s) if s.contains("PermissionEntry")
        ))),
        "filter should contain the distinctive text"
    );
}

#[test]
fn test_build_filters_prefers_long_segments_over_short_fragments() {
    // Reproduces the CSS-diff scenario: messages near the footer have
    // syntax-highlighted fragments (all < MIN_NEEDLE_LENGTH), while a
    // deeper message has a long distinctive text segment.  The scoring
    // must rank the deeper message higher so its segment becomes a filter.
    let messages = vec![
        // msg[0] depth=0: model selector, 15 chars — too short
        PaneMessage {
            text_lines: vec![
                "\x1b[38;2;242;244;248mClaude Opus 4.6\x1b[0m".to_string(),
            ],
            tool_calls: vec![],
            depth: 0,
        },
        // msg[1] depth=1: "Done.", 5 chars — too short
        PaneMessage {
            text_lines: vec!["\x1b[38;2;242;244;248mDone.\x1b[0m".to_string()],
            tool_calls: vec![],
            depth: 1,
        },
        // msg[2] depth=2: CSS diff with syntax-highlighted fragments, all < 20 chars
        PaneMessage {
            text_lines: vec![
                "\x1b[38;2;100;200;100m.back-btn\x1b[0m \x1b[38;2;200;100;100m{\x1b[0m".to_string(),
                "\x1b[38;2;150;150;255m  padding\x1b[0m\x1b[38;2;200;200;200m:\x1b[0m \x1b[38;2;200;150;50m0rem\x1b[0m".to_string(),
                "\x1b[38;2;200;100;100m}\x1b[0m".to_string(),
            ],
            tool_calls: vec![],
            depth: 2,
        },
        // msg[3] depth=3: tool calls only (Read + Edit)
        PaneMessage {
            text_lines: vec![],
            tool_calls: vec![
                ParsedToolCall {
                    tool_name: "Read".to_string(),
                    fields: vec![("filePath".to_string(), "style.css".to_string())],
                },
                ParsedToolCall {
                    tool_name: "Edit".to_string(),
                    fields: vec![("filePath".to_string(), "style.css".to_string())],
                },
            ],
            depth: 3,
        },
        // msg[4] depth=4: long distinctive text, 46 chars — the good one
        PaneMessage {
            text_lines: vec![
                "\x1b[38;2;242;244;248m`.back-btn` should have `padding: 0rem .6rem;`\x1b[0m"
                    .to_string(),
            ],
            tool_calls: vec![],
            depth: 4,
        },
    ];

    let filters = build_filters(&messages);
    assert!(
        !filters.is_empty(),
        "should produce at least one filter from the long segment in msg[4]"
    );

    // The filter with the TextContains criterion must come from msg[4] (depth=4)
    // because it has the only segment >= MIN_NEEDLE_LENGTH.
    let text_filter = filters
        .iter()
        .find(|f| {
            f.criteria
                .iter()
                .any(|c| matches!(c, FilterCriterion::TextContains(_)))
        })
        .expect("should have a TextContains filter");
    assert_eq!(
        text_filter.depth, 4,
        "TextContains filter should come from msg[4] (depth=4), not shallow messages"
    );

    // Verify the needle content is from msg[4]
    let needle = text_filter
        .criteria
        .iter()
        .find_map(|c| match c {
            FilterCriterion::TextContains(s) => Some(s.as_str()),
            _ => None,
        })
        .unwrap();
    assert!(
        needle.contains("`.back-btn` should have"),
        "needle should contain the distinctive text from msg[4], got: {:?}",
        needle
    );
}

#[test]
fn test_build_filters_from_messages() {
    // text_lines must contain raw ANSI so longest_ansi_segment works
    let messages = vec![
        PaneMessage {
            text_lines: vec![
                "\x1b[38;2;242;244;248mShort line\x1b[0m".to_string(),
                "\x1b[38;2;242;244;248mThis is a long enough assistant text line for filtering purposes\x1b[0m".to_string(),
            ],
            tool_calls: vec![ParsedToolCall {
                tool_name: "read".to_string(),
                fields: vec![("filePath".to_string(), "src/main.rs".to_string())],
            }],
            depth: 0,
        },
        PaneMessage {
            text_lines: vec![
                "\x1b[38;2;242;244;248mAnother message without tools but long enough text here\x1b[0m".to_string()
            ],
            tool_calls: vec![],
            depth: 1,
        },
    ];

    let filters = build_filters(&messages);
    assert!(!filters.is_empty(), "should produce at least one filter");

    // First filter should be from message with both text+tools (depth 0)
    let f0 = &filters[0];
    assert_eq!(f0.depth, 0);
    assert!(
        f0.criteria
            .iter()
            .any(|c| matches!(c, FilterCriterion::TextContains(_))),
        "should have TextContains criterion"
    );
    assert!(
        f0.criteria
            .iter()
            .any(|c| matches!(c, FilterCriterion::ToolFieldEquals { .. })),
        "should have ToolFieldEquals criterion"
    );
}

#[test]
fn messages_with_text_and_tool_calls_come_before_longer_text() {
    let shown = |text: &str| format!("\x1b[38;2;242;244;248m{}\x1b[0m", text);
    let long = |depth: usize| PaneMessage {
        text_lines: vec![shown(&format!("{} {}", depth, "x".repeat(58)))],
        tool_calls: vec![],
        depth,
    };
    let messages = vec![
        long(0),
        long(1),
        long(2),
        PaneMessage {
            text_lines: vec![shown("twenty-five characters ..")],
            tool_calls: vec![ParsedToolCall {
                tool_name: "read".to_string(),
                fields: vec![("filePath".to_string(), "/tmp/a.rs".to_string())],
            }],
            depth: 3,
        },
    ];
    let filters = build_filters(&messages);
    assert!(filters.iter().any(|f| f.depth == 3));
    assert_eq!(filters.len(), 3);
}
