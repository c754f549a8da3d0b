use ai_audit::rate::parse::{
    extract_code_block, parse_checklist, parse_header, parse_prompt, parse_test_content,
    parse_timespan, substitute_variables, Timespan,
};

const SAMPLE_TEST_FILE: &str = r#"# Test: Work Deamalgamation

Verify that deep-segmentation correctly separates different projects.

## Test Case: Mixed Projects | 2025-06-10 08:04:53..08:16:12

### Prompt

```
Perform deep segmentation for timespan: {{TIMESPAN}}
Use date: {{DATE}} start: {{START}} end: {{END}}
```

### Verification Checklist

Count passing checkboxes to rate.

#### Section A

- [ ] First checkbox item
- [ ] Second checkbox item

#### Section B

- [ ] Third checkbox item

**Total: 3 checkboxes**
"#;

#[test]
fn a_code_block_must_be_closed() {
    let lines: Vec<String> = "```\na\nb\n```".lines().map(str::to_string).collect();
    assert_eq!(extract_code_block(&lines, 0), Ok("a\nb".to_string()));
    assert_eq!(extract_code_block(&lines, 4), Ok(String::new()));
    let open: Vec<String> = "```\na".lines().map(str::to_string).collect();
    assert!(extract_code_block(&open, 0).is_err());
}

#[test]
fn a_missing_checklist_is_an_error() {
    assert!(parse_checklist("# nothing").err().unwrap().contains("Missing"));
}

#[test]
fn a_timespan_is_made_of_its_parts() {
    let t = parse_timespan("2025-06-10 08:04:53..08:16:12").unwrap();
    assert_eq!(t.full, format!("{} {}..{}", t.date, t.start, t.end));
}

#[test]
fn test_parse_header() {
    let (name, timespan) = parse_header(SAMPLE_TEST_FILE).unwrap();

    assert_eq!(name, "Mixed Projects");
    assert_eq!(timespan.date, "2025-06-10");
    assert_eq!(timespan.start, "08:04:53");
    assert_eq!(timespan.end, "08:16:12");
    assert_eq!(timespan.full, "2025-06-10 08:04:53..08:16:12");
}

#[test]
fn test_parse_header_missing() {
    let content = "# Just a title\n\nNo test case header here.";
    let result = parse_header(content);
    assert!(result.is_err());
    assert!(result.unwrap_err().contains("Missing Test Case header"));
}

#[test]
fn test_parse_timespan() {
    let ts = parse_timespan("2025-06-10 08:04:53..08:16:12").unwrap();

    assert_eq!(ts.date, "2025-06-10");
    assert_eq!(ts.start, "08:04:53");
    assert_eq!(ts.end, "08:16:12");
    assert_eq!(ts.full, "2025-06-10 08:04:53..08:16:12");
}

#[test]
fn test_parse_timespan_malformed_no_dots() {
    let result = parse_timespan("2025-06-10 08:04:53 08:16:12");
    assert!(result.is_err());
    assert!(result.unwrap_err().contains(".."));
}

#[test]
fn test_parse_timespan_malformed_no_space() {
    let result = parse_timespan("2025-06-1008:04:53..08:16:12");
    assert!(result.is_err());
}

#[test]
fn test_parse_prompt() {
    let prompt = parse_prompt(SAMPLE_TEST_FILE).unwrap();

    assert!(prompt.contains("{{TIMESPAN}}"));
    assert!(prompt.contains("{{DATE}}"));
    assert!(prompt.contains("{{START}}"));
    assert!(prompt.contains("{{END}}"));
}

#[test]
fn test_parse_prompt_empty() {
    let content = r#"
### Prompt

```
```
"#;
    let result = parse_prompt(content);
    assert!(result.is_err());
    assert!(result.unwrap_err().contains("Empty prompt"));
}

#[test]
fn test_parse_prompt_missing() {
    let content = r#"
### Something Else

```
content
```
"#;
    let result = parse_prompt(content);
    assert!(result.is_err());
    assert!(result.unwrap_err().contains("Missing"));
}

#[test]
fn test_parse_checklist() {
    let checklist = parse_checklist(SAMPLE_TEST_FILE).unwrap();

    assert_eq!(checklist.len(), 3);
    assert_eq!(checklist[0], "First checkbox item");
    assert_eq!(checklist[1], "Second checkbox item");
    assert_eq!(checklist[2], "Third checkbox item");
}

#[test]
fn test_parse_checklist_empty() {
    let content = r#"
### Verification Checklist

No checkboxes here, just text.
"#;
    let result = parse_checklist(content);
    assert!(result.is_err());
    assert!(result.unwrap_err().contains("Empty checklist"));
}

#[test]
fn test_parse_test_content_full() {
    let test_case = parse_test_content(SAMPLE_TEST_FILE).unwrap();

    assert_eq!(test_case.name, "Mixed Projects");
    assert_eq!(test_case.timespan.date, "2025-06-10");
    assert_eq!(test_case.timespan.start, "08:04:53");
    assert_eq!(test_case.timespan.end, "08:16:12");
    assert!(test_case.prompt.contains("{{TIMESPAN}}"));
    assert!(test_case.prompt.contains("{{DATE}}"));
    assert_eq!(test_case.checklist.len(), 3);
}

#[test]
fn test_substitute_variables() {
    let timespan = Timespan {
        date: "2025-06-10".to_string(),
        start: "08:04:53".to_string(),
        end: "08:16:12".to_string(),
        full: "2025-06-10 08:04:53..08:16:12".to_string(),
    };

    let text = "Process {{TIMESPAN}} on {{DATE}} from {{START}} to {{END}}";
    let result = substitute_variables(text, &timespan);

    assert_eq!(
        result,
        "Process 2025-06-10 08:04:53..08:16:12 on 2025-06-10 from 08:04:53 to 08:16:12"
    );
}

#[test]
fn test_substitute_variables_no_placeholders() {
    let timespan = Timespan {
        date: "2025-06-10".to_string(),
        start: "08:04:53".to_string(),
        end: "08:16:12".to_string(),
        full: "2025-06-10 08:04:53..08:16:12".to_string(),
    };

    let text = "No placeholders here";
    let result = substitute_variables(text, &timespan);

    assert_eq!(result, "No placeholders here");
}

#[test]
fn test_substitute_variables_multiple_occurrences() {
    let timespan = Timespan {
        date: "2025-01-01".to_string(),
        start: "00:00:00".to_string(),
        end: "23:59:59".to_string(),
        full: "2025-01-01 00:00:00..23:59:59".to_string(),
    };

    let text = "Date: {{DATE}}, again: {{DATE}}";
    let result = substitute_variables(text, &timespan);

    assert_eq!(result, "Date: 2025-01-01, again: 2025-01-01");
}
