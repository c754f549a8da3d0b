use ai_audit::json::{parse_json, print_json, Json};
use ai_audit::order::str_le;
use ai_audit::paths::{
    file_name, is_absolute, join_path, parent, resolve_path, split_extension, strip_prefix,
};
use ai_audit::pi::jsonl::entry_timestamp;
use ai_audit::session_index::mtime_ns_of;
use ai_audit::table::TextMap;
use ai_audit::text::{
    byte_slice, contains, decimal_of, ends_with, join, leading_word, len_bytes, lines, replace_all,
    reversed, signed_decimal_of, split, starts_with, str_eq, trim, trim_end, trim_start,
};
use ai_audit::time::{instant_or, nanos_between, shift, Timestamp};

#[test]
fn documents_are_read_and_printed() {
    let text = r#"{"b":[1,-2,0.5,true,null],"a":{"x":"\"é\""}}"#;
    let document = parse_json(text).unwrap();
    let list = document.get_array("b").unwrap();
    assert_eq!(list[0].as_u64(), Some(1));
    assert_eq!(list[1].as_i64(), Some(-2));
    assert_eq!(list[1].as_u64(), None);
    assert_eq!(list[2].as_i64(), None);
    assert_eq!(list[3].as_bool(), Some(true));
    assert!(matches!(list[4], Json::Null));
    assert_eq!(document.get2("a", "x").and_then(|x| x.as_str()), Some("\"é\""));
    let printed = print_json(&document);
    let read: serde_json::Value = serde_json::from_str(&printed).unwrap();
    let meant: serde_json::Value = serde_json::from_str(text).unwrap();
    assert_eq!(read, meant);
    assert!(parse_json("{").is_none());
    let copy = document.duplicate();
    assert_eq!(print_json(&copy), printed);
}

#[test]
fn large_numbers_keep_their_value() {
    let document = parse_json(r#"{"n":18446744073709551615}"#).unwrap();
    assert_eq!(document.get_u64("n"), Some(u64::MAX));
    assert_eq!(document.get_i64("n"), None);
    assert_eq!(print_json(&document), r#"{"n":18446744073709551615}"#);
}

#[test]
fn texts_are_taken_apart() {
    assert!(str_eq("a", "a"));
    assert!(contains("hello world", "lo wo"));
    assert!(contains("x", ""));
    assert!(!contains("", "x"));
    assert!(starts_with("hello", "he"));
    assert!(ends_with("hello", "lo"));
    assert_eq!(split("a,b,,c", ','), vec!["a", "b", "", "c"]);
    assert_eq!(lines("a\nb\r\nc\n"), vec!["a", "b", "c"]);
    assert!(lines("").is_empty());
    assert_eq!(join(&vec!["a".to_string(), "b".to_string()], ", "), "a, b");
    assert_eq!(trim("\u{a0} a b\t\n"), "a b");
    assert_eq!(trim_start("  a "), "a ");
    assert_eq!(trim_end(" a  "), " a");
    assert_eq!(replace_all("aXbXX", "X", "--"), "a--b----");
    assert_eq!(len_bytes("é€"), 5);
    assert_eq!(byte_slice("é€a", 2, 5), "€");
    assert_eq!(leading_word("word-1 rest"), "word");
    assert_eq!(decimal_of(0), "0");
    assert_eq!(decimal_of(u64::MAX), "18446744073709551615");
    assert_eq!(signed_decimal_of(i64::MIN), "-9223372036854775808");
    assert_eq!(reversed(vec![1, 2, 3]), vec![3, 2, 1]);
    assert!(str_le("a", "b"));
    assert!(str_le("a", "aa"));
    assert!(!str_le("é", "z"));
}

#[test]
fn paths_are_taken_apart() {
    assert!(is_absolute("/a"));
    assert!(!is_absolute("a"));
    assert_eq!(parent("/a/b").as_deref(), Some("/a"));
    assert_eq!(parent("/"), None);
    assert_eq!(file_name("/a/b.rs").as_deref(), Some("b.rs"));
    assert_eq!(file_name("/a/.."), None);
    assert_eq!(strip_prefix("/a/b/c", "/a").as_deref(), Some("b/c"));
    assert_eq!(strip_prefix("/ab", "/a"), None);
    assert_eq!(join_path("/a", "b"), "/a/b");
    assert_eq!(join_path("/a/", "b"), "/a/b");
    assert_eq!(join_path("/a", "/b"), "/b");
    assert_eq!(resolve_path("../x/./y", "/a/b"), "/a/x/y");
    assert_eq!(split_extension("a.b.log"), ("a.b".to_string(), Some("log".to_string())));
    assert_eq!(split_extension(".log"), (".log".to_string(), None));
}

#[test]
fn instants_are_read_and_moved() {
    let written = |text: &str| {
        let entry = parse_json(&format!(r#"{{"timestamp":"{}"}}"#, text)).unwrap();
        entry_timestamp(&entry)
    };
    let t = written("2024-01-15T10:30:00.5Z").unwrap();
    assert_eq!(t, Timestamp { secs: 1705314600, nanos: 500_000_000 });
    assert_eq!(t.millis(), 1705314600500);
    assert_eq!(written("2024-01-15T11:30:00.5+01:00"), Some(t));
    assert!(written("yesterday").is_none());
    let later = shift(t, 5).unwrap();
    assert_eq!(later.secs, t.secs + 5);
    assert!(t.before(later));
    assert!(t.le(t));
    assert_eq!(nanos_between(later, t).abs(), 5_000_000_000);
    assert!(shift(t, i64::MAX).is_none());
    assert_eq!(instant_or(1705314600500, later), t);
    assert_eq!(instant_or(i64::MAX, later), later);
}

#[test]
fn tables_keep_one_value_for_a_key() {
    let mut table = TextMap::new();
    assert!(table.is_empty());
    table.insert("a".to_string(), 1);
    table.insert("b".to_string(), 2);
    table.insert("a".to_string(), 3);
    assert_eq!(table.len(), 2);
    assert_eq!(table.get("a"), Some(&3));
    assert!(table.contains_key("b"));
    assert_eq!(table.remove("a"), Some(3));
    assert_eq!(table.remove("a"), None);
    assert_eq!(table.key_at(0), "b");
    assert_eq!(*table.value_at(0), 2);
}

#[test]
fn times_of_change_are_counted_in_nanoseconds() {
    assert_eq!(mtime_ns_of(None), 0);
    assert_eq!(mtime_ns_of(Some((2, 7))), 2_000_000_007);
}
