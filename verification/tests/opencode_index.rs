use ai_audit::json::parse_json;
use ai_audit::opencode::session_index::{
    record_of_file, refresh_file_cache, update_and_load, update_cache, SessionFileRecord,
};
use ai_audit::session_index::{CachedHarnessIndex, CachedSession, FileRecord, ScannedFile};
use std::collections::HashMap;

/// The session files below a directory: path, time of the last change, text.
struct Files {
    files: HashMap<String, (u64, String)>,
}

impl Files {
    fn new() -> Files {
        Files { files: HashMap::new() }
    }

    fn write(&mut self, path: &str, mtime_ns: u64, text: String) {
        self.files.insert(path.to_string(), (mtime_ns, text));
    }

    fn scanned(&self) -> Vec<ScannedFile> {
        let mut paths: Vec<&String> = self.files.keys().collect();
        paths.sort();
        paths
            .into_iter()
            .map(|p| ScannedFile { path: p.clone(), mtime_ns: self.files[p].0 })
            .collect()
    }
}

fn parse_session_file(text: &str) -> Option<FileRecord> {
    let document = parse_json(text)?;
    Some(record_of_file(SessionFileRecord {
        id: document.get_str("id")?.to_string(),
        directory: document.get_str("directory").map(str::to_string),
        parent_id: document.get_str("parentID").map(str::to_string),
    }))
}

fn refresh(files: &Files, idx: &mut CachedHarnessIndex) {
    refresh_file_cache(idx, Some(&files.scanned()), |f: &ScannedFile| {
        parse_session_file(&files.files[&f.path].1)
    });
}

fn make_session_json(id: &str, directory: &str, parent: Option<&str>) -> String {
    match parent {
        Some(p) => format!(
            r#"{{"id":"{}","directory":"{}","parentID":"{}","time":{{"created":0}}}}"#,
            id, directory, p
        ),
        None => format!(
            r#"{{"id":"{}","directory":"{}","time":{{"created":0}}}}"#,
            id, directory
        ),
    }
}

#[test]
fn parse_session_file_extracts_id_directory_and_parent() {
    let text = make_session_json("ses_a", "/proj-a", Some("ses_parent"));
    let parsed = parse_session_file(&text).unwrap();
    assert_eq!(parsed.id, "ses_a");
    assert_eq!(parsed.cwd, "/proj-a");
    assert!(parsed.is_child);
}

#[test]
fn parse_session_file_returns_none_for_corrupt_json() {
    assert!(parse_session_file("not json").is_none());
}

#[test]
fn parse_session_file_handles_missing_directory_as_empty() {
    let parsed = parse_session_file(r#"{"id":"ses_a","time":{"created":0}}"#).unwrap();
    assert_eq!(parsed.cwd, "");
    assert!(!parsed.is_child);
}

#[test]
fn refresh_file_cache_indexes_new_sessions() {
    let mut files = Files::new();
    files.write("proj_hash/ses_a.json", 1, make_session_json("ses_a", "/x", None));
    files.write("proj_hash/ses_b.json", 1, make_session_json("ses_b", "/y", None));

    let mut idx = CachedHarnessIndex::empty();
    refresh(&files, &mut idx);
    assert_eq!(idx.sessions_by_id.len(), 2);
    assert_eq!(idx.sessions_by_id.get("ses_a").unwrap().cwds, vec!["/x"]);
    assert_eq!(idx.sessions_by_id.get("ses_b").unwrap().cwds, vec!["/y"]);
}

#[test]
fn refresh_file_cache_skips_unchanged_files() {
    let mut files = Files::new();
    files.write("proj_hash/ses_a.json", 7, make_session_json("ses_a", "/x", None));

    let mut idx = CachedHarnessIndex::empty();
    refresh(&files, &mut idx);
    let initial_mtime = idx.sessions_by_id.get("ses_a").unwrap().mtime_ns;
    assert_eq!(initial_mtime, 7);

    // A file that did not change is not read again.
    refresh_file_cache(&mut idx, Some(&files.scanned()), |_: &ScannedFile| None);
    assert_eq!(idx.sessions_by_id.get("ses_a").unwrap().mtime_ns, initial_mtime);
}

#[test]
fn refresh_file_cache_rescans_when_mtime_changes_replacing_cwds() {
    let mut files = Files::new();
    files.write("proj_hash/ses_a.json", 1, make_session_json("ses_a", "/old", None));
    let mut idx = CachedHarnessIndex::empty();
    refresh(&files, &mut idx);
    assert_eq!(idx.sessions_by_id.get("ses_a").unwrap().cwds, vec!["/old"]);

    let later = 2_000_000_000_000_000_000;
    files.write("proj_hash/ses_a.json", later, make_session_json("ses_a", "/new", None));
    refresh(&files, &mut idx);
    assert_eq!(idx.sessions_by_id.get("ses_a").unwrap().cwds, vec!["/new"]);
}

#[test]
fn refresh_file_cache_drops_disappeared_sessions() {
    let mut files = Files::new();
    files.write("proj_hash/ses_a.json", 1, make_session_json("ses_a", "/x", None));
    let mut idx = CachedHarnessIndex::empty();
    refresh(&files, &mut idx);
    assert!(idx.sessions_by_id.contains_key("ses_a"));

    files.files.remove("proj_hash/ses_a.json");
    refresh(&files, &mut idx);
    assert!(!idx.sessions_by_id.contains_key("ses_a"));
}

#[test]
fn refresh_file_cache_handles_missing_dir() {
    let mut idx = CachedHarnessIndex::empty();
    refresh_file_cache(&mut idx, None, |_: &ScannedFile| None);
    assert!(idx.sessions_by_id.is_empty());
}

#[test]
fn records_of_the_database_stand_over_files() {
    let mut files = Files::new();
    files.write("proj_hash/ses_a.json", 1, make_session_json("ses_a", "/old", None));
    let cache = update_cache(None, Some(&files.scanned()), |f: &ScannedFile| {
        parse_session_file(&files.files[&f.path].1)
    });
    let more = vec![CachedSession {
        id: "ses_a".to_string(),
        path: None,
        is_child: true,
        mtime_ns: 0,
        cwds: vec!["/new".to_string()],
    }];
    let index = update_and_load(cache, Some(more));
    assert_eq!(index.all().len(), 1);
    assert_eq!(index.all()[0].cwds, vec!["/new"]);
    assert!(index.all()[0].is_child);
}

#[test]
fn a_second_refresh_changes_nothing() {
    let mut files = Files::new();
    files.write("proj_hash/ses_a.json", 1, make_session_json("ses_a", "/x", None));
    files.write("proj_hash/ses_b.json", 2, make_session_json("ses_b", "/y", Some("ses_a")));
    let mut idx = CachedHarnessIndex::empty();
    refresh(&files, &mut idx);
    let kept: Vec<CachedSession> =
        ["ses_a", "ses_b"].map(|id| idx.sessions_by_id.get(id).unwrap().clone()).to_vec();
    refresh(&files, &mut idx);
    assert_eq!(idx.sessions_by_id.len(), 2);
    for session in kept {
        assert_eq!(idx.sessions_by_id.get(&session.id), Some(&session));
    }
}
