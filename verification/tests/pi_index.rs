use ai_audit::pi::session_index::{parse_pi_header, record_of_file, update_and_load};
use ai_audit::session_index::{refresh_sessions, CachedHarnessIndex, CachedSession, ScannedFile};
use std::cell::RefCell;

const ID: &str = "01900000-0000-7000-8000-000000000001";

/// The files below a directory: path, time of the last change, text.
struct Files {
    files: Vec<(String, u64, String)>,
}

impl Files {
    fn with(path: &str, mtime_ns: u64, header: &str) -> Files {
        Files { files: vec![(path.to_string(), mtime_ns, format!("{}\n", header))] }
    }

    fn scanned(&self) -> Vec<ScannedFile> {
        let found = self.files.iter();
        found.map(|f| ScannedFile { path: f.0.clone(), mtime_ns: f.1 }).collect()
    }

    /// Walks over the files, and says how many it read and met.
    fn walk(&self, idx: &mut CachedHarnessIndex) -> (usize, usize) {
        let read = RefCell::new(0);
        let met = refresh_sessions(idx, &self.scanned(), |f: &ScannedFile| {
            *read.borrow_mut() += 1;
            let text = &self.files.iter().find(|g| g.0 == f.path).unwrap().2;
            record_of_file(&f.path, "/base", text)
        });
        let n = *read.borrow();
        (n, met.len())
    }
}

#[test]
fn parse_pi_header_extracts_id_and_cwd() {
    let (id, cwd) = parse_pi_header(
        "{\"type\":\"session\",\"id\":\"01900000-0000-7000-8000-000000000001\",\"cwd\":\"/home/vaab\"}\n",
    )
    .unwrap();
    assert_eq!(id, "01900000-0000-7000-8000-000000000001");
    assert_eq!(cwd, "/home/vaab");
}

#[test]
fn parse_pi_header_returns_none_when_first_line_is_not_session_type() {
    assert!(parse_pi_header("{\"type\":\"message\",\"cwd\":\"/x\"}\n").is_none());
}

#[test]
fn parse_pi_header_returns_none_when_unparseable() {
    assert!(parse_pi_header("not json\n").is_none());
}

#[test]
fn parse_pi_header_handles_missing_cwd_as_empty_string() {
    let (_, cwd) = parse_pi_header(
        "{\"type\":\"session\",\"id\":\"01900000-0000-7000-8000-000000000002\"}\n",
    )
    .unwrap();
    assert_eq!(cwd, "");
}

#[test]
fn walk_indexes_new_files_only_once() {
    let files = Files::with(
        "/base/first.jsonl",
        5,
        r#"{"type":"session","id":"01900000-0000-7000-8000-000000000001","cwd":"/p1"}"#,
    );
    let mut idx = CachedHarnessIndex::empty();
    assert_eq!(files.walk(&mut idx), (1, 1));
    assert_eq!(idx.sessions_by_id.len(), 1);

    // A second walk reads nothing that did not change.
    assert_eq!(files.walk(&mut idx), (0, 1));
    assert_eq!(idx.sessions_by_id.len(), 1);
}

#[test]
fn walk_rescans_when_mtime_changes_and_replaces_cwds() {
    let path = "/base/session.jsonl";
    let old = Files::with(
        path,
        5,
        r#"{"type":"session","id":"01900000-0000-7000-8000-000000000001","cwd":"/old"}"#,
    );
    let mut idx = CachedHarnessIndex::empty();
    old.walk(&mut idx);
    assert_eq!(idx.sessions_by_id.get(ID).unwrap().cwds, vec!["/old"]);

    let new = Files::with(
        path,
        2_000_000_000_000_000_000,
        r#"{"type":"session","id":"01900000-0000-7000-8000-000000000001","cwd":"/new"}"#,
    );
    assert_eq!(new.walk(&mut idx), (1, 1));
    assert_eq!(idx.sessions_by_id.len(), 1);
    assert_eq!(idx.sessions_by_id.get(ID).unwrap().cwds, vec!["/new"]);
}

#[test]
fn walk_descends_into_subdirs() {
    let files = Files::with(
        "/base/--encoded--/ts_uuid/entry/run-0/session.jsonl",
        5,
        r#"{"type":"session","id":"01900000-0000-7000-8000-000000000001","cwd":"/deep"}"#,
    );
    let mut idx = CachedHarnessIndex::empty();
    files.walk(&mut idx);
    assert_eq!(idx.sessions_by_id.len(), 1);
    assert_eq!(idx.sessions_by_id.get(ID).unwrap().cwds, vec!["/deep"]);
}

#[test]
fn walk_skips_files_with_unparseable_headers() {
    let files = Files::with("/base/session.jsonl", 5, "not json");
    let mut idx = CachedHarnessIndex::empty();
    files.walk(&mut idx);
    assert!(idx.sessions_by_id.is_empty());
}

#[test]
fn sessions_whose_files_are_gone_are_dropped() {
    let files = Files::with(
        "/base/session.jsonl",
        5,
        r#"{"type":"session","id":"01900000-0000-7000-8000-000000000001","cwd":"/p"}"#,
    );
    let remembered = || {
        let mut idx = CachedHarnessIndex::empty();
        files.walk(&mut idx);
        let pathless = CachedSession {
            id: "other".to_string(),
            path: None,
            is_child: false,
            mtime_ns: 0,
            cwds: Vec::new(),
        };
        idx.sessions_by_id.insert("other".to_string(), pathless);
        Some(idx)
    };
    let none = Vec::new();
    let read = |_: &ScannedFile| None;
    let index = update_and_load(remembered(), Some(&none), read, |_: &str| false);
    let left: Vec<&str> = index.all().iter().map(|s| s.id.as_str()).collect();
    assert_eq!(left, vec!["other"]);
    let index =
        update_and_load(remembered(), Some(&none), read, |p: &str| p == "/base/session.jsonl");
    assert_eq!(index.all().len(), 2);
    let index = update_and_load(remembered(), None, read, |_: &str| false);
    assert_eq!(index.all().len(), 2);
}
