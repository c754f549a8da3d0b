use ai_audit::session_index::{CachedHarnessIndex, CachedSession, SCHEMA_VERSION};

fn s(id: &str, cwds: &[&str], is_child: bool) -> CachedSession {
    CachedSession {
        id: id.to_string(),
        path: None,
        is_child,
        mtime_ns: 0,
        cwds: cwds.iter().map(|s| s.to_string()).collect(),
    }
}

#[test]
fn schema_version_is_two() {
    assert_eq!(SCHEMA_VERSION, 2);
}

#[test]
fn add_cwd_inserts_sorted_no_duplicates() {
    let mut session = s("a", &[], false);
    assert!(session.add_cwd("/b".to_string()));
    assert!(session.add_cwd("/a".to_string()));
    assert!(!session.add_cwd("/a".to_string()));
    assert!(session.add_cwd("/c".to_string()));
    assert_eq!(session.cwds, vec!["/a", "/b", "/c"]);
}

#[test]
fn rebuild_by_path_groups_sessions_by_each_cwd_they_touched() {
    let mut idx = CachedHarnessIndex::empty();
    idx.sessions_by_id
        .insert("ses_1".to_string(), s("ses_1", &["/a", "/b"], false));
    idx.sessions_by_id
        .insert("ses_2".to_string(), s("ses_2", &["/a"], false));
    idx.rebuild_by_path();
    let mut a_ids = idx.by_path.get("/a").cloned().unwrap_or_default();
    a_ids.sort();
    assert_eq!(a_ids, vec!["ses_1", "ses_2"]);
    assert_eq!(idx.by_path.get("/b"), Some(&vec!["ses_1".to_string()]));
    assert!(!idx.by_path.contains_key("/missing"));
}

#[test]
fn rebuild_by_path_handles_empty() {
    let mut idx = CachedHarnessIndex::empty();
    idx.rebuild_by_path();
    assert!(idx.by_path.is_empty());
}

#[test]
fn rebuild_by_path_dedups_within_bucket() {
    let mut idx = CachedHarnessIndex::empty();
    let mut session = s("ses_1", &["/a"], false);
    session.cwds.push("/a".to_string()); // simulated corruption
    idx.sessions_by_id.insert("ses_1".to_string(), session);
    idx.rebuild_by_path();
    assert_eq!(idx.by_path.get("/a"), Some(&vec!["ses_1".to_string()]));
}

#[test]
fn remove_session_clears_both_maps() {
    let mut idx = CachedHarnessIndex::empty();
    idx.sessions_by_id
        .insert("ses_1".to_string(), s("ses_1", &["/a", "/b"], false));
    idx.sessions_by_id
        .insert("ses_2".to_string(), s("ses_2", &["/a"], false));
    idx.rebuild_by_path();
    idx.remove_session("ses_1");
    assert!(!idx.sessions_by_id.contains_key("ses_1"));
    assert_eq!(idx.by_path.get("/a"), Some(&vec!["ses_2".to_string()]));
    assert!(!idx.by_path.contains_key("/b"));
}

#[test]
fn remove_session_is_noop_when_id_unknown() {
    let mut idx = CachedHarnessIndex::empty();
    idx.sessions_by_id
        .insert("ses_1".to_string(), s("ses_1", &["/a"], false));
    idx.rebuild_by_path();
    idx.remove_session("missing");
    assert_eq!(idx.sessions_by_id.len(), 1);
}

#[test]
fn lookup_by_categ_id_matches_via_simplify_closure() {
    let mut idx = CachedHarnessIndex::empty();
    idx.sessions_by_id
        .insert("ses_1".to_string(), s("ses_1", &["/dev/charm"], false));
    idx.sessions_by_id
        .insert("ses_2".to_string(), s("ses_2", &["/dev/charm"], false));
    idx.sessions_by_id
        .insert("ses_3".to_string(), s("ses_3", &["/home/vaab"], false));
    idx.rebuild_by_path();

    let simplify = |raw: &str| raw.replace("/dev/", "DEV>");
    let mut found: Vec<&str> = idx
        .lookup_by_categ_id("DEV>charm", simplify)
        .iter()
        .map(|s| s.id.as_str())
        .collect();
    found.sort();
    assert_eq!(found, vec!["ses_1", "ses_2"]);
}

#[test]
fn lookup_by_categ_id_dedups_when_session_in_multiple_buckets() {
    let mut idx = CachedHarnessIndex::empty();
    idx.sessions_by_id.insert(
        "ses_1".to_string(),
        s("ses_1", &["/path/A", "/other/A"], false),
    );
    idx.rebuild_by_path();

    let simplify = |raw: &str| {
        raw.rsplit_once('/')
            .map(|(_, last)| last.to_string())
            .unwrap_or_default()
    };
    let found = idx.lookup_by_categ_id("A", simplify);
    assert_eq!(found.len(), 1);
    assert_eq!(found[0].id, "ses_1");
}

#[test]
fn lookup_by_categ_id_returns_empty_on_no_match() {
    let mut idx = CachedHarnessIndex::empty();
    idx.sessions_by_id
        .insert("ses_1".to_string(), s("ses_1", &["/a"], false));
    idx.rebuild_by_path();
    let simplify = |raw: &str| raw.to_string();
    assert!(idx.lookup_by_categ_id("/missing", simplify).is_empty());
}

#[test]
fn cached_harness_index_default_has_correct_schema() {
    let idx = CachedHarnessIndex::empty();
    assert_eq!(idx.schema_version, SCHEMA_VERSION);
    assert!(idx.sessions_by_id.is_empty());
    assert!(idx.by_path.is_empty());
}
