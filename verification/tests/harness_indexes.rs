use ai_audit::opencode::session_index::OpenCodeIndex;
use ai_audit::pi::identity::is_uuid_v7;
use ai_audit::pi::session_index::PiIndex;
use ai_audit::session_index::{CachedHarnessIndex, CachedSession};

#[test]
fn opencode_index_for_categ_id_resolves_via_simplify() {
    let mut inner = CachedHarnessIndex::empty();
    inner.sessions_by_id.insert(
        "ses_x".to_string(),
        CachedSession {
            id: "ses_x".to_string(),
            path: None,
            is_child: false,
            mtime_ns: 0,
            cwds: vec!["/foo".to_string()],
        },
    );
    inner.rebuild_by_path();
    let oc = OpenCodeIndex { inner };
    let found = oc.for_categ_id("/foo", |raw: &str| raw.to_string());
    assert_eq!(found.len(), 1);
    assert_eq!(found[0].id, "ses_x");
}

#[test]
fn pi_index_for_categ_id_resolves_via_simplify() {
    let mut inner = CachedHarnessIndex::empty();
    inner.sessions_by_id.insert(
        "ses_x".to_string(),
        CachedSession {
            id: "ses_x".to_string(),
            path: None,
            is_child: false,
            mtime_ns: 0,
            cwds: vec!["/foo".to_string()],
        },
    );
    inner.rebuild_by_path();
    let pi = PiIndex { inner };
    let found = pi.for_categ_id("/foo", |raw: &str| raw.to_string());
    assert_eq!(found.len(), 1);
    assert_eq!(found[0].id, "ses_x");
}

#[test]
fn is_uuid_v7_detects_correct_version() {
    assert!(is_uuid_v7("01900000-0000-7000-8000-000000000001"));
    assert!(!is_uuid_v7("01900000-0000-4000-8000-000000000001"));
    assert!(!is_uuid_v7("01900000"));
}
