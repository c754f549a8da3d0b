use ai_audit::pi::delete::{
    delete_session, list_child_sessions, list_descendants, next_step, plan_deletion, preview_ids,
    would_become_empty_after, DeleteAnswers, DeleteRequest, PiDeleteReport, Removal,
};
use ai_audit::pi::home::{pi_data_dir, sessions_dir};
use ai_audit::pi::session::{build_session_info, find_session_file, SessionInfo};
use ai_audit::session_index::{CachedHarnessIndex, CachedSession};
use ai_audit::steps::Step;
use ai_audit::time::Timestamp;
use std::cell::RefCell;

const UUID_TOP: &str = "019191cd-7be0-7000-8000-000000000001";
const UUID_CHILD_1: &str = "019191cd-7be0-7000-8000-000000000002";
const UUID_CHILD_2: &str = "019191cd-7be0-7000-8000-000000000003";
const UUID_UNRELATED: &str = "019191cd-7be0-7000-8000-00000000000a";

const BASE: &str = "/pi/sessions";

/// The session files below a directory, by path, and the directories deleted.
struct Disk {
    files: RefCell<Vec<(String, String)>>,
    pruned: RefCell<Vec<String>>,
}

impl Disk {
    fn new() -> Disk {
        Disk { files: RefCell::new(Vec::new()), pruned: RefCell::new(Vec::new()) }
    }

    fn write(&self, path: String, id: &str, at: &str, cwd: &str) -> String {
        let text = format!(
            r#"{{"type":"session","version":3,"id":"{}","timestamp":"{}","cwd":"{}"}}"#,
            id, at, cwd
        );
        self.files.borrow_mut().push((path.clone(), text));
        path
    }

    fn has(&self, path: &str) -> bool {
        self.files.borrow().iter().any(|f| f.0 == path)
    }

    fn below(&self, dir: &str) -> Vec<String> {
        let files = self.files.borrow();
        let prefix = format!("{}/", dir);
        files.iter().map(|f| f.0.clone()).filter(|p| p.starts_with(&prefix)).collect()
    }

    fn delete_session(
        &self,
        session_id: &str,
        cascade: bool,
        dry_run: bool,
    ) -> Result<PiDeleteReport, String> {
        let mut index = CachedHarnessIndex::empty();
        for id in [UUID_TOP, UUID_CHILD_1, UUID_CHILD_2, UUID_UNRELATED] {
            let session = CachedSession {
                id: id.to_string(),
                path: None,
                is_child: false,
                mtime_ns: 0,
                cwds: vec!["/tmp/proj".to_string()],
            };
            index.sessions_by_id.insert(id.to_string(), session);
        }
        let sessions = self
            .files
            .borrow()
            .iter()
            .filter_map(|f| build_session_info(&f.1, &f.0, BASE))
            .collect();
        let find = |_: (), id: &str| {
            let files = self.files.borrow();
            let paths = files.iter().map(|f| f.0.clone()).collect();
            let found = find_session_file(&paths, id, |path: &str| {
                files.iter().find(|f| f.0 == path).map(|f| f.1.clone())
            });
            ((), found)
        };
        let unlink = |_: (), path: &str| {
            if !self.has(path) {
                return ((), Removal::Missing);
            }
            self.files.borrow_mut().retain(|f| f.0 != path);
            ((), Removal::Done)
        };
        let prune = |_: (), dir: &str| {
            let empty = self.below(dir).is_empty();
            if empty {
                self.pruned.borrow_mut().push(dir.to_string());
            }
            ((), empty)
        };
        let empties = |_: (), dir: &str, path: &str| {
            ((), would_become_empty_after(Some(&self.below(dir)), &vec![path.to_string()]))
        };
        let (_, outcome) = delete_session(
            session_id, cascade, dry_run, &sessions, index, (), find, empties, unlink, prune,
        );
        let (report, left) = outcome?;
        match left {
            Some(index) => {
                assert!(!dry_run);
                assert!(index.sessions_by_id.get(session_id).is_none());
                for id in list_descendants(&sessions, session_id) {
                    assert!(index.sessions_by_id.get(&id).is_none());
                }
                assert!(index.sessions_by_id.get(UUID_UNRELATED).is_some());
            }
            None => assert!(dry_run),
        }
        Ok(report)
    }
}

fn seed_top_level(disk: &Disk, encoded_cwd: &str, id: &str, cwd: &str) -> String {
    let path = format!("{}/{}/2026-01-01T00-00-00_{}.jsonl", BASE, encoded_cwd, id);
    disk.write(path, id, "2026-01-01T00:00:00Z", cwd)
}

fn seed_subagent(disk: &Disk, encoded_cwd: &str, run_n: usize, id: &str, cwd: &str) -> String {
    let path = format!(
        "{}/{}/2026-01-01T00-00-00_{}/entry_1/run-{}/session.jsonl",
        BASE, encoded_cwd, UUID_TOP, run_n
    );
    disk.write(path, id, "2026-01-01T00:00:01Z", cwd)
}

#[test]
fn delete_session_removes_top_level_jsonl_and_prunes_dir() {
    let disk = Disk::new();
    let path = seed_top_level(&disk, "-tmp-proj", UUID_TOP, "/tmp/proj");

    let report = disk.delete_session(UUID_TOP, false, false).unwrap();

    assert!(!disk.has(&path));
    assert_eq!(*disk.pruned.borrow(), vec![format!("{}/-tmp-proj", BASE)]);
    assert!(report.pruned_project_dir);
    assert_eq!(report.cascaded, 0);
}

#[test]
fn delete_session_keeps_non_empty_project_dir() {
    let disk = Disk::new();
    let target = seed_top_level(&disk, "-tmp-proj", UUID_TOP, "/tmp/proj");
    let sibling = seed_top_level(&disk, "-tmp-proj", UUID_UNRELATED, "/tmp/proj");

    let report = disk.delete_session(UUID_TOP, false, false).unwrap();

    assert!(!disk.has(&target));
    assert!(disk.has(&sibling), "sibling session must survive");
    assert!(disk.pruned.borrow().is_empty(), "project dir kept (has sibling)");
    assert!(!report.pruned_project_dir);
}

#[test]
fn delete_session_refuses_without_cascade_when_children_exist() {
    let disk = Disk::new();
    let parent = seed_top_level(&disk, "-tmp-proj", UUID_TOP, "/tmp/proj");
    let child = seed_subagent(&disk, "-tmp-proj", 0, UUID_CHILD_1, "/tmp/proj");

    let msg = disk.delete_session(UUID_TOP, false, false).err().unwrap();
    assert!(msg.contains("--cascade"));
    assert!(msg.contains(UUID_CHILD_1) || msg.contains("1 child"));

    assert!(disk.has(&parent));
    assert!(disk.has(&child));
}

#[test]
fn delete_session_cascade_removes_children_and_parent() {
    let disk = Disk::new();
    let parent = seed_top_level(&disk, "-tmp-proj", UUID_TOP, "/tmp/proj");
    let child_1 = seed_subagent(&disk, "-tmp-proj", 0, UUID_CHILD_1, "/tmp/proj");
    let child_2 = seed_subagent(&disk, "-tmp-proj", 1, UUID_CHILD_2, "/tmp/proj");

    let report = disk.delete_session(UUID_TOP, true, false).unwrap();

    assert!(!disk.has(&parent));
    assert!(!disk.has(&child_1));
    assert!(!disk.has(&child_2));
    assert_eq!(report.cascaded, 2);
}

#[test]
fn delete_session_dry_run_does_not_write() {
    let disk = Disk::new();
    let path = seed_top_level(&disk, "-tmp-proj", UUID_TOP, "/tmp/proj");

    let report = disk.delete_session(UUID_TOP, false, true).unwrap();
    assert!(disk.has(&path));
    assert!(report.paths.iter().any(|p| p == &path));
    assert!(report.pruned_project_dir);
}

#[test]
fn delete_session_dry_run_with_cascade_predicts_children() {
    let disk = Disk::new();
    let parent = seed_top_level(&disk, "-tmp-proj", UUID_TOP, "/tmp/proj");
    let child = seed_subagent(&disk, "-tmp-proj", 0, UUID_CHILD_1, "/tmp/proj");

    let report = disk.delete_session(UUID_TOP, true, true).unwrap();
    assert!(disk.has(&parent));
    assert!(disk.has(&child));
    assert_eq!(report.cascaded, 1);
    assert!(report.paths.iter().any(|p| p == &child));
    assert!(report.paths.iter().any(|p| p == &parent));
}

#[test]
fn delete_session_is_noop_on_missing() {
    let disk = Disk::new();
    let report = disk.delete_session(UUID_TOP, false, false).unwrap();
    assert_eq!(report.count(), 0);
    assert_eq!(report.cascaded, 0);
}

#[test]
fn a_dry_run_foretells_the_deletion() {
    let foretold = {
        let disk = Disk::new();
        seed_top_level(&disk, "-tmp-proj", UUID_TOP, "/tmp/proj");
        seed_top_level(&disk, "-tmp-proj", UUID_UNRELATED, "/tmp/proj");
        disk.delete_session(UUID_TOP, true, true).unwrap()
    };
    let disk = Disk::new();
    seed_top_level(&disk, "-tmp-proj", UUID_TOP, "/tmp/proj");
    seed_top_level(&disk, "-tmp-proj", UUID_UNRELATED, "/tmp/proj");
    let done = disk.delete_session(UUID_TOP, true, false).unwrap();
    assert_eq!(done.paths, foretold.paths);
    assert_eq!(done.pruned_project_dir, foretold.pruned_project_dir);
    assert_eq!(done.cascaded, foretold.cascaded);
}

#[test]
fn previews_name_a_few_sessions() {
    let ids = |n: usize| (0..n).map(|i| format!("s{}", i)).collect::<Vec<String>>();
    assert_eq!(preview_ids(&ids(2)), "s0, s1");
    let long = preview_ids(&ids(9));
    assert!(long.starts_with("s0, s1"));
    assert!(!long.contains("s8"));
}

#[test]
fn directories_that_cannot_be_listed_do_not_become_empty() {
    assert!(!would_become_empty_after(None, &vec!["/a/b".to_string()]));
    assert!(would_become_empty_after(Some(&vec!["/a/b".to_string()]), &vec!["/a/b".to_string()]));
    let two = vec!["/a/b".to_string(), "/a/c".to_string()];
    assert!(!would_become_empty_after(Some(&two), &vec!["/a/b".to_string()]));
}

#[test]
fn test_pi_data_dir_default() {
    let dir = pi_data_dir(None, Some("/home/u"));
    assert!(dir.ends_with(".pi/agent"));
    assert_eq!(dir, "/home/u/.pi/agent");
}

#[test]
fn test_pi_data_dir_override() {
    let dir = pi_data_dir(Some("/tmp/custom-pi-dir"), Some("/home/u"));
    assert_eq!(dir, "/tmp/custom-pi-dir");
}

#[test]
fn test_sessions_dir_under_data_dir() {
    let dir = pi_data_dir(Some("/tmp/test-pi"), None);
    assert_eq!(sessions_dir(&dir), "/tmp/test-pi/sessions");
}

fn info(id: &str, parent: Option<&str>) -> SessionInfo {
    SessionInfo {
        session_id: id.to_string(),
        started_at: Timestamp { secs: 0, nanos: 0 },
        updated_at: Timestamp { secs: 0, nanos: 0 },
        project_dir: String::new(),
        title: String::new(),
        parent_id: parent.map(str::to_string),
    }
}

#[test]
fn a_subtree_is_listed_depth_first() {
    let sessions = vec![
        info("p", None),
        info("c1", Some("p")),
        info("g1", Some("c1")),
        info("g2", Some("c2")),
        info("c2", Some("p")),
        info("other", None),
    ];
    assert_eq!(list_child_sessions(&sessions, "p"), vec!["c1", "c2"]);
    assert_eq!(list_descendants(&sessions, "p"), vec!["g1", "c1", "g2", "c2"]);
    assert_eq!(list_descendants(&sessions, "c2"), vec!["g2"]);
    assert!(list_descendants(&sessions, "other").is_empty());
    let around = vec![info("a", Some("b")), info("b", Some("a"))];
    assert_eq!(list_descendants(&around, "a"), vec!["b"]);
}

#[test]
fn a_cascade_reaches_the_children_of_children() {
    let disk = Disk::new();
    let parent = seed_top_level(&disk, "-tmp-proj", UUID_TOP, "/tmp/proj");
    let child = seed_subagent(&disk, "-tmp-proj", 0, UUID_CHILD_1, "/tmp/proj");
    let below_child = format!(
        "{}/-tmp-proj/2026-01-01T00-00-00_{}/entry_1/run-0/2026-01-01T00-00-01_{}/entry_1/run-0/session.jsonl",
        BASE, UUID_TOP, UUID_CHILD_1
    );
    let grandchild = disk.write(below_child, UUID_CHILD_2, "2026-01-01T00:00:02Z", "/tmp/proj");
    let other = seed_top_level(&disk, "-tmp-other", UUID_UNRELATED, "/tmp/other");

    let report = disk.delete_session(UUID_TOP, true, false).unwrap();
    assert!(!disk.has(&parent) && !disk.has(&child) && !disk.has(&grandchild));
    assert!(disk.has(&other));
    assert_eq!(report.cascaded, 2);
}

#[test]
fn dry_runs_and_refusals_ask_for_no_deletion() {
    let sessions = vec![info("p", None), info("c", Some("p"))];
    for (cascade, dry_run) in [(true, true), (false, false), (false, true)] {
        let job = plan_deletion("p", cascade, dry_run, &sessions);
        let mut answers = DeleteAnswers::none();
        let outcome = loop {
            match next_step(&job, &answers) {
                Step::Request(DeleteRequest::Find(id)) => {
                    let file = Some(format!("/s/{}.jsonl", id));
                    if answers.own.is_none() {
                        answers.own = Some(file);
                    } else {
                        answers.files.push(file);
                    }
                }
                Step::Request(DeleteRequest::WouldEmpty(dir, _)) => {
                    assert_eq!(dir, "/s");
                    answers.would_empty = Some(false);
                }
                Step::Request(_) => panic!("nothing is to be deleted"),
                Step::Done(outcome) => break outcome,
            }
        };
        assert_eq!(outcome.is_err(), !cascade);
    }
}
