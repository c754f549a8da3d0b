use ai_audit::project::ProjectInfo;
use std::cell::RefCell;

const TMP: &str = "/tmp/base";
const HOME: &str = "/home/u";

/// The paths at which something exists.
struct Disk {
    paths: RefCell<Vec<String>>,
}

fn disk() -> Disk {
    Disk { paths: RefCell::new(Vec::new()) }
}

fn fake_git_repo_dir(disk: &Disk, parent: &str, name: &str) -> String {
    let repo = format!("{}/{}", parent, name);
    disk.paths.borrow_mut().push(format!("{}/.git", repo));
    repo
}

fn project_info_from_cwd(disk: &Disk, cwd: &str) -> ProjectInfo {
    ai_audit::project::project_info_from_cwd(cwd, Some(HOME), |path: &String| {
        disk.paths.borrow().contains(path)
    })
}

fn collapse_home(path: &str) -> String {
    ai_audit::project::collapse_home(path, Some(HOME))
}

#[test]
fn cwd_inside_repo_with_subfolder() {
    let disk = disk();
    let repo = fake_git_repo_dir(&disk, TMP, "myproj");
    let inner = format!("{}/src/sub", repo);

    let info = project_info_from_cwd(&disk, &inner);
    assert_eq!(info.cwd, inner);
    assert_eq!(info.project, "myproj");
    assert_eq!(info.subpath, "src/sub");
    assert_eq!(info.project_path, collapse_home(TMP));
}

#[test]
fn cwd_at_repo_root() {
    let disk = disk();
    let repo = fake_git_repo_dir(&disk, TMP, "myproj");

    let info = project_info_from_cwd(&disk, &repo);
    assert_eq!(info.project, "myproj");
    assert_eq!(info.subpath, "");
    assert_eq!(info.project_path, collapse_home(TMP));
}

#[test]
fn no_git_ancestor() {
    let synthetic = "/nonexistent-zzz-xyz/notes/scratch";
    let info = project_info_from_cwd(&disk(), synthetic);
    assert_eq!(info.project, "");
    assert_eq!(info.subpath, "");
    assert_eq!(info.project_path, collapse_home(synthetic));
    assert_eq!(info.cwd, synthetic);
}

#[test]
fn nested_repos_innermost_wins() {
    let disk = disk();
    let outer = fake_git_repo_dir(&disk, TMP, "outer");
    let inner = fake_git_repo_dir(&disk, &outer, "inner");
    let deep = format!("{}/src", inner);

    let info = project_info_from_cwd(&disk, &deep);
    assert_eq!(info.project, "inner");
    assert_eq!(info.subpath, "src");
    assert_eq!(info.project_path, collapse_home(&outer));
}

#[test]
fn git_as_file_worktree() {
    // A worktree has a file of that name in place of a directory.
    let disk = disk();
    let wt = fake_git_repo_dir(&disk, TMP, "worktree-A");
    let inside = format!("{}/src", wt);

    let info = project_info_from_cwd(&disk, &inside);
    assert_eq!(info.project, "worktree-A");
    assert_eq!(info.subpath, "src");
    assert_eq!(info.project_path, collapse_home(TMP));
}

#[test]
fn home_collapsed_to_tilde() {
    assert_eq!(collapse_home("/home/u/some/where"), "~/some/where");
    assert_eq!(collapse_home("/home/uu/some"), "/home/uu/some");
}

#[test]
fn home_itself_collapses_to_just_tilde() {
    assert_eq!(collapse_home(HOME), "~");
}

#[test]
fn path_outside_home_unchanged() {
    let outside = "/var/tmp/somewhere";
    assert_eq!(collapse_home(outside), outside);
}
