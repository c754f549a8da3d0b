//! The project that a directory belongs to.

use crate::paths::{
    behind, below, file_name, join_path, name_of, parent, parent_of, parents_are_shorter,
    strip_prefix,
};
use vstd::prelude::*;

verus! {

/// The project that a directory belongs to.
#[derive(Clone, PartialEq, Eq, Debug)]
pub struct ProjectInfo {
    /// The directory.
    pub cwd: String,
    /// Where the repository is, with `~` for the home directory; the directory
    /// itself where there is no repository.
    pub project_path: String,
    /// The name of the repository; empty where there is none.
    pub project: String,
    /// The directory from the repository on; empty where there is none.
    pub subpath: String,
}

/// The directories that hold a path, the path itself first.
pub open spec fn ancestors(s: Seq<char>) -> Seq<Seq<char>>
    decreases s.len(),
{
    match parent_of(s) {
        Some(p) if p.len() < s.len() => seq![s] + ancestors(p),
        _ => seq![s],
    }
}

/// The path with `~` in place of the home directory.
pub open spec fn home_collapsed(path: Seq<char>, home: Option<Seq<char>>) -> Seq<char> {
    match home {
        Some(h) => match behind(path, h) {
            Some(rest) => if rest.len() == 0 {
                "~"@
            } else {
                "~/"@ + rest
            },
            None => path,
        },
        None => path,
    }
}

/// The path with `~` in place of the home directory.
pub fn collapse_home(path: &str, home: Option<&str>) -> (r: String)
    ensures
        r@ == home_collapsed(path@, home.deep_view()),
{
    match home {
        Some(h) => match strip_prefix(path, h) {
            Some(rest) => if rest.as_str().is_empty() {
                "~".to_owned()
            } else {
                let mut r = "~/".to_owned();
                r.append(rest.as_str());
                r
            },
            None => path.to_owned(),
        },
        None => path.to_owned(),
    }
}

/// A project, by the content of its fields.
pub ghost struct ProjectView {
    pub cwd: Seq<char>,
    pub project_path: Seq<char>,
    pub project: Seq<char>,
    pub subpath: Seq<char>,
}

impl View for ProjectInfo {
    type V = ProjectView;

    open spec fn view(&self) -> ProjectView {
        ProjectView {
            cwd: self.cwd@,
            project_path: self.project_path@,
            project: self.project@,
            subpath: self.subpath@,
        }
    }
}

/// The project of a directory, given the repository that it lies in, if any.
pub open spec fn project_of(
    cwd: Seq<char>,
    repository: Option<Seq<char>>,
    home: Option<Seq<char>>,
) -> ProjectView {
    match repository {
        Some(root) => ProjectView {
            cwd,
            project_path: home_collapsed(
                match parent_of(root) {
                    Some(p) => p,
                    None => root,
                },
                home,
            ),
            project: match name_of(root) {
                Some(name) => name,
                None => Seq::empty(),
            },
            subpath: match behind(cwd, root) {
                Some(rest) => rest,
                None => Seq::empty(),
            },
        },
        None => ProjectView {
            cwd,
            project_path: home_collapsed(cwd, home),
            project: Seq::empty(),
            subpath: Seq::empty(),
        },
    }
}

/// The project of a directory, given the repository that it lies in, if any.
pub fn project_info(cwd: &str, repository: Option<String>, home: Option<&str>) -> (r: ProjectInfo)
    ensures
        r@ == project_of(cwd@, repository.deep_view(), home.deep_view()),
{
    match repository {
        Some(root) => {
            let above = parent(root.as_str());
            let project_path = match above {
                Some(p) => collapse_home(p.as_str(), home),
                None => collapse_home(root.as_str(), home),
            };
            let project = match file_name(root.as_str()) {
                Some(name) => name,
                None => String::new(),
            };
            let subpath = match strip_prefix(cwd, root.as_str()) {
                Some(rest) => rest,
                None => String::new(),
            };
            ProjectInfo { cwd: cwd.to_owned(), project_path, project, subpath }
        },
        None => ProjectInfo {
            cwd: cwd.to_owned(),
            project_path: collapse_home(cwd, home),
            project: String::new(),
            subpath: String::new(),
        },
    }
}

/// Whether `exists` may say this of a path.
pub open spec fn may_exist<E: Fn(&String) -> bool>(
    exists_at: E,
    path: Seq<char>,
    answer: bool,
) -> bool {
    exists|p: String| #[trigger] call_ensures(exists_at, (&p,), answer) && p@ == path
}

/// Whether `found` is the first of the directories that holds a repository.
pub open spec fn is_nearest<E: Fn(&String) -> bool>(
    exists_at: E,
    dirs: Seq<Seq<char>>,
    found: Option<Seq<char>>,
) -> bool {
    match found {
        Some(root) => exists|i: int|
            {
                &&& 0 <= i < dirs.len()
                &&& #[trigger] dirs[i] == root
                &&& may_exist(exists_at, below(root, ".git"@), true)
                &&& forall|j: int|
                    0 <= j < i ==> may_exist(exists_at, below(#[trigger] dirs[j], ".git"@), false)
            },
        None => forall|j: int|
            0 <= j < dirs.len() ==> may_exist(exists_at, below(#[trigger] dirs[j], ".git"@), false),
    }
}

/// The project of a directory: that of the nearest directory above it, itself
/// included, that holds a repository. `exists_at` says whether there is a file or
/// a directory at a path.
pub fn project_info_from_cwd<E: Fn(&String) -> bool>(cwd: &str, home: Option<&str>, exists_at: E) -> (r:
    ProjectInfo)
    requires
        forall|p: &String| call_requires(exists_at, (p,)),
    ensures
        exists|root: Option<Seq<char>>| #[trigger]
            is_nearest(exists_at, ancestors(cwd@), root) && r@ == project_of(
                cwd@,
                root,
                home.deep_view(),
            ),
{
    let ghost dirs = ancestors(cwd@);
    let ghost mut i: int = 0;
    let mut dir = cwd.to_owned();
    assert(dirs.skip(0) == dirs);
    loop
        invariant
            0 <= i < dirs.len(),
            dirs == ancestors(cwd@),
            dirs.skip(i) == ancestors(dir@),
            forall|p: &String| call_requires(exists_at, (p,)),
            forall|j: int|
                0 <= j < i ==> may_exist(exists_at, below(#[trigger] dirs[j], ".git"@), false),
        decreases dir@.len(),
    {
        assert(dirs[i] == dirs.skip(i)[0]);
        assert(dirs[i] == dir@);
        let git = join_path(dir.as_str(), ".git");
        let here = exists_at(&git);
        assert(may_exist(exists_at, below(dir@, ".git"@), here));
        if here {
            let ghost root = Some(dir@);
            assert(is_nearest(exists_at, dirs, root));
            return project_info(cwd, Some(dir), home);
        }
        match parent(dir.as_str()) {
            Some(p) => {
                proof {
                    assert(dirs.skip(i).skip(1) == ancestors(p@)) by {
                        assert((seq![dir@] + ancestors(p@)).skip(1) =~= ancestors(p@));
                    }
                    assert(dirs.skip(i + 1) =~= dirs.skip(i).skip(1));
                    assert(ancestors(p@).len() > 0);
                    i = i + 1;
                }
                dir = p;
            },
            None => {
                proof {
                    assert(dirs.skip(i) == seq![dir@]);
                    assert(dirs.len() == i + 1);
                }
                let ghost root: Option<Seq<char>> = None;
                assert(is_nearest(exists_at, dirs, root));
                return project_info(cwd, None, home);
            },
        }
    }
}

/// A path below the home directory is shown from there on, and any other as it is.
pub proof fn home_is_shown_by_its_sign(path: Seq<char>, home: Seq<char>)
    ensures
        home_collapsed(path, None) == path,
        behind(path, home) is None ==> home_collapsed(path, Some(home)) == path,
        behind(path, home) matches Some(rest) ==> {
            &&& home_collapsed(path, Some(home)).len() > 0
            &&& home_collapsed(path, Some(home))[0] == '~'
            &&& rest.len() == 0 ==> home_collapsed(path, Some(home)).len() == 1
            &&& rest.len() > 0 ==> home_collapsed(path, Some(home)) == seq!['~', '/'] + rest
        },
{
    reveal_strlit("~");
    reveal_strlit("~/");
    assert("~/"@ =~= seq!['~', '/']);
}

/// A directory in a repository is of the project of the repository's name, which lies in
/// the repository's parent; without one there is no project.
pub proof fn projects_are_named_by_their_repository(
    cwd: Seq<char>,
    root: Seq<char>,
    home: Option<Seq<char>>,
)
    ensures
        project_of(cwd, Some(root), home).cwd == cwd,
        name_of(root) is Some ==> Some(project_of(cwd, Some(root), home).project) == name_of(root),
        parent_of(root) is Some ==> project_of(cwd, Some(root), home).project_path
            == home_collapsed(parent_of(root)->0, home),
        behind(cwd, root) is Some ==> Some(project_of(cwd, Some(root), home).subpath) == behind(
            cwd,
            root,
        ),
        project_of(cwd, None, home).cwd == cwd,
        project_of(cwd, None, home).project_path == home_collapsed(cwd, home),
        project_of(cwd, None, home).project.len() == 0,
        project_of(cwd, None, home).subpath.len() == 0,
{
}

/// The directories above one are itself, its parent, and those above its parent.
pub proof fn ancestors_go_up(dir: Seq<char>)
    ensures
        ancestors(dir)[0] == dir,
        parent_of(dir) is None ==> ancestors(dir).len() == 1,
        parent_of(dir) matches Some(p) ==> ancestors(dir) == seq![dir] + ancestors(p),
{
    parents_are_shorter(dir);
}

/// The repository that is found is the nearest: a directory above that has the mark of one,
/// with none nearer that has it. Gives how far up it is.
pub proof fn the_nearest_repository_counts<E: Fn(&String) -> bool>(
    exists_at: E,
    cwd: Seq<char>,
    root: Seq<char>,
) -> (i: int)
    requires
        is_nearest(exists_at, ancestors(cwd), Some(root)),
    ensures
        0 <= i < ancestors(cwd).len(),
        ancestors(cwd)[i] == root,
        may_exist(exists_at, below(root, ".git"@), true),
        forall|j: int|
            0 <= j < i ==> may_exist(
                exists_at,
                below(#[trigger] ancestors(cwd)[j], ".git"@),
                false,
            ),
{
    choose|i: int|
        {
            &&& 0 <= i < ancestors(cwd).len()
            &&& #[trigger] ancestors(cwd)[i] == root
            &&& may_exist(exists_at, below(root, ".git"@), true)
            &&& forall|j: int|
                0 <= j < i ==> may_exist(
                    exists_at,
                    below(#[trigger] ancestors(cwd)[j], ".git"@),
                    false,
                )
        }
}

/// It is the path that is looked for: where it is always there, or never, that is the answer.
pub proof fn paths_are_looked_for_themselves<E: Fn(&String) -> bool>(
    exists_at: E,
    path: Seq<char>,
    answer: bool,
    there: bool,
)
    requires
        forall|p: String, r: bool| #[trigger]
            call_ensures(exists_at, (&p,), r) && p@ == path ==> r == there,
        may_exist(exists_at, path, answer),
    ensures
        answer == there,
{
}

} // verus!
