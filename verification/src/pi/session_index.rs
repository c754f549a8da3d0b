//! The sessions of Pi, which an index remembers.

use crate::json::{Json, JsonView, json_in, parse_json};
use crate::pi::identity::{derive_parent_id, parent_session};
use crate::session_index::index::{
    CachedHarnessIndex, CachedSession, SCHEMA_VERSION, SessionView, finds_category, is_grouped,
    may_simplify,
};
use crate::session_index::refresh::{
    FileRecord, Reading, RecordView, ScannedFile, contains_after_push, drop_sessions,
    dropping_keeps_the_form, dropping_keeps_the_others, is_refresh, refresh_sessions, start_refresh,
    starting_point,
};
use crate::table::{entry_is_mapped, keys_differ};
use crate::text::{lines, lines_of, str_eq, trim, trimmed};
use vstd::prelude::*;

verus! {

/// The name of the stored index.
pub const CACHE_FILE: &'static str = "pi.json";

/// The sessions of Pi.
pub struct PiIndex {
    pub inner: CachedHarnessIndex,
}

impl PiIndex {
    /// All sessions, each once.
    pub fn all(&self) -> (r: Vec<&CachedSession>)
        ensures
            r@.len() == self.inner.sessions_by_id.items().len(),
            forall|i: int|
                0 <= i < r@.len() ==> *(#[trigger] r@[i]) == self.inner.sessions_by_id.items()[i].1,
    {
        self.inner.all_sessions()
    }

    /// The sessions that worked in a directory with a simple name, each once.
    pub fn for_categ_id<F: Fn(&str) -> String>(&self, categ_id: &str, simplify: F) -> (r: Vec<
        &CachedSession,
    >)
        requires
            forall|p: &str| call_requires(simplify, (p,)),
        ensures
            exists|names: Map<Seq<char>, Seq<char>>, ids: Seq<Seq<char>>|
                {
                    &&& forall|cwd: Seq<char>| #[trigger]
                        self.inner@.by_path.dom().contains(cwd) ==> may_simplify(
                            simplify,
                            cwd,
                            names[cwd],
                        )
                    &&& #[trigger] finds_category(self.inner, names, categ_id@, ids, r@)
                },
    {
        self.inner.lookup_by_categ_id(categ_id, simplify)
    }
}

/// The session and the directory that a header line names.
pub open spec fn header_facts(header: JsonView) -> Option<(Seq<char>, Seq<char>)> {
    if header.get_str("type"@) != Some("session"@) {
        None
    } else {
        match header.get_str("id"@) {
            Some(id) => Some(
                (
                    id,
                    match header.get_str("cwd"@) {
                        Some(cwd) => cwd,
                        None => Seq::empty(),
                    },
                ),
            ),
            None => None,
        }
    }
}

/// The first line that is not blank.
pub open spec fn first_filled(lines: Seq<Seq<char>>) -> Option<Seq<char>>
    decreases lines.len(),
{
    if lines.len() == 0 {
        None
    } else if trimmed(lines[0]).len() > 0 {
        Some(lines[0])
    } else {
        first_filled(lines.skip(1))
    }
}

/// The session and the directory that the header of a session file names.
pub open spec fn header_in(text: Seq<char>) -> Option<(Seq<char>, Seq<char>)> {
    match first_filled(lines_of(text)) {
        Some(line) => match json_in(line) {
            Some(header) => header_facts(header),
            None => None,
        },
        None => None,
    }
}

/// The session and the directory that a header line names.
pub fn read_header(header: &Json) -> (r: Option<(String, String)>)
    ensures
        r.deep_view() == header_facts(header@),
{
    match header.get_str("type") {
        Some(kind) => {
            if !str_eq(kind, "session") {
                return None;
            }
        },
        None => {
            return None;
        },
    }
    match header.get_str("id") {
        Some(id) => {
            let cwd = match header.get_str("cwd") {
                Some(cwd) => cwd.to_owned(),
                None => String::new(),
            };
            Some((id.to_owned(), cwd))
        },
        None => None,
    }
}

/// The session and the directory that the header of a session file names.
pub fn parse_pi_header(text: &str) -> (r: Option<(String, String)>)
    ensures
        r.deep_view() == header_in(text@),
{
    let all = lines(text);
    let ghost view = all.deep_view();
    let mut i: usize = 0;
    assert(view.skip(0) == view);
    while i < all.len()
        invariant
            i <= all.len(),
            view == all.deep_view(),
            view == lines_of(text@),
            first_filled(view.skip(i as int)) == first_filled(view),
        decreases all.len() - i,
    {
        assert(view.skip(i as int)[0] == all@[i as int]@);
        assert(view.skip(i as int).skip(1) == view.skip(i + 1));
        if !trim(all[i].as_str()).as_str().is_empty() {
            return match parse_json(all[i].as_str()) {
                Some(header) => read_header(&header),
                None => None,
            };
        }
        i += 1;
    }
    None
}

/// What a session file of Pi says of its session, given where it lies.
pub open spec fn record_in(path: Seq<char>, base: Seq<char>, text: Seq<char>) -> Option<RecordView> {
    match header_in(text) {
        Some((id, cwd)) => Some(
            RecordView { id, cwd, is_child: parent_session(path, base) is Some },
        ),
        None => None,
    }
}

/// What a session file of Pi says of its session, given where it lies.
pub fn record_of_file(path: &str, base: &str, text: &str) -> (r: Option<FileRecord>)
    ensures
        r.deep_view() == record_in(path@, base@, text@),
{
    match parse_pi_header(text) {
        Some((id, cwd)) => Some(
            FileRecord { id, cwd, is_child: derive_parent_id(path, base).is_some() },
        ),
        None => None,
    }
}

/// Whether it was said of a path that something is there, or that nothing is.
pub open spec fn was_said<E: Fn(&str) -> bool>(exists_at: E, path: Seq<char>, there: bool) -> bool {
    exists|p: &str| #[trigger] call_ensures(exists_at, (p,), there) && p@ == path
}

/// Whether a session may stay: it has no file of its own, or that is said to be
/// there.
pub open spec fn may_stay<E: Fn(&str) -> bool>(s: SessionView, exists_at: E) -> bool {
    match s.path {
        Some(path) => was_said(exists_at, path, true),
        None => true,
    }
}

/// Whether a session must go: it has a file of its own, and that is said not to be
/// there.
pub open spec fn must_go<E: Fn(&str) -> bool>(s: SessionView, exists_at: E) -> bool {
    match s.path {
        Some(path) => was_said(exists_at, path, false),
        None => false,
    }
}

/// Whether of sessions exactly those are left, as they were, that have no file of
/// their own or whose file is said to be there.
pub open spec fn keeps_those_there<E: Fn(&str) -> bool>(
    before: Map<Seq<char>, SessionView>,
    after: Map<Seq<char>, SessionView>,
    exists_at: E,
) -> bool {
    &&& forall|id: Seq<char>| #[trigger]
        after.dom().contains(id) ==> before.dom().contains(id) && after[id] == before[id]
    &&& forall|id: Seq<char>| #[trigger]
        before.dom().contains(id) ==> if after.dom().contains(id) {
            may_stay(before[id], exists_at)
        } else {
            must_go(before[id], exists_at)
        }
}

/// The sessions whose file is no longer there.
pub fn missing_sessions<E: Fn(&str) -> bool>(index: &CachedHarnessIndex, exists_at: E) -> (r: Vec<
    String,
>)
    requires
        forall|p: &str| call_requires(exists_at, (p,)),
    ensures
        forall|id: Seq<char>| #[trigger]
            r.deep_view().contains(id) ==> index@.sessions.dom().contains(id),
        forall|id: Seq<char>| #[trigger]
            index@.sessions.dom().contains(id) ==> if r.deep_view().contains(id) {
                must_go(index@.sessions[id], exists_at)
            } else {
                may_stay(index@.sessions[id], exists_at)
            },
{
    let n: usize = index.sessions_by_id.len();
    let ghost items = index.sessions_by_id.items();
    let mut out: Vec<String> = Vec::new();
    let mut i: usize = 0;
    assert(out.deep_view() =~= Seq::<Seq<char>>::empty());
    while i < n
        invariant
            i <= n,
            n == items.len(),
            keys_differ(items),
            items == index.sessions_by_id.items(),
            forall|p: &str| call_requires(exists_at, (p,)),
            forall|id: Seq<char>| #[trigger]
                out.deep_view().contains(id) ==> exists|a: int|
                    0 <= a < i && (#[trigger] items[a]).0 == id,
            forall|a: int|
                0 <= a < i ==> if out.deep_view().contains((#[trigger] items[a]).0) {
                    must_go(items[a].1@, exists_at)
                } else {
                    may_stay(items[a].1@, exists_at)
                },
        decreases n - i,
    {
        let id = index.sessions_by_id.key_at(i);
        let ghost before = out.deep_view();
        let there = match &index.sessions_by_id.value_at(i).path {
            Some(path) => {
                let path = path.as_str();
                let there = exists_at(path);
                assert(call_ensures(exists_at, (path,), there));
                assert(was_said(exists_at, path@, there));
                there
            },
            None => true,
        };
        assert(items[i as int].0 == id@);
        if !there {
            out.push(id.clone());
            assert(out.deep_view() =~= before.push(id@));
        }
        proof {
            assert forall|x: Seq<char>| !there implies #[trigger] out.deep_view().contains(x) == (
            before.contains(x) || x == id@) by {
                contains_after_push(before, id@, x);
            }
            assert(!before.contains(id@)) by {
                if before.contains(id@) {
                    let a = choose|a: int| 0 <= a < i && (#[trigger] items[a]).0 == id@;
                    assert(items[a].0 == items[i as int].0);
                }
            }
            assert forall|x: Seq<char>| #[trigger] out.deep_view().contains(x) implies exists|a: int|
                0 <= a < i + 1 && (#[trigger] items[a]).0 == x by {
                if before.contains(x) {
                    let a = choose|a: int| 0 <= a < i && (#[trigger] items[a]).0 == x;
                    assert(items[a].0 == x);
                } else {
                    assert(items[i as int].0 == x);
                }
            }
        }
        i += 1;
    }
    proof {
        assert forall|id: Seq<char>| #[trigger]
            out.deep_view().contains(id) implies index@.sessions.dom().contains(id) by {
            let a = choose|a: int| 0 <= a < n && (#[trigger] items[a]).0 == id;
            entry_is_mapped(items, a);
        }
        assert forall|id: Seq<char>| #[trigger] index@.sessions.dom().contains(id) implies if out
            .deep_view().contains(id) {
            must_go(index@.sessions[id], exists_at)
        } else {
            may_stay(index@.sessions[id], exists_at)
        } by {
            let a = choose|a: int| 0 <= a < items.len() && (#[trigger] items[a]).0 == id;
            entry_is_mapped(items, a);
        }
    }
    out
}

/// The sessions of Pi: what was remembered, brought up to date with the session
/// files, where there are any, without the sessions whose file is no longer there,
/// and grouped. `exists_at` says whether there is something at a path.
pub fn update_and_load<R: Fn(&ScannedFile) -> Option<FileRecord>, E: Fn(&str) -> bool>(
    cached: Option<CachedHarnessIndex>,
    files: Option<&Vec<ScannedFile>>,
    read: R,
    exists_at: E,
) -> (r: PiIndex)
    requires
        forall|f: &ScannedFile| call_requires(read, (f,)),
        forall|p: &str| call_requires(exists_at, (p,)),
    ensures
        r.inner.schema_version == SCHEMA_VERSION,
        match files {
            Some(files) => is_grouped(r.inner@) && exists|
                readings: Seq<Reading>,
                met: Seq<Seq<char>>,
                found: Map<Seq<char>, SessionView>,
            | #[trigger]
                is_refresh(
                    starting_point(cached).sessions,
                    found,
                    files@,
                    read,
                    readings,
                    met,
                ) && keeps_those_there(found, r.inner@.sessions, exists_at),
            None => r.inner@ == starting_point(cached),
        },
{
    let mut index = start_refresh(cached);
    match files {
        Some(files) => {
            let ghost before = index@.sessions;
            let met = refresh_sessions(&mut index, files, read);
            let ghost read_in = index@;
            let ghost readings = choose|readings: Seq<Reading>| #[trigger]
                is_refresh(before, index@.sessions, files@, read, readings, met.deep_view());
            let ids = missing_sessions(&index, exists_at);
            drop_sessions(&mut index, &ids);
            proof {
                dropping_keeps_the_form(read_in, ids.deep_view());
                dropping_keeps_the_others(read_in, ids.deep_view());
            }
            assert(keeps_those_there(read_in.sessions, index@.sessions, exists_at));
            index.rebuild_by_path();
            assert(is_refresh(
                before,
                read_in.sessions,
                files@,
                read,
                readings,
                met.deep_view(),
            ));
        },
        None => {},
    }
    PiIndex { inner: index }
}

/// The first line of a file that counts is one that holds something, with only blank lines
/// before it. Gives which.
pub proof fn blank_lines_are_passed_over(lines: Seq<Seq<char>>) -> (i: int)
    ensures
        match first_filled(lines) {
            Some(line) => 0 <= i < lines.len() && lines[i] == line && trimmed(line).len() > 0
                && forall|j: int| 0 <= j < i ==> trimmed(#[trigger] lines[j]).len() == 0,
            None => forall|j: int| 0 <= j < lines.len() ==> trimmed(#[trigger] lines[j]).len() == 0,
        },
    decreases lines.len(),
{
    if lines.len() == 0 || trimmed(lines[0]).len() > 0 {
        0
    } else {
        let rest = lines.skip(1);
        let i = blank_lines_are_passed_over(rest);
        assert forall|j: int| 0 <= j < lines.len() && (first_filled(rest) is Some ==> j < i
            + 1) implies trimmed(#[trigger] lines[j]).len() == 0 by {
            if j > 0 {
                assert(lines[j] == rest[j - 1]);
            }
        }
        i + 1
    }
}

/// A file is a session's where its header says so and names the session; the directory is
/// the one the header names, if any.
pub proof fn headers_name_session_and_directory(header: JsonView)
    ensures
        header_facts(header) is Some <==> header.get_str("type"@) == Some("session"@)
            && header.get_str("id"@) is Some,
        header_facts(header) matches Some((id, cwd)) ==> {
            &&& header.get_str("id"@) == Some(id)
            &&& header.get_str("cwd"@) is Some ==> header.get_str("cwd"@) == Some(cwd)
            &&& header.get_str("cwd"@) is None ==> cwd.len() == 0
        },
{
}

/// What is recorded of a file is what its header names, and whether it lies below another
/// session.
pub proof fn records_stem_from_headers(path: Seq<char>, base: Seq<char>, text: Seq<char>)
    ensures
        record_in(path, base, text) is Some <==> header_in(text) is Some,
        record_in(path, base, text) matches Some(r) ==> header_in(text) == Some((r.id, r.cwd))
            && r.is_child == (parent_session(path, base) is Some),
        header_in(text) is Some <==> (first_filled(lines_of(text)) matches Some(line) && (json_in(
            line,
        ) matches Some(h) && header_facts(h) is Some)),
{
}

/// Of the sessions that were known none is changed; one with a path goes exactly where the
/// file is said not to be there, and one without a path stays.
pub proof fn missing_files_take_their_sessions_away<E: Fn(&str) -> bool>(
    before: Map<Seq<char>, SessionView>,
    after: Map<Seq<char>, SessionView>,
    exists_at: E,
    id: Seq<char>,
)
    requires
        keeps_those_there(before, after, exists_at),
        before.dom().contains(id),
    ensures
        after.dom().contains(id) ==> after[id] == before[id],
        before[id].path is None ==> after.dom().contains(id),
        before[id].path matches Some(path) ==> exists|p: &str|
            p@ == path && #[trigger] call_ensures(
                exists_at,
                (p,),
                after.dom().contains(id),
            ),
{
}

} // verus!
