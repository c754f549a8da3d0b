//! The sessions of OpenCode: those of its files, which an index remembers, and
//! those of its database.

use crate::session_index::index::{
    CachedHarnessIndex, CachedSession, IndexView, SCHEMA_VERSION, SessionView, finds_category,
    is_grouped, may_simplify,
};
use crate::session_index::refresh::{
    FileRecord, Reading, RecordView, ScannedFile, cwds_of, drop_sessions, dropping_keeps_the_form,
    dropping_keeps_the_others, is_refresh, is_stale, is_unchanged, known_by_path, may_read,
    overlaid, overlay_sessions, readings_hold, refresh_sessions, refreshed, session_in_file,
    single_cwd, stale_sessions, start_refresh, starting_point, was_met, without_sessions,
};
use vstd::prelude::*;

verus! {

/// The name of the stored index.
pub const CACHE_FILE: &'static str = "opencode.json";

/// The sessions of files and database together.
pub struct OpenCodeIndex {
    pub inner: CachedHarnessIndex,
}

impl OpenCodeIndex {
    /// All sessions, each once.
    pub fn all(&self) -> (r: Vec<&CachedSession>)
        ensures
            r@.len() == self.inner.sessions_by_id.items().len(),
            forall|i: int|
                0 <= i < r@.len() ==> *(#[trigger] r@[i]) == self.inner.sessions_by_id.items()[i].1,
    {
        self.inner.all_sessions()
    }

    /// The sessions that worked in a directory with a simple name, each once.
    pub fn for_categ_id<F: Fn(&str) -> String>(&self, categ_id: &str, simplify: F) -> (r: Vec<
        &CachedSession,
    >)
        requires
            forall|p: &str| call_requires(simplify, (p,)),
        ensures
            exists|names: Map<Seq<char>, Seq<char>>, ids: Seq<Seq<char>>|
                {
                    &&& forall|cwd: Seq<char>| #[trigger]
                        self.inner@.by_path.dom().contains(cwd) ==> may_simplify(
                            simplify,
                            cwd,
                            names[cwd],
                        )
                    &&& #[trigger] finds_category(self.inner, names, categ_id@, ids, r@)
                },
    {
        self.inner.lookup_by_categ_id(categ_id, simplify)
    }
}

/// What a session file of OpenCode holds.
#[derive(Clone, Debug)]
pub struct SessionFileRecord {
    pub id: String,
    pub directory: Option<String>,
    pub parent_id: Option<String>,
}

/// What a session file of OpenCode says of its session.
pub fn record_of_file(file: SessionFileRecord) -> (r: FileRecord)
    ensures
        r@ == (RecordView {
            id: file.id@,
            cwd: match file.directory.deep_view() {
                Some(d) => d,
                None => Seq::empty(),
            },
            is_child: file.parent_id is Some,
        }),
{
    FileRecord {
        id: file.id,
        cwd: match file.directory {
            Some(d) => d,
            None => String::new(),
        },
        is_child: file.parent_id.is_some(),
    }
}

/// What the database says of a session.
pub fn session_of_row(session_id: String, project_dir: String, parent_id: &Option<String>) -> (r:
    CachedSession)
    ensures
        r@ == (SessionView {
            id: session_id@,
            path: None,
            is_child: parent_id is Some,
            mtime_ns: 0,
            cwds: single_cwd(project_dir@),
        }),
{
    CachedSession {
        id: session_id,
        path: None,
        is_child: parent_id.is_some(),
        mtime_ns: 0,
        cwds: cwds_of(project_dir),
    }
}

/// Whether sessions are exactly those with a file of their own that were not met.
pub open spec fn are_stale(
    sessions: Map<Seq<char>, SessionView>,
    met: Seq<Seq<char>>,
    ids: Seq<Seq<char>>,
) -> bool {
    forall|id: Seq<char>| #[trigger]
        ids.contains(id) <==> sessions.dom().contains(id) && is_stale(sessions[id], id, met)
}

/// Whether an index came about from another by reading the session files, and by
/// dropping the sessions whose file was not met.
pub open spec fn is_file_refresh<R: Fn(&ScannedFile) -> Option<FileRecord>>(
    before: IndexView,
    after: IndexView,
    files: Seq<ScannedFile>,
    read: R,
    read_in: IndexView,
    met: Seq<Seq<char>>,
    gone: Seq<Seq<char>>,
) -> bool {
    &&& exists|readings: Seq<Reading>| #[trigger]
        is_refresh(before.sessions, read_in.sessions, files, read, readings, met)
    &&& read_in.by_path == before.by_path
    &&& read_in.schema_version == before.schema_version
    &&& are_stale(read_in.sessions, met, gone)
    &&& after == without_sessions(read_in, gone)
}

/// Brings the index up to date with the session files, where they can be listed.
pub fn refresh_file_cache<R: Fn(&ScannedFile) -> Option<FileRecord>>(
    existing: &mut CachedHarnessIndex,
    files: Option<&Vec<ScannedFile>>,
    read: R,
)
    requires
        forall|f: &ScannedFile| call_requires(read, (f,)),
    ensures
        match files {
            Some(files) => exists|
                read_in: IndexView,
                met: Seq<Seq<char>>,
                gone: Seq<Seq<char>>,
            | #[trigger]
                is_file_refresh(
                    old(existing)@,
                    final(existing)@,
                    files@,
                    read,
                    read_in,
                    met,
                    gone,
                ),
            None => *final(existing) == *old(existing),
        },
{
    match files {
        Some(files) => {
            let ghost before = existing@;
            let met = refresh_sessions(existing, files, read);
            let ghost read_in = existing@;
            let gone = stale_sessions(existing, &met);
            drop_sessions(existing, &gone);
            assert(are_stale(read_in.sessions, met.deep_view(), gone.deep_view()));
            assert(is_file_refresh(
                before,
                existing@,
                files@,
                read,
                read_in,
                met.deep_view(),
                gone.deep_view(),
            ));
        },
        None => {},
    }
}

/// The sessions of the files: what was remembered, brought up to date and grouped.
pub fn update_cache<R: Fn(&ScannedFile) -> Option<FileRecord>>(
    cached: Option<CachedHarnessIndex>,
    files: Option<&Vec<ScannedFile>>,
    read: R,
) -> (r: CachedHarnessIndex)
    requires
        forall|f: &ScannedFile| call_requires(read, (f,)),
    ensures
        r.schema_version == SCHEMA_VERSION,
        is_grouped(r@),
        match files {
            Some(files) => exists|
                refreshed_index: IndexView,
                read_in: IndexView,
                met: Seq<Seq<char>>,
                gone: Seq<Seq<char>>,
            | #[trigger]
                is_file_refresh(
                    starting_point(cached),
                    refreshed_index,
                    files@,
                    read,
                    read_in,
                    met,
                    gone,
                ) && r@.sessions == refreshed_index.sessions,
            None => r@.sessions == starting_point(cached).sessions,
        },
{
    let mut index = start_refresh(cached);
    let ghost start = index@;
    refresh_file_cache(&mut index, files, read);
    let ghost refreshed_index = index@;
    proof {
        if files is Some {
            let (read_in, met, gone) = choose|
                read_in: IndexView,
                met: Seq<Seq<char>>,
                gone: Seq<Seq<char>>,
            | #[trigger]
                is_file_refresh(start, refreshed_index, files->0@, read, read_in, met, gone);
            dropping_keeps_the_form(read_in, gone);
        }
    }
    index.rebuild_by_path();
    index
}

/// The sessions of files and database together; a session of the database stands
/// in place of one of a file with its identifier.
pub fn update_and_load(cache: CachedHarnessIndex, database: Option<Vec<CachedSession>>) -> (r:
    OpenCodeIndex)
    ensures
        r.inner.schema_version == cache.schema_version,
        match database {
            Some(rows) => r.inner@.sessions == overlaid(cache@.sessions, rows.deep_view())
                && is_grouped(r.inner@),
            None => r.inner == cache,
        },
{
    let mut inner = cache;
    match database {
        Some(rows) => {
            overlay_sessions(&mut inner, rows);
            inner.rebuild_by_path();
        },
        None => {},
    }
    OpenCodeIndex { inner }
}

/// What the database says of a session is what the index says of it, where the
/// database has it once; what it does not have stays as it was.
pub proof fn database_wins(sessions: Map<Seq<char>, SessionView>, rows: Seq<SessionView>)
    requires
        forall|i: int, j: int|
            0 <= i < j < rows.len() ==> (#[trigger] rows[i]).id != (#[trigger] rows[j]).id,
    ensures
        forall|i: int|
            0 <= i < rows.len() ==> overlaid(sessions, rows).dom().contains(
                (#[trigger] rows[i]).id,
            ) && overlaid(sessions, rows)[rows[i].id] == rows[i],
        forall|id: Seq<char>|
            (forall|i: int| 0 <= i < rows.len() ==> (#[trigger] rows[i]).id != id) ==> ((
            #[trigger] overlaid(sessions, rows).dom().contains(id) <==> sessions.dom().contains(id))
                && (sessions.dom().contains(id) ==> overlaid(sessions, rows)[id] == sessions[id])),
    decreases rows.len(),
{
    if rows.len() > 0 {
        let init = rows.drop_last();
        assert forall|i: int, j: int| 0 <= i < j < init.len() implies (#[trigger] init[i]).id != (
        #[trigger] init[j]).id by {
            assert(rows[i].id != rows[j].id);
        }
        database_wins(sessions, init);
        let m = overlaid(sessions, init);
        assert forall|i: int| 0 <= i < rows.len() implies overlaid(sessions, rows).dom().contains(
            (#[trigger] rows[i]).id,
        ) && overlaid(sessions, rows)[rows[i].id] == rows[i] by {
            if i < init.len() {
                assert(init[i] == rows[i]);
                assert(rows[i].id != rows[rows.len() - 1].id);
            }
        }
        assert forall|id: Seq<char>|
            (forall|i: int| 0 <= i < rows.len() ==> (#[trigger] rows[i]).id != id) implies ((
        #[trigger] overlaid(sessions, rows).dom().contains(id) <==> sessions.dom().contains(id)) && (
        sessions.dom().contains(id) ==> overlaid(sessions, rows)[id] == sessions[id])) by {
            assert(rows[rows.len() - 1].id != id);
            assert forall|i: int| 0 <= i < init.len() implies (#[trigger] init[i]).id != id by {
                assert(rows[i].id != id);
            }
            assert(m.dom().contains(id) <==> sessions.dom().contains(id));
        }
    }
}

/// What a file says, given what the files at some paths say.
pub open spec fn said(says: Map<Seq<char>, RecordView>, path: Seq<char>) -> Option<RecordView> {
    if says.dom().contains(path) {
        Some(says[path])
    } else {
        None
    }
}

/// Whether `read` finds in each file what `says` has for its path.
pub open spec fn reads_as<R: Fn(&ScannedFile) -> Option<FileRecord>>(
    read: R,
    files: Seq<ScannedFile>,
    says: Map<Seq<char>, RecordView>,
) -> bool {
    forall|i: int, record: Option<RecordView>|
        0 <= i < files.len() && #[trigger] may_read(read, &files[i], record) ==> record == said(
            says,
            files[i].path@,
        )
}

/// Whether each file has a session of its own: no path is listed twice, no two
/// files have one session, no two sessions of the index have one file, and a file
/// that the index knows has the session that it says.
pub open spec fn files_have_own_sessions(
    sessions: Map<Seq<char>, SessionView>,
    files: Seq<ScannedFile>,
    says: Map<Seq<char>, RecordView>,
) -> bool {
    &&& forall|i: int, j: int|
        0 <= i < j < files.len() ==> (#[trigger] files[i]).path@ != (#[trigger] files[j]).path@
    &&& forall|a: Seq<char>, b: Seq<char>| #[trigger]
        says.dom().contains(a) && #[trigger] says.dom().contains(b) && says[a].id == says[b].id
            ==> a == b
    &&& forall|a: Seq<char>, b: Seq<char>| #[trigger]
        sessions.dom().contains(a) && #[trigger] sessions.dom().contains(b)
            && sessions[a].path is Some && sessions[a].path == sessions[b].path ==> a == b
    &&& forall|id: Seq<char>| #[trigger]
        sessions.dom().contains(id) && sessions[id].path is Some && says.dom().contains(
            sessions[id].path->0,
        ) ==> says[sessions[id].path->0].id == id
}

/// Whether a session was read from a file.
spec fn is_read_from(
    files: Seq<ScannedFile>,
    says: Map<Seq<char>, RecordView>,
    i: int,
    id: Seq<char>,
    v: SessionView,
) -> bool {
    said(says, files[i].path@) matches Some(record) && record.id == id && v == session_in_file(
        files[i],
        record,
    )
}

/// Whether a session was known before, or was read from one of the first files.
spec fn has_origin(
    sessions: Map<Seq<char>, SessionView>,
    files: Seq<ScannedFile>,
    says: Map<Seq<char>, RecordView>,
    n: int,
    id: Seq<char>,
    v: SessionView,
) -> bool {
    (sessions.dom().contains(id) && sessions[id] == v) || exists|i: int|
        0 <= i < n && #[trigger] is_read_from(files, says, i, id, v)
}

/// Whether what a file says is known as of its last change.
spec fn is_known(
    sessions: Map<Seq<char>, SessionView>,
    files: Seq<ScannedFile>,
    says: Map<Seq<char>, RecordView>,
    i: int,
) -> bool {
    said(says, files[i].path@) matches Some(record) ==> sessions.dom().contains(record.id)
        && sessions[record.id].path == Some(files[i].path@) && sessions[record.id].mtime_ns
        == files[i].mtime_ns
}

/// Whether a session has one of the files.
pub open spec fn has_file(files: Seq<ScannedFile>, path: Option<Seq<char>>) -> bool {
    exists|k: int| 0 <= k < files.len() && path == Some((#[trigger] files[k]).path@)
}

proof fn refreshes_are_sound<R: Fn(&ScannedFile) -> Option<FileRecord>>(
    sessions: Map<Seq<char>, SessionView>,
    files: Seq<ScannedFile>,
    read: R,
    readings: Seq<Reading>,
    says: Map<Seq<char>, RecordView>,
    n: int,
)
    requires
        0 <= n <= files.len(),
        readings.len() == files.len(),
        readings_hold(sessions, files, read, readings, n),
        reads_as(read, files, says),
        files_have_own_sessions(sessions, files, says),
    ensures
        ({
            let m = refreshed(sessions, files, readings, n);
            &&& forall|id: Seq<char>| #[trigger]
                m.dom().contains(id) ==> has_origin(sessions, files, says, n, id, m[id])
            &&& forall|i: int| 0 <= i < n ==> #[trigger] is_known(m, files, says, i)
            &&& forall|i: int|
                0 <= i < n ==> ((#[trigger] readings[i]).known matches Some(id)
                    ==> m.dom().contains(id) && has_file(files, m[id].path))
        }),
    decreases n,
{
    if n > 0 {
        refreshes_are_sound(sessions, files, read, readings, says, n - 1);
        let before = refreshed(sessions, files, readings, n - 1);
        let m = refreshed(sessions, files, readings, n);
        let file = files[n - 1];
        let reading = readings[n - 1];
        let path = file.path@;
        assert(known_by_path(before, path, reading.known));
        if !is_unchanged(before, file, reading.known) {
            assert(may_read(read, &files[n - 1], reading.record));
        }
        assert forall|id: Seq<char>| #[trigger] m.dom().contains(id) implies has_origin(
            sessions,
            files,
            says,
            n,
            id,
            m[id],
        ) by {
            if before.dom().contains(id) && m[id] == before[id] {
                assert(has_origin(sessions, files, says, n - 1, id, before[id]));
            } else {
                assert(is_read_from(files, says, n - 1, id, m[id]));
            }
        }
        assert forall|i: int| 0 <= i < n implies #[trigger] is_known(m, files, says, i) by {
            if i < n - 1 {
                assert(is_known(before, files, says, i));
                assert(files[i].path@ != files[n - 1].path@);
            } else if is_unchanged(before, file, reading.known) {
                let id = reading.known->0;
                assert(before.dom().contains(id));
                assert(has_origin(sessions, files, says, n - 1, id, before[id]));
                if !(sessions.dom().contains(id) && sessions[id] == before[id]) {
                    let k = choose|k: int|
                        0 <= k < n - 1 && #[trigger] is_read_from(files, says, k, id, before[id]);
                    assert(files[k].path@ != files[n - 1].path@);
                }
            }
        }
        assert forall|i: int| 0 <= i < n implies ((#[trigger] readings[i]).known matches Some(id)
            ==> m.dom().contains(id) && has_file(files, m[id].path)) by {
            if readings[i].known is Some {
                let id = readings[i].known->0;
                assert(files[n - 1].path@ == path);
                if i == n - 1 {
                    assert(before[id].path == Some(path));
                }
            }
        }
    }
}

/// Afterwards each session with a file has one of the files of this refresh, and
/// no two have the same.
proof fn refreshed_sessions_have_files<R: Fn(&ScannedFile) -> Option<FileRecord>>(
    before: IndexView,
    after: IndexView,
    files: Seq<ScannedFile>,
    read: R,
    read_in: IndexView,
    met: Seq<Seq<char>>,
    gone: Seq<Seq<char>>,
    says: Map<Seq<char>, RecordView>,
)
    requires
        is_file_refresh(before, after, files, read, read_in, met, gone),
        reads_as(read, files, says),
        files_have_own_sessions(before.sessions, files, says),
    ensures
        forall|id: Seq<char>| #[trigger]
            after.sessions.dom().contains(id) && after.sessions[id].path is Some ==> has_file(
                files,
                after.sessions[id].path,
            ),
        forall|i: int| 0 <= i < files.len() ==> #[trigger] is_known(after.sessions, files, says, i),
        files_have_own_sessions(after.sessions, files, says),
{
    let n = files.len() as int;
    let readings = choose|readings: Seq<Reading>| #[trigger]
        is_refresh(before.sessions, read_in.sessions, files, read, readings, met);
    refreshes_are_sound(before.sessions, files, read, readings, says, n);
    dropping_keeps_the_others(read_in, gone);
    let m = read_in.sessions;
    assert forall|i: int| 0 <= i < n implies #[trigger] is_known(after.sessions, files, says, i) by {
        assert(is_known(m, files, says, i));
        if let Some(record) = said(says, files[i].path@) {
            let id = record.id;
            let here = refreshed(before.sessions, files, readings, i);
            assert(known_by_path(here, files[i].path@, readings[i].known));
            if is_unchanged(here, files[i], readings[i].known) {
                let known = readings[i].known->0;
                readings_hold_before(before.sessions, files, read, readings, n, i);
                refreshes_are_sound(before.sessions, files, read, readings, says, i);
                assert(has_origin(before.sessions, files, says, i, known, here[known]));
                if !(before.sessions.dom().contains(known) && before.sessions[known]
                    == here[known]) {
                    let k = choose|k: int|
                        0 <= k < i && #[trigger] is_read_from(files, says, k, known, here[known]);
                    assert(files[k].path@ != files[i].path@);
                }
                assert(known == id);
            } else {
                assert(may_read(read, &files[i], readings[i].record));
            }
            assert(was_met(before.sessions, files, readings, n, id));
            assert(met.contains(id));
            assert(!gone.contains(id));
        }
    }
    assert forall|id: Seq<char>| #[trigger]
        after.sessions.dom().contains(id) && after.sessions[id].path is Some implies has_file(
        files,
        after.sessions[id].path,
    ) by {
        assert(m.dom().contains(id));
        assert(!gone.contains(id));
        assert(met.contains(id));
        assert(was_met(before.sessions, files, readings, n, id));
        let i = choose|i: int|
            0 <= i < n && ((#[trigger] readings[i]).known == Some(id) || (!is_unchanged(
                refreshed(before.sessions, files, readings, i),
                files[i],
                readings[i].known,
            ) && (readings[i].record matches Some(record) && record.id == id)));
        if readings[i].known != Some(id) {
            assert(may_read(read, &files[i], readings[i].record));
            assert(is_known(m, files, says, i));
        }
    }
    let s = after.sessions;
    assert forall|id: Seq<char>| #[trigger]
        s.dom().contains(id) && s[id].path is Some && says.dom().contains(
            s[id].path->0,
        ) implies says[s[id].path->0].id == id by {
        assert(m.dom().contains(id));
        assert(has_origin(before.sessions, files, says, n, id, m[id]));
        if !(before.sessions.dom().contains(id) && before.sessions[id] == m[id]) {
            let k = choose|k: int| 0 <= k < n && #[trigger] is_read_from(files, says, k, id, m[id]);
        }
    }
    assert forall|a: Seq<char>, b: Seq<char>| #[trigger]
        s.dom().contains(a) && #[trigger] s.dom().contains(b) && s[a].path is Some && s[a].path
            == s[b].path implies a == b by {
        assert(m.dom().contains(a) && m.dom().contains(b));
        assert(has_origin(before.sessions, files, says, n, a, m[a]));
        assert(has_origin(before.sessions, files, says, n, b, m[b]));
        let old_a = before.sessions.dom().contains(a) && before.sessions[a] == m[a];
        let old_b = before.sessions.dom().contains(b) && before.sessions[b] == m[b];
        if !old_a {
            let k = choose|k: int| 0 <= k < n && #[trigger] is_read_from(files, says, k, a, m[a]);
            assert(says.dom().contains(s[a].path->0));
        }
        if !old_b {
            let k = choose|k: int| 0 <= k < n && #[trigger] is_read_from(files, says, k, b, m[b]);
            assert(says.dom().contains(s[b].path->0));
        }
    }
}

proof fn readings_hold_before<R: Fn(&ScannedFile) -> Option<FileRecord>>(
    sessions: Map<Seq<char>, SessionView>,
    files: Seq<ScannedFile>,
    read: R,
    readings: Seq<Reading>,
    n: int,
    k: int,
)
    requires
        k <= n,
        readings_hold(sessions, files, read, readings, n),
    ensures
        readings_hold(sessions, files, read, readings, k),
{
}

proof fn known_files_change_nothing<R: Fn(&ScannedFile) -> Option<FileRecord>>(
    sessions: Map<Seq<char>, SessionView>,
    files: Seq<ScannedFile>,
    read: R,
    readings: Seq<Reading>,
    says: Map<Seq<char>, RecordView>,
    n: int,
)
    requires
        0 <= n <= files.len(),
        readings.len() == files.len(),
        readings_hold(sessions, files, read, readings, n),
        reads_as(read, files, says),
        files_have_own_sessions(sessions, files, says),
        forall|i: int| 0 <= i < files.len() ==> #[trigger] is_known(sessions, files, says, i),
    ensures
        refreshed(sessions, files, readings, n) == sessions,
    decreases n,
{
    if n > 0 {
        readings_hold_before(sessions, files, read, readings, n, n - 1);
        known_files_change_nothing(sessions, files, read, readings, says, n - 1);
        let file = files[n - 1];
        let reading = readings[n - 1];
        assert(is_known(sessions, files, says, n - 1));
        assert(known_by_path(sessions, file.path@, reading.known));
        if !is_unchanged(sessions, file, reading.known) {
            assert(may_read(read, &files[n - 1], reading.record));
            if let Some(record) = said(says, file.path@) {
                assert(sessions.dom().contains(record.id));
                assert(reading.known is Some);
                assert(sessions.dom().contains(reading.known->0));
                assert(reading.known->0 == record.id);
            }
        }
    }
}

/// A second refresh without file changes alters nothing, where each file has a
/// session of its own that never changes. After the first, each session with a
/// file has one of the files that were listed.
pub proof fn refreshing_twice_changes_nothing<
    R: Fn(&ScannedFile) -> Option<FileRecord>,
    S: Fn(&ScannedFile) -> Option<FileRecord>,
>(
    before: IndexView,
    after: IndexView,
    again: IndexView,
    files: Seq<ScannedFile>,
    reads: (R, S),
    first: (IndexView, Seq<Seq<char>>, Seq<Seq<char>>),
    second: (IndexView, Seq<Seq<char>>, Seq<Seq<char>>),
    says: Map<Seq<char>, RecordView>,
)
    requires
        is_file_refresh(before, after, files, reads.0, first.0, first.1, first.2),
        is_file_refresh(after, again, files, reads.1, second.0, second.1, second.2),
        reads_as(reads.0, files, says),
        reads_as(reads.1, files, says),
        files_have_own_sessions(before.sessions, files, says),
    ensures
        again == after,
        forall|id: Seq<char>| #[trigger]
            after.sessions.dom().contains(id) && after.sessions[id].path is Some ==> has_file(
                files,
                after.sessions[id].path,
            ),
{
    refreshed_sessions_have_files(
        before,
        after,
        files,
        reads.0,
        first.0,
        first.1,
        first.2,
        says,
    );
    let n = files.len() as int;
    let (read_in, met, gone) = second;
    let readings = choose|readings: Seq<Reading>| #[trigger]
        is_refresh(after.sessions, read_in.sessions, files, reads.1, readings, met);
    known_files_change_nothing(after.sessions, files, reads.1, readings, says, n);
    assert(read_in == after);
    assert forall|id: Seq<char>| !gone.contains(id) by {
        if gone.contains(id) {
            let s = after.sessions;
            assert(s.dom().contains(id) && s[id].path is Some);
            assert(has_file(files, s[id].path));
            let k = choose|k: int|
                0 <= k < files.len() && s[id].path == Some((#[trigger] files[k]).path@);
            readings_hold_before(s, files, reads.1, readings, n, k);
            known_files_change_nothing(s, files, reads.1, readings, says, k);
            assert(known_by_path(s, files[k].path@, readings[k].known));
            assert(readings[k].known is Some);
            assert(s.dom().contains(readings[k].known->0));
            assert(readings[k].known == Some(id));
            assert(was_met(s, files, readings, n, id));
            assert(met.contains(id));
        }
    }
    if gone.len() > 0 {
        assert(gone.contains(gone[0]));
    }
}

/// What is recorded of a session's file is what it names; it is a child where it has a parent.
pub proof fn records_are_what_files_name(file: SessionFileRecord, r: FileRecord)
    requires
        call_ensures(record_of_file, (file,), r),
    ensures
        r@.id == file.id@,
        file.directory matches Some(d) ==> r@.cwd == d@,
        file.directory is None ==> r@.cwd.len() == 0,
        r@.is_child <==> file.parent_id is Some,
{
}

} // verus!
