//! Brings what is remembered of sessions up to date with their files.

use crate::session_index::index::{
    CachedHarnessIndex, CachedSession, IndexView, SCHEMA_VERSION, SessionView, holds, is_grouped,
    removal_keeps_grouping, views_of_insert, without_session,
};
use crate::table::{entry_is_mapped, keys_differ};
use crate::text::str_eq;
use vstd::prelude::*;

verus! {

/// A session file that was seen.
#[derive(Clone, Debug)]
pub struct ScannedFile {
    pub path: String,
    pub mtime_ns: u64,
}

/// What a session file says of its session.
#[derive(Clone, Debug)]
pub struct FileRecord {
    pub id: String,
    /// The directory that the session works in; empty where the file names none.
    pub cwd: String,
    pub is_child: bool,
}

/// What a session file says of its session.
pub ghost struct RecordView {
    pub id: Seq<char>,
    pub cwd: Seq<char>,
    pub is_child: bool,
}

impl View for FileRecord {
    type V = RecordView;

    open spec fn view(&self) -> RecordView {
        RecordView { id: self.id@, cwd: self.cwd@, is_child: self.is_child }
    }
}

impl DeepView for FileRecord {
    type V = RecordView;

    open spec fn deep_view(&self) -> RecordView {
        self.view()
    }
}

/// The directories of a session that works in one, or in none that is known.
pub open spec fn single_cwd(cwd: Seq<char>) -> Seq<Seq<char>> {
    if cwd.len() == 0 {
        Seq::empty()
    } else {
        seq![cwd]
    }
}

/// The directories of a session that works in one, or in none that is known.
pub fn cwds_of(cwd: String) -> (r: Vec<String>)
    ensures
        r.deep_view() == single_cwd(cwd@),
{
    let ghost c = cwd@;
    let mut cwds: Vec<String> = Vec::new();
    if !cwd.as_str().is_empty() {
        cwds.push(cwd);
        assert(cwds.deep_view() == seq![c]);
    } else {
        assert(cwds.deep_view() == Seq::<Seq<char>>::empty());
    }
    cwds
}

/// The session of a file, as the file now says.
pub open spec fn session_in_file(file: ScannedFile, record: RecordView) -> SessionView {
    SessionView {
        id: record.id,
        path: Some(file.path@),
        is_child: record.is_child,
        mtime_ns: file.mtime_ns,
        cwds: single_cwd(record.cwd),
    }
}

/// Whether `known` is a session that the file holds, or none where there is none.
pub open spec fn known_by_path(
    sessions: Map<Seq<char>, SessionView>,
    path: Seq<char>,
    known: Option<Seq<char>>,
) -> bool {
    match known {
        Some(id) => sessions.dom().contains(id) && sessions[id].path == Some(path),
        None => forall|id: Seq<char>| #[trigger]
            sessions.dom().contains(id) ==> sessions[id].path != Some(path),
    }
}

/// Whether the file has not changed since its session was read.
pub open spec fn is_unchanged(
    sessions: Map<Seq<char>, SessionView>,
    file: ScannedFile,
    known: Option<Seq<char>>,
) -> bool {
    known matches Some(id) && sessions[id].mtime_ns == file.mtime_ns
}

/// One step of a refresh: the session that was known by the path of the file,
/// and what the file says, where it had to be read and could be.
pub ghost struct Reading {
    pub known: Option<Seq<char>>,
    pub record: Option<RecordView>,
}

/// The sessions behind the first `n` files. A file that has not changed changes
/// nothing; one that has replaces its session whole.
pub open spec fn refreshed(
    sessions: Map<Seq<char>, SessionView>,
    files: Seq<ScannedFile>,
    readings: Seq<Reading>,
    n: int,
) -> Map<Seq<char>, SessionView>
    decreases n,
{
    if n <= 0 {
        sessions
    } else {
        let before = refreshed(sessions, files, readings, n - 1);
        let reading = readings[n - 1];
        if is_unchanged(before, files[n - 1], reading.known) {
            before
        } else {
            match reading.record {
                Some(record) => before.insert(record.id, session_in_file(files[n - 1], record)),
                None => before,
            }
        }
    }
}

/// Whether a session was met among the first `n` files: known by the path of one
/// of them, or read from it.
pub open spec fn was_met(
    sessions: Map<Seq<char>, SessionView>,
    files: Seq<ScannedFile>,
    readings: Seq<Reading>,
    n: int,
    id: Seq<char>,
) -> bool {
    exists|i: int|
        0 <= i < n && ((#[trigger] readings[i]).known == Some(id) || (!is_unchanged(
            refreshed(sessions, files, readings, i),
            files[i],
            readings[i].known,
        ) && (readings[i].record matches Some(record) && record.id == id)))
}

/// Whether the readings are what the index and `read` say of the first `n` files.
pub open spec fn readings_hold<R: Fn(&ScannedFile) -> Option<FileRecord>>(
    sessions: Map<Seq<char>, SessionView>,
    files: Seq<ScannedFile>,
    read: R,
    readings: Seq<Reading>,
    n: int,
) -> bool {
    forall|i: int|
        0 <= i < n ==> ({
            let before = refreshed(sessions, files, readings, i);
            &&& known_by_path(before, files[i].path@, (#[trigger] readings[i]).known)
            &&& !is_unchanged(before, files[i], readings[i].known) ==> may_read(
                read,
                &files[i],
                readings[i].record,
            )
        })
}

/// Whether `read` may say this of a file.
pub open spec fn may_read<R: Fn(&ScannedFile) -> Option<FileRecord>>(
    read: R,
    file: &ScannedFile,
    record: Option<RecordView>,
) -> bool {
    exists|answer: Option<FileRecord>| #[trigger]
        call_ensures(read, (file,), answer) && answer.deep_view() == record
}

/// Whether a refresh with these readings gave these sessions, and met these.
pub open spec fn is_refresh<R: Fn(&ScannedFile) -> Option<FileRecord>>(
    before: Map<Seq<char>, SessionView>,
    after: Map<Seq<char>, SessionView>,
    files: Seq<ScannedFile>,
    read: R,
    readings: Seq<Reading>,
    met: Seq<Seq<char>>,
) -> bool {
    &&& readings.len() == files.len()
    &&& readings_hold(before, files, read, readings, files.len() as int)
    &&& after == refreshed(before, files, readings, files.len() as int)
    &&& forall|id: Seq<char>| #[trigger]
        met.contains(id) <==> was_met(before, files, readings, files.len() as int, id)
}

fn find_by_path(index: &CachedHarnessIndex, path: &str) -> (r: Option<String>)
    ensures
        known_by_path(index@.sessions, path@, r.deep_view()),
{
    let n: usize = index.sessions_by_id.len();
    let ghost items = index.sessions_by_id.items();
    let mut i: usize = 0;
    while i < n
        invariant
            i <= n,
            n == items.len(),
            keys_differ(items),
            items == index.sessions_by_id.items(),
            forall|j: int| 0 <= j < i ==> (#[trigger] items[j]).1@.path != Some(path@),
        decreases n - i,
    {
        let hit = match &index.sessions_by_id.value_at(i).path {
            Some(p) => str_eq(p.as_str(), path),
            None => false,
        };
        if hit {
            proof {
                entry_is_mapped(items, i as int);
            }
            return Some(index.sessions_by_id.key_at(i).clone());
        }
        i += 1;
    }
    proof {
        assert forall|id: Seq<char>| #[trigger]
            index@.sessions.dom().contains(id) implies index@.sessions[id].path != Some(path@) by {
            let a = choose|a: int| 0 <= a < items.len() && (#[trigger] items[a]).0 == id;
            entry_is_mapped(items, a);
        }
    }
    None
}

proof fn readings_are_local(
    sessions: Map<Seq<char>, SessionView>,
    files: Seq<ScannedFile>,
    a: Seq<Reading>,
    b: Seq<Reading>,
    n: int,
)
    requires
        n <= a.len(),
        n <= b.len(),
        forall|i: int| 0 <= i < n ==> a[i] == b[i],
    ensures
        refreshed(sessions, files, a, n) == refreshed(sessions, files, b, n),
    decreases n,
{
    if n > 0 {
        readings_are_local(sessions, files, a, b, n - 1);
    }
}

/// Brings the sessions of the index up to date with the session files. `read`
/// reads a file that is new or has changed. Gives the sessions that were met.
pub fn refresh_sessions<R: Fn(&ScannedFile) -> Option<FileRecord>>(
    index: &mut CachedHarnessIndex,
    files: &Vec<ScannedFile>,
    read: R,
) -> (met: Vec<String>)
    requires
        forall|f: &ScannedFile| call_requires(read, (f,)),
    ensures
        exists|readings: Seq<Reading>| #[trigger]
            is_refresh(
                old(index)@.sessions,
                final(index)@.sessions,
                files@,
                read,
                readings,
                met.deep_view(),
            ),
        final(index).by_path == old(index).by_path,
        final(index).schema_version == old(index).schema_version,
{
    let ghost start = index@.sessions;
    let ghost mut readings: Seq<Reading> = Seq::empty();
    let mut met: Vec<String> = Vec::new();
    let mut i: usize = 0;
    assert(met.deep_view() == Seq::<Seq<char>>::empty());
    while i < files.len()
        invariant
            i <= files.len(),
            readings.len() == i,
            forall|f: &ScannedFile| call_requires(read, (f,)),
            readings_hold(start, files@, read, readings, i as int),
            index@.sessions == refreshed(start, files@, readings, i as int),
            index.by_path == old(index).by_path,
            index.schema_version == old(index).schema_version,
            forall|id: Seq<char>|
                met.deep_view().contains(id) <==> was_met(start, files@, readings, i as int, id),
        decreases files.len() - i,
    {
        let file = &files[i];
        let ghost before = index@.sessions;
        let ghost old_readings = readings;
        let ghost old_met = met.deep_view();
        let known = find_by_path(index, file.path.as_str());
        let mut unchanged = false;
        match &known {
            Some(id) => {
                met.push(id.clone());
                assert(met.deep_view() == old_met.push(id@));
                match index.sessions_by_id.get(id.as_str()) {
                    Some(session) => {
                        unchanged = session.mtime_ns == file.mtime_ns;
                    },
                    None => {},
                }
            },
            None => {},
        }
        let ghost met_known = met.deep_view();
        let ghost mut record_view: Option<RecordView> = None;
        if !unchanged {
            let record = read(file);
            proof {
                record_view = record.deep_view();
                assert(may_read(read, file, record_view));
            }
            match record {
                Some(record) => {
                    let ghost view = record@;
                    let key = record.id.clone();
                    met.push(record.id.clone());
                    assert(met.deep_view() == met_known.push(view.id));
                    let session = CachedSession {
                        id: record.id,
                        path: Some(file.path.clone()),
                        is_child: record.is_child,
                        mtime_ns: file.mtime_ns,
                        cwds: cwds_of(record.cwd),
                    };
                    proof {
                        views_of_insert(index.sessions_by_id@, key@, session);
                    }
                    index.sessions_by_id.insert(key, session);
                },
                None => {},
            }
        }
        proof {
            let reading = Reading { known: known.deep_view(), record: record_view };
            readings = readings.push(reading);
            readings_are_local(start, files@, old_readings, readings, i as int);
            assert(unchanged == is_unchanged(before, *file, reading.known));
            assert forall|k: int| 0 <= k < i + 1 implies ({
                let b = refreshed(start, files@, readings, k);
                &&& known_by_path(b, files@[k].path@, (#[trigger] readings[k]).known)
                &&& !is_unchanged(b, files@[k], readings[k].known) ==> may_read(
                    read,
                    &files@[k],
                    readings[k].record,
                )
            }) by {
                readings_are_local(start, files@, old_readings, readings, k);
                if k < i {
                    assert(readings[k] == old_readings[k]);
                }
            }
            let now = met.deep_view();
            assert forall|id: Seq<char>| now.contains(id) <==> was_met(
                start,
                files@,
                readings,
                i + 1,
                id,
            ) by {
                let here = reading.known == Some(id) || (!unchanged && (record_view matches Some(
                    r,
                ) && r.id == id));
                assert(was_met(start, files@, readings, i + 1, id) == (was_met(
                    start,
                    files@,
                    old_readings,
                    i as int,
                    id,
                ) || here)) by {
                    if was_met(start, files@, old_readings, i as int, id) {
                        let k = choose|k: int|
                            0 <= k < i && ((#[trigger] old_readings[k]).known == Some(id) || (
                            !is_unchanged(
                                refreshed(start, files@, old_readings, k),
                                files@[k],
                                old_readings[k].known,
                            ) && (old_readings[k].record matches Some(r) && r.id == id)));
                        readings_are_local(start, files@, old_readings, readings, k);
                        assert(readings[k] == old_readings[k]);
                    }
                    if here {
                        assert(readings[i as int] == reading);
                    }
                    if was_met(start, files@, readings, i + 1, id) {
                        let k = choose|k: int|
                            0 <= k < i + 1 && ((#[trigger] readings[k]).known == Some(id) || (
                            !is_unchanged(
                                refreshed(start, files@, readings, k),
                                files@[k],
                                readings[k].known,
                            ) && (readings[k].record matches Some(r) && r.id == id)));
                        readings_are_local(start, files@, old_readings, readings, k);
                        if k < i {
                            assert(readings[k] == old_readings[k]);
                        }
                    }
                }
                assert(met_known.contains(id) <==> old_met.contains(id) || reading.known == Some(
                    id,
                )) by {
                    if known is Some {
                        contains_after_push(old_met, known->0@, id);
                    }
                }
                assert(now.contains(id) <==> met_known.contains(id) || (!unchanged && (
                record_view matches Some(r) && r.id == id))) by {
                    if !unchanged && record_view is Some {
                        contains_after_push(met_known, record_view->0.id, id);
                    }
                }
            }
        }
        i += 1;
    }
    assert(is_refresh(start, index@.sessions, files@, read, readings, met.deep_view()));
    met
}

pub(crate) proof fn contains_after_push(s: Seq<Seq<char>>, x: Seq<char>, y: Seq<char>)
    ensures
        s.push(x).contains(y) <==> s.contains(y) || y == x,
{
    let r = s.push(x);
    assert(r[s.len() as int] == x);
    if s.contains(y) {
        let k = choose|k: int| 0 <= k < s.len() && s[k] == y;
        assert(r[k] == y);
    }
    if r.contains(y) && y != x {
        let k = choose|k: int| 0 <= k < r.len() && r[k] == y;
        assert(s[k] == y);
    }
}

/// Whether a session has a file of its own that was not met.
pub open spec fn is_stale(s: SessionView, id: Seq<char>, met: Seq<Seq<char>>) -> bool {
    s.path is Some && !met.contains(id)
}

/// The sessions with a file of their own that were not met.
pub fn stale_sessions(index: &CachedHarnessIndex, met: &Vec<String>) -> (r: Vec<String>)
    ensures
        forall|id: Seq<char>|
            r.deep_view().contains(id) <==> index@.sessions.dom().contains(id) && is_stale(
                index@.sessions[id],
                id,
                met.deep_view(),
            ),
{
    let n: usize = index.sessions_by_id.len();
    let ghost items = index.sessions_by_id.items();
    let mut out: Vec<String> = Vec::new();
    let mut i: usize = 0;
    assert(out.deep_view() == Seq::<Seq<char>>::empty());
    while i < n
        invariant
            i <= n,
            n == items.len(),
            keys_differ(items),
            items == index.sessions_by_id.items(),
            forall|id: Seq<char>|
                out.deep_view().contains(id) <==> exists|a: int|
                    0 <= a < i && (#[trigger] items[a]).0 == id && is_stale(
                        items[a].1@,
                        id,
                        met.deep_view(),
                    ),
        decreases n - i,
    {
        let id = index.sessions_by_id.key_at(i);
        let ghost before = out.deep_view();
        let gone = index.sessions_by_id.value_at(i).path.is_some() && !holds(met, id.as_str());
        if gone {
            out.push(id.clone());
            assert(out.deep_view() == before.push(id@));
        }
        proof {
            assert forall|x: Seq<char>|
                out.deep_view().contains(x) <==> exists|a: int|
                    0 <= a < i + 1 && (#[trigger] items[a]).0 == x && is_stale(
                        items[a].1@,
                        x,
                        met.deep_view(),
                    ) by {
                if gone {
                    contains_after_push(before, id@, x);
                    assert(items[i as int].0 == id@);
                }
                if before.contains(x) {
                    let a = choose|a: int|
                        0 <= a < i && (#[trigger] items[a]).0 == x && is_stale(
                            items[a].1@,
                            x,
                            met.deep_view(),
                        );
                    assert(items[a].0 == x);
                }
            }
        }
        i += 1;
    }
    proof {
        assert forall|id: Seq<char>|
            out.deep_view().contains(id) <==> index@.sessions.dom().contains(id) && is_stale(
                index@.sessions[id],
                id,
                met.deep_view(),
            ) by {
            if out.deep_view().contains(id) {
                let a = choose|a: int|
                    0 <= a < n && (#[trigger] items[a]).0 == id && is_stale(
                        items[a].1@,
                        id,
                        met.deep_view(),
                    );
                entry_is_mapped(items, a);
            }
            if index@.sessions.dom().contains(id) {
                let a = choose|a: int| 0 <= a < items.len() && (#[trigger] items[a]).0 == id;
                entry_is_mapped(items, a);
            }
        }
    }
    out
}

/// The index without some sessions.
pub open spec fn without_sessions(v: IndexView, ids: Seq<Seq<char>>) -> IndexView
    decreases ids.len(),
{
    if ids.len() == 0 {
        v
    } else {
        without_session(without_sessions(v, ids.drop_last()), ids.last())
    }
}

/// Takes sessions out of the index.
pub fn drop_sessions(index: &mut CachedHarnessIndex, ids: &Vec<String>)
    ensures
        final(index)@ == without_sessions(old(index)@, ids.deep_view()),
{
    let ghost all = ids.deep_view();
    let ghost v = index@;
    let mut i: usize = 0;
    assert(all.take(0) == Seq::<Seq<char>>::empty());
    while i < ids.len()
        invariant
            i <= ids.len(),
            all == ids.deep_view(),
            index@ == without_sessions(v, all.take(i as int)),
        decreases ids.len() - i,
    {
        assert(all.take(i + 1).drop_last() == all.take(i as int));
        assert(all.take(i + 1).last() == ids@[i as int]@);
        index.remove_session(ids[i].as_str());
        i += 1;
    }
    assert(all.take(i as int) == all);
}

/// Taking sessions out of an index leaves exactly the others, as they were, and
/// leaves a grouped index grouped.
pub proof fn dropping_keeps_the_others(v: IndexView, ids: Seq<Seq<char>>)
    ensures
        forall|id: Seq<char>| #[trigger]
            without_sessions(v, ids).sessions.dom().contains(id) <==> v.sessions.dom().contains(id)
                && !ids.contains(id),
        forall|id: Seq<char>| #[trigger]
            without_sessions(v, ids).sessions.dom().contains(id) ==> without_sessions(
                v,
                ids,
            ).sessions[id] == v.sessions[id],
        is_grouped(v) ==> is_grouped(without_sessions(v, ids)),
    decreases ids.len(),
{
    if ids.len() > 0 {
        let init = ids.drop_last();
        dropping_keeps_the_others(v, init);
        assert(ids == init.push(ids.last()));
        assert forall|id: Seq<char>| ids.contains(id) <==> init.contains(id) || id == ids.last() by {
            contains_after_push(init, ids.last(), id);
        }
        let before = without_sessions(v, init);
        if is_grouped(v) {
            removal_keeps_grouping(before, ids.last());
        }
        assert forall|id: Seq<char>| #[trigger]
            without_sessions(v, ids).sessions.dom().contains(id) <==> v.sessions.dom().contains(id)
                && !ids.contains(id) by {
            assert(before.sessions.dom().contains(id) <==> v.sessions.dom().contains(id)
                && !init.contains(id));
        }
        assert forall|id: Seq<char>| #[trigger]
            without_sessions(v, ids).sessions.dom().contains(id) implies without_sessions(
            v,
            ids,
        ).sessions[id] == v.sessions[id] by {
            assert(before.sessions.dom().contains(id));
        }
    }
}

/// Sessions by their identifiers, the later of two with one identifier in its place.
pub open spec fn overlaid(
    sessions: Map<Seq<char>, SessionView>,
    more: Seq<SessionView>,
) -> Map<Seq<char>, SessionView>
    decreases more.len(),
{
    if more.len() == 0 {
        sessions
    } else {
        overlaid(sessions, more.drop_last()).insert(more.last().id, more.last())
    }
}

/// Puts sessions into the index, each in place of one with its identifier.
pub fn overlay_sessions(index: &mut CachedHarnessIndex, more: Vec<CachedSession>)
    ensures
        final(index)@.sessions == overlaid(old(index)@.sessions, more.deep_view()),
        final(index).by_path == old(index).by_path,
        final(index).schema_version == old(index).schema_version,
{
    let ghost all = more.deep_view();
    let ghost start = index@.sessions;
    let mut rest = more;
    let ghost mut done: int = 0;
    assert(all.take(0) == Seq::<SessionView>::empty());
    while rest.len() > 0
        invariant
            0 <= done <= all.len(),
            rest@.len() == all.len() - done,
            forall|k: int| 0 <= k < rest@.len() ==> (#[trigger] rest@[k])@ == all[done + k],
            index@.sessions == overlaid(start, all.take(done)),
            index.by_path == old(index).by_path,
            index.schema_version == old(index).schema_version,
        decreases rest.len(),
    {
        let ghost before = rest@;
        let session = rest.remove(0);
        proof {
            assert(session == before[0]);
            assert(all.take(done + 1).drop_last() == all.take(done));
            assert(all.take(done + 1).last() == session@);
            views_of_insert(index.sessions_by_id@, session.id@, session);
            assert forall|k: int| 0 <= k < rest@.len() implies (#[trigger] rest@[k])@ == all[done + 1
                + k] by {
                assert(rest@[k] == before[k + 1]);
            }
            done = done + 1;
        }
        let key = session.id.clone();
        index.sessions_by_id.insert(key, session);
    }
    assert(all.take(done) == all);
}

/// What a refresh starts from: what was remembered, if anything, in the form in use.
pub open spec fn starting_point(cached: Option<CachedHarnessIndex>) -> IndexView {
    match cached {
        Some(index) => IndexView { schema_version: SCHEMA_VERSION, ..index@ },
        None => IndexView {
            schema_version: SCHEMA_VERSION,
            sessions: Map::empty(),
            by_path: Map::empty(),
        },
    }
}

/// What a refresh starts from.
pub fn start_refresh(cached: Option<CachedHarnessIndex>) -> (r: CachedHarnessIndex)
    ensures
        r@ == starting_point(cached),
{
    let mut index = match cached {
        Some(index) => index,
        None => CachedHarnessIndex::empty(),
    };
    index.schema_version = SCHEMA_VERSION;
    index
}

/// Taking sessions out leaves the form of an index as it is.
pub proof fn dropping_keeps_the_form(v: IndexView, gone: Seq<Seq<char>>)
    ensures
        without_sessions(v, gone).schema_version == v.schema_version,
    decreases gone.len(),
{
    if gone.len() > 0 {
        dropping_keeps_the_form(v, gone.drop_last());
    }
}

/// A session that was read from a file is what the file says, under the file's path and time.
pub proof fn sessions_are_what_was_read(file: ScannedFile, record: RecordView)
    ensures
        session_in_file(file, record).id == record.id,
        session_in_file(file, record).path == Some(file.path@),
        session_in_file(file, record).mtime_ns == file.mtime_ns,
        session_in_file(file, record).is_child == record.is_child,
        record.cwd.len() == 0 ==> session_in_file(file, record).cwds.len() == 0,
        record.cwd.len() > 0 ==> session_in_file(file, record).cwds == seq![record.cwd],
{
}

/// A file that has not changed since it was read is not read again; one that has is, and what
/// it says then replaces what was known under its identifier and nothing else.
pub proof fn changed_files_are_read_again(
    sessions: Map<Seq<char>, SessionView>,
    files: Seq<ScannedFile>,
    readings: Seq<Reading>,
    n: int,
    other: Seq<char>,
)
    requires
        0 < n <= files.len(),
        readings.len() == files.len(),
    ensures
        ({
            let before = refreshed(sessions, files, readings, n - 1);
            let after = refreshed(sessions, files, readings, n);
            let unchanged = readings[n - 1].known matches Some(id) && before[id].mtime_ns
                == files[n - 1].mtime_ns;
            &&& unchanged ==> after == before
            &&& !unchanged ==> (readings[n - 1].record matches Some(record) ==> {
                &&& after.dom().contains(record.id)
                &&& after[record.id].path == Some(files[n - 1].path@)
                &&& after[record.id].mtime_ns == files[n - 1].mtime_ns
                &&& other != record.id ==> (after.dom().contains(other) <==> before.dom().contains(
                    other,
                )) && (before.dom().contains(other) ==> after[other] == before[other])
            })
            &&& readings[n - 1].record is None ==> after == before
        }),
{
}

/// Only a session with a file can go stale, and it does where no file was met for it.
pub proof fn sessions_without_files_stay(s: SessionView, id: Seq<char>, met: Seq<Seq<char>>)
    ensures
        is_stale(s, id, met) ==> s.path is Some && !met.contains(id),
        s.path is None ==> !is_stale(s, id, met),
        s.path is Some && !met.contains(id) ==> is_stale(s, id, met),
{
}

/// A kept index is begun with as it is, in the present form; without one nothing is known.
pub proof fn refreshing_begins_with_what_is_known(index: CachedHarnessIndex)
    ensures
        starting_point(Some(index)).sessions == index@.sessions,
        starting_point(Some(index)).by_path == index@.by_path,
        starting_point(Some(index)).schema_version == 2,
        starting_point(None).sessions.dom() == Set::<Seq<char>>::empty(),
        starting_point(None).by_path.dom() == Set::<Seq<char>>::empty(),
        starting_point(None).schema_version == 2,
{
}

/// A session of a refreshed index was known before and is as it was, or was read from a file:
/// what the file said then stands under the file's path and time. Gives the file.
pub proof fn sessions_were_known_or_read<R: Fn(&ScannedFile) -> Option<FileRecord>>(
    before: Map<Seq<char>, SessionView>,
    files: Seq<ScannedFile>,
    read: R,
    readings: Seq<Reading>,
    n: int,
    id: Seq<char>,
) -> (i: int)
    requires
        0 <= n <= files.len(),
        readings.len() == files.len(),
        readings_hold(before, files, read, readings, files.len() as int),
        refreshed(before, files, readings, n).dom().contains(id),
    ensures
        0 <= i < n ==> {
            &&& readings[i].record is Some
            &&& readings[i].record->0.id == id
            &&& refreshed(before, files, readings, n)[id] == session_in_file(
                files[i],
                readings[i].record->0,
            )
            &&& exists|answer: Option<FileRecord>| #[trigger]
                call_ensures(read, (&files[i],), answer) && answer is Some && answer->0@
                    == readings[i].record->0
        },
        !(0 <= i < n) ==> before.dom().contains(id) && refreshed(before, files, readings, n)[id]
            == before[id],
    decreases n,
{
    if n <= 0 {
        -1
    } else {
        let so_far = refreshed(before, files, readings, n - 1);
        let reading = readings[n - 1];
        if !is_unchanged(so_far, files[n - 1], reading.known) && (
        reading.record matches Some(record) && record.id == id) {
            assert(may_read(read, &files[n - 1], reading.record));
            let answer = choose|answer: Option<FileRecord>| #[trigger]
                call_ensures(read, (&files[n - 1],), answer) && answer.deep_view()
                    == reading.record;
            assert(answer is Some && answer->0@ == reading.record->0);
            n - 1
        } else {
            let i = sessions_were_known_or_read(before, files, read, readings, n - 1, id);
            if 0 <= i < n - 1 {
                i
            } else {
                -1
            }
        }
    }
}

/// A file is known by the session that has its path, if any has.
pub proof fn files_are_known_by_path(
    sessions: Map<Seq<char>, SessionView>,
    file: ScannedFile,
    known: Option<Seq<char>>,
    id: Seq<char>,
)
    requires
        known_by_path(sessions, file.path@, known),
    ensures
        known matches Some(k) ==> sessions.dom().contains(k) && sessions[k].path == Some(file.path@),
        known is None && sessions.dom().contains(id) ==> sessions[id].path != Some(file.path@),
        is_unchanged(sessions, file, known) <==> known is Some && sessions[known->0].mtime_ns
            == file.mtime_ns,
{
}

/// It is the file that is read: where it always reads the same, that is what is recorded.
pub proof fn files_are_read_themselves<R: Fn(&ScannedFile) -> Option<FileRecord>>(
    read: R,
    file: &ScannedFile,
    record: Option<RecordView>,
    reads: Option<RecordView>,
)
    requires
        forall|r: Option<FileRecord>| #[trigger]
            call_ensures(read, (file,), r) ==> r.deep_view() == reads,
        may_read(read, file, record),
    ensures
        record == reads,
{
}

} // verus!
