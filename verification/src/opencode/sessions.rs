//! The sessions of OpenCode, in files and in the database.

use crate::json::{Json, JsonView, json_in};
use crate::opencode::db::{
    any_message_contains, any_part_contains, any_part_edits, session_contains_text_from_db,
    session_edited_file_from_db, session_tail_contains_text_from_db,
};
use crate::opencode::parts::{
    contains_needle, edits_file, files_to_search, raw_contains, raw_edits, raw_part_contains,
    raw_part_edits,
};
use crate::order::{Ranking, is_sorted, sorting_sorts, stable_sort};
use crate::paths::{below, join_path};
use crate::provider::{Provider, Session};
use crate::table::{TextMap, entry_is_mapped, keys_differ};
use crate::time::{
    Timestamp, in_calendar, instant_of_millis, instant_or, millis_in_calendar, millis_round_trip,
    utc_now,
};
use vstd::prelude::*;

verus! {

/// Where OpenCode keeps its sessions, below its data directory.
pub fn storage_dir(data_dir: &str) -> (r: String)
    ensures
        r@ == below(data_dir@, "storage/directory-agents"@),
{
    join_path(data_dir, "storage/directory-agents")
}

/// Where OpenCode keeps the parts of messages, below its data directory.
pub fn part_dir(data_dir: &str) -> (r: String)
    ensures
        r@ == below(data_dir@, "storage/part"@),
{
    join_path(data_dir, "storage/part")
}

/// Where OpenCode keeps its logs, below its data directory.
pub fn log_dir(data_dir: &str) -> (r: String)
    ensures
        r@ == below(data_dir@, "log"@),
{
    join_path(data_dir, "log")
}

/// What is known of a session.
#[derive(Clone, Debug)]
pub struct SessionInfo {
    pub session_id: String,
    pub started_at: Timestamp,
    pub updated_at: Timestamp,
    pub project_dir: String,
    pub title: String,
    /// The session that started this one, for the session of a sub-agent.
    pub parent_id: Option<String>,
}

/// The session, as it is known whichever provider it belongs to.
pub fn as_session(info: SessionInfo) -> (r: Session)
    ensures
        r == (Session {
            session_id: info.session_id,
            provider: Provider::OpenCode,
            started_at: info.started_at,
            updated_at: info.updated_at,
            project_dir: info.project_dir,
            title: info.title,
            parent_id: info.parent_id,
        }),
{
    Session {
        session_id: info.session_id,
        provider: Provider::OpenCode,
        started_at: info.started_at,
        updated_at: info.updated_at,
        project_dir: info.project_dir,
        title: info.title,
        parent_id: info.parent_id,
    }
}

/// The instant a number of milliseconds after the epoch; where the calendar has
/// none, the present.
pub fn ms_to_datetime(ms: i64) -> (r: Timestamp)
    ensures
        millis_in_calendar(ms as int) ==> r == instant_of_millis(ms as int),
        in_calendar(r),
{
    proof {
        if millis_in_calendar(ms as int) {
            millis_round_trip(ms as int);
        }
    }
    instant_or(ms, utc_now())
}

/// A session file of OpenCode. Times are in milliseconds.
#[derive(Clone, Debug)]
pub struct SessionFile {
    pub id: String,
    pub directory: String,
    pub title: String,
    pub created: i64,
    pub updated: i64,
    pub parent_id: Option<String>,
}

/// When the session of a file was updated: when the file says, else when it began.
pub open spec fn file_updated(updated: int, started: Timestamp) -> Timestamp {
    if updated > 0 && millis_in_calendar(updated) {
        instant_of_millis(updated)
    } else {
        started
    }
}

/// The session of a file, where `now` stands for a beginning that the calendar
/// does not have.
pub open spec fn file_session(file: SessionFile, now: Timestamp) -> SessionInfo {
    let started = if millis_in_calendar(file.created as int) {
        instant_of_millis(file.created as int)
    } else {
        now
    };
    SessionInfo {
        session_id: file.id,
        started_at: started,
        updated_at: file_updated(file.updated as int, started),
        project_dir: file.directory,
        title: file.title,
        parent_id: file.parent_id,
    }
}

/// The session of a file, where `now` stands for a beginning that the calendar
/// does not have.
pub fn session_of_file_at(file: SessionFile, now: Timestamp) -> (r: SessionInfo)
    ensures
        r == file_session(file, now),
{
    let started_at = instant_or(file.created, now);
    let updated_at = if file.updated > 0 {
        instant_or(file.updated, started_at)
    } else {
        started_at
    };
    SessionInfo {
        session_id: file.id,
        started_at,
        updated_at,
        project_dir: file.directory,
        title: file.title,
        parent_id: file.parent_id,
    }
}

/// The session of a file.
pub fn session_of_file(file: SessionFile) -> (r: SessionInfo)
    ensures
        exists|now: Timestamp| in_calendar(now) && r == #[trigger] file_session(file, now),
{
    let now = utc_now();
    session_of_file_at(file, now)
}

/// A session that only the directory of agents knows: one time stands for both,
/// and neither title nor parent is known.
pub fn session_of_agent_file(session_id: String, updated: i64, directory: String) -> (r: SessionInfo)
    ensures
        r.session_id == session_id,
        r.project_dir == directory,
        r.title@.len() == 0,
        r.parent_id is None,
        r.started_at == r.updated_at,
        millis_in_calendar(updated as int) ==> r.started_at == instant_of_millis(updated as int),
        in_calendar(r.started_at),
{
    let at = ms_to_datetime(updated);
    SessionInfo {
        session_id,
        started_at: at,
        updated_at: at,
        project_dir: directory,
        title: String::new(),
        parent_id: None,
    }
}

/// A session row of the database. Times are in milliseconds.
#[derive(Clone, Debug)]
pub struct SessionRow {
    pub id: String,
    pub parent_id: Option<String>,
    pub directory: Option<String>,
    pub title: Option<String>,
    pub created: i64,
    pub updated: i64,
}

/// The session of a row. A session without an update was updated when it began.
pub fn session_of_row(row: SessionRow) -> (r: SessionInfo)
    ensures
        r.session_id == row.id,
        r.parent_id == row.parent_id,
        r.project_dir@ == (match row.directory {
            Some(d) => d@,
            None => Seq::empty(),
        }),
        r.title@ == (match row.title {
            Some(t) => t@,
            None => Seq::empty(),
        }),
        millis_in_calendar(row.created as int) ==> r.started_at == instant_of_millis(
            row.created as int,
        ),
        row.updated <= 0 ==> r.updated_at == r.started_at,
        row.updated > 0 && millis_in_calendar(row.updated as int) ==> r.updated_at
            == instant_of_millis(row.updated as int),
        in_calendar(r.started_at),
        in_calendar(r.updated_at),
{
    let started_at = ms_to_datetime(row.created);
    let updated_at = if row.updated > 0 {
        ms_to_datetime(row.updated)
    } else {
        started_at
    };
    SessionInfo {
        session_id: row.id,
        started_at,
        updated_at,
        project_dir: match row.directory {
            Some(d) => d,
            None => String::new(),
        },
        title: match row.title {
            Some(t) => t,
            None => String::new(),
        },
        parent_id: row.parent_id,
    }
}

/// The session that began first comes first.
pub struct ByInfoStart;

impl Ranking<SessionInfo> for ByInfoStart {
    open spec fn le(a: SessionInfo, b: SessionInfo) -> bool {
        a.started_at.spec_le(b.started_at)
    }

    fn leq(a: &SessionInfo, b: &SessionInfo) -> (r: bool) {
        a.started_at.le(b.started_at)
    }

    proof fn total(a: SessionInfo, b: SessionInfo) {
    }

    proof fn transitive(a: SessionInfo, b: SessionInfo, c: SessionInfo) {
    }
}

/// Sessions by their identifiers, the later of two with one identifier in its place.
pub open spec fn by_id(sessions: Seq<SessionInfo>) -> Map<Seq<char>, SessionInfo>
    decreases sessions.len(),
{
    if sessions.len() == 0 {
        Map::empty()
    } else {
        by_id(sessions.drop_last()).insert(sessions.last().session_id@, sessions.last())
    }
}

/// Whether sessions are, each once and in the order in which they began, those of a map.
pub open spec fn lists_in_order(
    found: Seq<SessionInfo>,
    sessions: Map<Seq<char>, SessionInfo>,
) -> bool {
    &&& is_sorted::<SessionInfo, ByInfoStart>(found)
    &&& forall|i: int, j: int|
        0 <= i < j < found.len() ==> (#[trigger] found[i]).session_id@ != (
        #[trigger] found[j]).session_id@
    &&& forall|i: int|
        0 <= i < found.len() ==> sessions.dom().contains((#[trigger] found[i]).session_id@)
            && sessions[found[i].session_id@] == found[i]
    &&& forall|id: Seq<char>| #[trigger]
        sessions.dom().contains(id) ==> exists|i: int|
            0 <= i < found.len() && (#[trigger] found[i]).session_id@ == id
}

proof fn by_id_keeps_ids(sessions: Seq<SessionInfo>)
    ensures
        forall|id: Seq<char>| #[trigger]
            by_id(sessions).dom().contains(id) ==> by_id(sessions)[id].session_id@ == id,
    decreases sessions.len(),
{
    if sessions.len() > 0 {
        by_id_keeps_ids(sessions.drop_last());
    }
}

/// A session of the later list stands in place of one of the earlier list with
/// its identifier; a session that the later list does not have stays.
pub proof fn later_sessions_win(files: Seq<SessionInfo>, database: Seq<SessionInfo>)
    ensures
        forall|id: Seq<char>| #[trigger]
            by_id(files + database).dom().contains(id) <==> by_id(files).dom().contains(id)
                || by_id(database).dom().contains(id),
        forall|id: Seq<char>| #[trigger]
            by_id(files + database).dom().contains(id) ==> by_id(files + database)[id] == (
            if by_id(database).dom().contains(id) {
                by_id(database)[id]
            } else {
                by_id(files)[id]
            }),
    decreases database.len(),
{
    let all = files + database;
    if database.len() == 0 {
        assert(all =~= files);
    } else {
        let init = database.drop_last();
        later_sessions_win(files, init);
        assert(all.drop_last() =~= files + init);
        assert(all.last() == database.last());
        assert forall|id: Seq<char>| #[trigger]
            by_id(all).dom().contains(id) <==> by_id(files).dom().contains(id) || by_id(
                database,
            ).dom().contains(id) by {
            assert(by_id(files + init).dom().contains(id) <==> by_id(files).dom().contains(id)
                || by_id(init).dom().contains(id));
        }
        assert forall|id: Seq<char>| #[trigger] by_id(all).dom().contains(id) implies by_id(all)[id]
            == (if by_id(database).dom().contains(id) {
            by_id(database)[id]
        } else {
            by_id(files)[id]
        }) by {
            if id != database.last().session_id@ {
                assert(by_id(files + init).dom().contains(id));
            }
        }
    }
}

fn put_all(map: &mut TextMap<SessionInfo>, sessions: Vec<SessionInfo>, Ghost(before): Ghost<
    Seq<SessionInfo>,
>)
    requires
        old(map)@ == by_id(before),
    ensures
        final(map)@ == by_id(before + sessions@),
{
    let ghost all = sessions@;
    let mut rest = sessions;
    let ghost mut done: int = 0;
    assert(before + all.take(0) =~= before);
    while rest.len() > 0
        invariant
            0 <= done <= all.len(),
            rest@ == all.skip(done),
            map@ == by_id(before + all.take(done)),
        decreases rest.len(),
    {
        let s = rest.remove(0);
        proof {
            let now = before + all.take(done + 1);
            assert(now.drop_last() =~= before + all.take(done));
            assert(now.last() == s);
            done = done + 1;
        }
        let key = s.session_id.clone();
        map.insert(key, s);
    }
    assert(all.take(done) =~= all);
}

fn copy_info(s: &SessionInfo) -> (r: SessionInfo)
    ensures
        r == *s,
{
    SessionInfo {
        session_id: s.session_id.clone(),
        started_at: s.started_at,
        updated_at: s.updated_at,
        project_dir: s.project_dir.clone(),
        title: s.title.clone(),
        parent_id: s.parent_id.clone(),
    }
}

/// The sessions of files and database together, in the order in which they began.
/// A session of the database stands in place of one of a file with its identifier.
pub fn merge_sessions(file_sessions: Vec<SessionInfo>, db_sessions: Vec<SessionInfo>) -> (r: Vec<
    SessionInfo,
>)
    ensures
        lists_in_order(r@, by_id(file_sessions@ + db_sessions@)),
{
    let ghost both = file_sessions@ + db_sessions@;
    let mut map: TextMap<SessionInfo> = TextMap::new();
    let ghost none = Seq::<SessionInfo>::empty();
    assert(none + file_sessions@ =~= file_sessions@);
    put_all(&mut map, file_sessions, Ghost(none));
    put_all(&mut map, db_sessions, Ghost(file_sessions@));
    let n: usize = map.len();
    let ghost items = map.items();
    let mut values: Vec<SessionInfo> = Vec::new();
    let mut i: usize = 0;
    while i < n
        invariant
            i <= n,
            n == items.len(),
            items == map.items(),
            keys_differ(items),
            values@ == Seq::new(i as nat, |k: int| items[k].1),
        decreases n - i,
    {
        values.push(copy_info(map.value_at(i)));
        i += 1;
    }
    let ghost unsorted = values@;
    let sorted = stable_sort::<SessionInfo, ByInfoStart>(values);
    proof {
        by_id_keeps_ids(both);
        sorting_sorts::<SessionInfo, ByInfoStart>(unsorted);
        let m = by_id(both);
        assert forall|k: int| 0 <= k < n implies m.dom().contains((#[trigger] items[k]).0)
            && items[k].1.session_id@ == items[k].0 && m[items[k].0] == items[k].1 by {
            entry_is_mapped(items, k);
        }
        same_elements(sorted@, unsorted);
        assert forall|a: int| 0 <= a < sorted@.len() implies m.dom().contains(
            (#[trigger] sorted@[a]).session_id@,
        ) && m[sorted@[a].session_id@] == sorted@[a] by {
            let k = choose|k: int| 0 <= k < unsorted.len() && unsorted[k] == sorted@[a];
            assert(items[k].1 == sorted@[a]);
        }
        assert forall|id: Seq<char>| #[trigger] m.dom().contains(id) implies exists|a: int|
            0 <= a < sorted@.len() && (#[trigger] sorted@[a]).session_id@ == id by {
            let k = choose|k: int| 0 <= k < items.len() && (#[trigger] items[k]).0 == id;
            assert(unsorted[k] == items[k].1);
            assert(unsorted.contains(unsorted[k]));
            assert(sorted@.contains(unsorted[k]));
            let a = choose|a: int| 0 <= a < sorted@.len() && sorted@[a] == unsorted[k];
            assert(sorted@[a].session_id@ == id);
        }
        assert forall|a: int, b: int| 0 <= a < b < unsorted.len() implies (
        #[trigger] unsorted[a]).session_id@ != (#[trigger] unsorted[b]).session_id@ by {
            assert(items[a].0 != items[b].0);
        }
        distinct_after_sorting(unsorted, sorted@);
    }
    sorted
}

proof fn same_elements(a: Seq<SessionInfo>, b: Seq<SessionInfo>)
    requires
        a.to_multiset() == b.to_multiset(),
    ensures
        forall|x: SessionInfo| a.contains(x) <==> b.contains(x),
        forall|i: int| 0 <= i < a.len() ==> b.contains(#[trigger] a[i]),
{
    assert forall|x: SessionInfo| a.contains(x) <==> b.contains(x) by {
        vstd::seq_lib::to_multiset_contains(a, x);
        vstd::seq_lib::to_multiset_contains(b, x);
    }
    assert forall|i: int| 0 <= i < a.len() implies b.contains(#[trigger] a[i]) by {
        assert(a.contains(a[i]));
    }
}

proof fn distinct_after_sorting(a: Seq<SessionInfo>, b: Seq<SessionInfo>)
    requires
        a.to_multiset() == b.to_multiset(),
        forall|i: int, j: int|
            0 <= i < j < a.len() ==> (#[trigger] a[i]).session_id@ != (#[trigger] a[j]).session_id@,
    ensures
        forall|i: int, j: int|
            0 <= i < j < b.len() ==> (#[trigger] b[i]).session_id@ != (#[trigger] b[j]).session_id@,
{
    assert(a.no_duplicates());
    a.lemma_multiset_has_no_duplicates();
    b.lemma_multiset_has_no_duplicates_conv();
    same_elements(b, a);
    assert forall|i: int, j: int| 0 <= i < j < b.len() implies (#[trigger] b[i]).session_id@ != (
    #[trigger] b[j]).session_id@ by {
        let k = choose|k: int| 0 <= k < a.len() && a[k] == b[i];
        let m = choose|m: int| 0 <= m < a.len() && a[m] == b[j];
        assert(b[i] != b[j]);
        assert(k != m);
        if k < m {
            assert(a[k].session_id@ != a[m].session_id@);
        } else {
            assert(a[m].session_id@ != a[k].session_id@);
        }
    }
}

/// Whether one of the stored parts contains a text.
pub open spec fn any_raw_contains(raws: Seq<Seq<char>>, needle: Seq<char>) -> bool {
    exists|i: int| 0 <= i < raws.len() && raw_contains(#[trigger] raws[i], needle)
}

/// Whether one of the stored parts contains a text.
pub fn any_raw_part_contains(raws: &Vec<String>, needle: &str) -> (r: bool)
    ensures
        r == any_raw_contains(raws.deep_view(), needle@),
{
    let ghost all = raws.deep_view();
    let mut i: usize = 0;
    while i < raws.len()
        invariant
            i <= raws.len(),
            all == raws.deep_view(),
            forall|j: int| 0 <= j < i ==> !raw_contains(#[trigger] all[j], needle@),
        decreases raws.len() - i,
    {
        assert(all[i as int] == raws@[i as int]@);
        if raw_part_contains(raws[i].as_str(), needle) {
            return true;
        }
        i += 1;
    }
    false
}

/// Whether a session contains a text: a part in its files does, or else a part in
/// the database.
pub fn session_contains_text(raw_parts: &Vec<String>, db_parts: &Vec<Json>, needle: &str) -> (r: bool)
    ensures
        r == (any_raw_contains(raw_parts.deep_view(), needle@) || any_part_contains(
            db_parts.deep_view(),
            needle@,
        )),
{
    any_raw_part_contains(raw_parts, needle) || session_contains_text_from_db(db_parts, needle)
}

/// Whether the last messages of a session contain a text: a part in the files of
/// the messages does, or else a part in the database.
pub fn session_tail_contains_text(
    tail_raw_parts: &Vec<String>,
    db_messages: &Vec<Vec<Json>>,
    needle: &str,
) -> (r: bool)
    ensures
        r == (any_raw_contains(tail_raw_parts.deep_view(), needle@) || any_message_contains(
            db_messages.deep_view(),
            needle@,
        )),
{
    any_raw_part_contains(tail_raw_parts, needle) || session_tail_contains_text_from_db(
        db_messages,
        needle,
    )
}

/// Whether one of the stored parts wrote a file.
pub open spec fn any_raw_edits(raws: Seq<Seq<char>>, target: Seq<char>) -> bool {
    exists|i: int| 0 <= i < raws.len() && raw_edits(#[trigger] raws[i], target)
}

/// Whether a session wrote a file: a part in its files did, or else a part in the
/// database.
pub fn session_edited_file(raw_parts: &Vec<String>, db_parts: &Vec<Json>, target_path: &str) -> (r:
    bool)
    ensures
        r == (any_raw_edits(raw_parts.deep_view(), target_path@) || any_part_edits(
            db_parts.deep_view(),
            target_path@,
        )),
{
    let ghost all = raw_parts.deep_view();
    let mut i: usize = 0;
    while i < raw_parts.len()
        invariant
            i <= raw_parts.len(),
            all == raw_parts.deep_view(),
            forall|j: int| 0 <= j < i ==> !raw_edits(#[trigger] all[j], target_path@),
        decreases raw_parts.len() - i,
    {
        assert(all[i as int] == raw_parts@[i as int]@);
        if raw_part_edits(raw_parts[i].as_str(), target_path) {
            return true;
        }
        i += 1;
    }
    session_edited_file_from_db(db_parts, target_path)
}

/// The raw parts of message files, in order, given those of each.
pub open spec fn parts_in(files: Seq<String>, parts: Map<Seq<char>, Seq<Seq<char>>>) -> Seq<
    Seq<char>,
>
    decreases files.len(),
{
    if files.len() == 0 {
        Seq::empty()
    } else {
        parts_in(files.drop_last(), parts) + parts_of(files.last()@, parts)
    }
}

/// The raw parts of a message file; one that is not there has none.
pub open spec fn parts_of(name: Seq<char>, parts: Map<Seq<char>, Seq<Seq<char>>>) -> Seq<Seq<char>> {
    if parts.dom().contains(name) {
        parts[name]
    } else {
        Seq::empty()
    }
}

/// The first `n` messages of a database that lists the last message first.
pub open spec fn newest(db: Seq<Seq<JsonView>>, n: int) -> Seq<Seq<JsonView>> {
    if n < db.len() {
        db.take(n)
    } else {
        db
    }
}

/// Whether the last `n` messages of a session contain a text: those of the message
/// files with these names and parts, or those of the database.
pub open spec fn tail_finds(
    names: Seq<String>,
    parts: Map<Seq<char>, Seq<Seq<char>>>,
    db: Seq<Seq<JsonView>>,
    needle: Seq<char>,
    n: usize,
) -> bool {
    any_raw_contains(parts_in(files_to_search(names, Some(n)), parts), needle)
        || any_message_contains(newest(db, n as int), needle)
}

/// Whether a session contains a text, given all its parts in the database.
pub open spec fn all_finds(
    names: Seq<String>,
    parts: Map<Seq<char>, Seq<Seq<char>>>,
    db_parts: Seq<JsonView>,
    needle: Seq<char>,
) -> bool {
    any_raw_contains(parts_in(files_to_search(names, None), parts), needle) || any_part_contains(
        db_parts,
        needle,
    )
}

/// Whether the `i`-th message from the end contains a text, in its file or in the
/// database.
pub open spec fn message_finds(
    names: Seq<String>,
    parts: Map<Seq<char>, Seq<Seq<char>>>,
    db: Seq<Seq<JsonView>>,
    needle: Seq<char>,
    i: int,
) -> bool {
    let files = files_to_search(names, None).reverse();
    ||| 0 <= i < files.len() && any_raw_contains(parts_of(files[i]@, parts), needle)
    ||| 0 <= i < db.len() && any_part_contains(db[i], needle)
}

proof fn found_in_some_file(
    files: Seq<String>,
    parts: Map<Seq<char>, Seq<Seq<char>>>,
    needle: Seq<char>,
)
    ensures
        any_raw_contains(parts_in(files, parts), needle) <==> exists|i: int|
            0 <= i < files.len() && any_raw_contains(
                parts_of((#[trigger] files[i])@, parts),
                needle,
            ),
    decreases files.len(),
{
    if files.len() > 0 {
        let rest = files.drop_last();
        let a = parts_in(rest, parts);
        let b = parts_of(files.last()@, parts);
        found_in_some_file(rest, parts, needle);
        if any_raw_contains(a + b, needle) {
            let i = choose|i: int| 0 <= i < (a + b).len() && raw_contains(
                #[trigger] (a + b)[i],
                needle,
            );
            if i < a.len() {
                assert(raw_contains(a[i], needle));
                let j = choose|j: int|
                    0 <= j < rest.len() && any_raw_contains(
                        parts_of((#[trigger] rest[j])@, parts),
                        needle,
                    );
                assert(files[j] == rest[j]);
            } else {
                assert(raw_contains(b[i - a.len()], needle));
                assert(files[files.len() - 1] == files.last());
            }
        }
        if exists|i: int|
            0 <= i < files.len() && any_raw_contains(
                parts_of((#[trigger] files[i])@, parts),
                needle,
            ) {
            let i = choose|i: int|
                0 <= i < files.len() && any_raw_contains(
                    parts_of((#[trigger] files[i])@, parts),
                    needle,
                );
            if i < rest.len() {
                assert(rest[i] == files[i]);
                let j = choose|j: int| 0 <= j < a.len() && raw_contains(#[trigger] a[j], needle);
                assert((a + b)[j] == a[j]);
            } else {
                let j = choose|j: int| 0 <= j < b.len() && raw_contains(#[trigger] b[j], needle);
                assert((a + b)[a.len() + j] == b[j]);
            }
        }
    }
}

/// A search in the last `n` messages finds a text exactly where one of them
/// contains it.
pub proof fn tails_are_searched_whole(
    names: Seq<String>,
    parts: Map<Seq<char>, Seq<Seq<char>>>,
    db: Seq<Seq<JsonView>>,
    needle: Seq<char>,
    n: usize,
)
    ensures
        tail_finds(names, parts, db, needle, n) <==> exists|i: int|
            0 <= i < n && #[trigger] message_finds(names, parts, db, needle, i),
{
    let files = files_to_search(names, Some(n));
    let all = files_to_search(names, None).reverse();
    let last = newest(db, n as int);
    found_in_some_file(files, parts, needle);
    assert forall|i: int| 0 <= i < files.len() implies #[trigger] files[i] == all[i] by {}
    if tail_finds(names, parts, db, needle, n) {
        if any_raw_contains(parts_in(files, parts), needle) {
            let i = choose|i: int|
                0 <= i < files.len() && any_raw_contains(
                    parts_of((#[trigger] files[i])@, parts),
                    needle,
                );
            assert(message_finds(names, parts, db, needle, i));
        } else {
            let i = choose|i: int| 0 <= i < last.len() && any_part_contains(
                #[trigger] last[i],
                needle,
            );
            assert(db[i] == last[i]);
            assert(message_finds(names, parts, db, needle, i));
        }
    }
    if exists|i: int| 0 <= i < n && #[trigger] message_finds(names, parts, db, needle, i) {
        let i = choose|i: int|
            0 <= i < n && #[trigger] message_finds(names, parts, db, needle, i);
        if 0 <= i < all.len() && any_raw_contains(parts_of(all[i]@, parts), needle) {
            assert(files[i] == all[i]);
        } else {
            assert(last[i] == db[i]);
        }
    }
}

/// A search in more of the last messages finds at least as much, one in none finds
/// nothing, and none finds more than the search in all of them. So a text that
/// only the `k`-th message from the end contains is found where at least `k`
/// messages are searched.
pub proof fn more_messages_find_more(
    names: Seq<String>,
    parts: Map<Seq<char>, Seq<Seq<char>>>,
    db: Seq<Seq<JsonView>>,
    db_parts: Seq<JsonView>,
    needle: Seq<char>,
    n: usize,
    m: usize,
)
    requires
        n <= m,
        forall|i: int, j: int|
            0 <= i < db.len() && 0 <= j < db[i].len() ==> db_parts.contains(#[trigger] db[i][j]),
    ensures
        tail_finds(names, parts, db, needle, n) ==> tail_finds(names, parts, db, needle, m),
        tail_finds(names, parts, db, needle, m) ==> all_finds(names, parts, db_parts, needle),
        !tail_finds(names, parts, db, needle, 0),
{
    tails_are_searched_whole(names, parts, db, needle, n);
    tails_are_searched_whole(names, parts, db, needle, m);
    tails_are_searched_whole(names, parts, db, needle, 0);
    let sorted = files_to_search(names, None);
    found_in_some_file(sorted, parts, needle);
    if tail_finds(names, parts, db, needle, m) {
        let i = choose|i: int|
            0 <= i < m && #[trigger] message_finds(names, parts, db, needle, i);
        let all = sorted.reverse();
        if 0 <= i < all.len() && any_raw_contains(parts_of(all[i]@, parts), needle) {
            assert(sorted[sorted.len() - 1 - i] == all[i]);
        } else {
            let j = choose|j: int| 0 <= j < db[i].len() && contains_needle(
                #[trigger] db[i][j],
                needle,
            );
            assert(db_parts.contains(db[i][j]));
        }
    }
}

/// A session of a file is what the file says, from when it was made to when it was last
/// changed; where it was never changed, that is when it was made.
pub proof fn sessions_are_what_their_files_say(file: SessionFile, now: Timestamp)
    ensures
        file_session(file, now).session_id == file.id,
        file_session(file, now).project_dir == file.directory,
        file_session(file, now).title == file.title,
        file_session(file, now).parent_id == file.parent_id,
        -8_334_601_228_800_000 <= file.created <= 8_210_266_876_799_999 ==> file_session(
            file,
            now,
        ).started_at.spec_millis() == file.created,
        0 < file.updated <= 8_210_266_876_799_999 ==> file_session(
            file,
            now,
        ).updated_at.spec_millis() == file.updated,
        file.updated <= 0 ==> file_session(file, now).updated_at == file_session(
            file,
            now,
        ).started_at,
{
    if millis_in_calendar(file.created as int) {
        millis_round_trip(file.created as int);
    }
    if millis_in_calendar(file.updated as int) {
        millis_round_trip(file.updated as int);
    }
}

/// A session of the database is what its row says.
pub proof fn sessions_are_what_their_rows_say(row: SessionRow, r: SessionInfo)
    requires
        call_ensures(session_of_row, (row,), r),
    ensures
        r.session_id == row.id,
        r.parent_id == row.parent_id,
        row.directory matches Some(d) ==> r.project_dir@ == d@,
        row.title matches Some(t) ==> r.title@ == t@,
        row.directory is None ==> r.project_dir@.len() == 0,
        row.title is None ==> r.title@.len() == 0,
        -8_334_601_228_800_000 <= row.created <= 8_210_266_876_799_999
            ==> r.started_at.spec_millis() == row.created,
        0 < row.updated <= 8_210_266_876_799_999 ==> r.updated_at.spec_millis() == row.updated,
        row.updated <= 0 ==> r.updated_at == r.started_at,
{
    if millis_in_calendar(row.created as int) {
        millis_round_trip(row.created as int);
    }
    if millis_in_calendar(row.updated as int) {
        millis_round_trip(row.updated as int);
    }
}

/// A session of OpenCode is what was read of it, under its own harness.
pub proof fn sessions_of_opencode_are_what_was_read(info: SessionInfo, r: Session)
    requires
        call_ensures(as_session, (info,), r),
    ensures
        r.provider == Provider::OpenCode,
        r.session_id == info.session_id,
        r.project_dir == info.project_dir,
        r.title == info.title,
        r.started_at == info.started_at,
        r.updated_at == info.updated_at,
        r.parent_id == info.parent_id,
{
}

/// Of sessions with one identifier the last counts, and every session is kept under its own.
pub proof fn sessions_are_kept_by_identifier(sessions: Seq<SessionInfo>, id: Seq<char>) -> (i: int)
    ensures
        by_id(sessions).dom().contains(id) ==> {
            &&& 0 <= i < sessions.len()
            &&& sessions[i].session_id@ == id
            &&& by_id(sessions)[id] == sessions[i]
            &&& forall|j: int|
                i < j < sessions.len() ==> (#[trigger] sessions[j]).session_id@ != id
        },
        !by_id(sessions).dom().contains(id) ==> forall|j: int|
            0 <= j < sessions.len() ==> (#[trigger] sessions[j]).session_id@ != id,
    decreases sessions.len(),
{
    if sessions.len() == 0 {
        0
    } else if sessions.last().session_id@ == id {
        sessions.len() - 1
    } else {
        let rest = sessions.drop_last();
        let i = sessions_are_kept_by_identifier(rest, id);
        assert(forall|j: int| 0 <= j < rest.len() ==> rest[j] == #[trigger] sessions[j]);
        i
    }
}

/// Merged sessions come from the earliest on, no session twice.
pub proof fn merged_sessions_run_forward(
    found: Seq<SessionInfo>,
    sessions: Map<Seq<char>, SessionInfo>,
    i: int,
    j: int,
)
    requires
        lists_in_order(found, sessions),
        0 <= i < j < found.len(),
    ensures
        found[i].started_at.spec_le(found[j].started_at),
        found[i].session_id@ != found[j].session_id@,
        sessions[found[i].session_id@] == found[i],
{
    assert(ByInfoStart::le(found[i], found[j]));
}

/// A text is found in a session where any of its parts on disk or in the database holds it.
pub proof fn sessions_hold_what_their_parts_hold(raws: Seq<Seq<char>>, needle: Seq<char>, i: int)
    ensures
        0 <= i < raws.len() && (json_in(raws[i]) matches Some(part) && contains_needle(part, needle))
            ==> any_raw_contains(raws, needle),
        0 <= i < raws.len() && (json_in(raws[i]) matches Some(part) && edits_file(part, needle))
            ==> any_raw_edits(raws, needle),
        (forall|k: int|
            0 <= k < raws.len() ==> (json_in(#[trigger] raws[k]) matches Some(part)
                ==> !contains_needle(part, needle))) ==> !any_raw_contains(raws, needle),
        (forall|k: int|
            0 <= k < raws.len() ==> (json_in(#[trigger] raws[k]) matches Some(part) ==> !edits_file(
                part,
                needle,
            ))) ==> !any_raw_edits(raws, needle),
{
    if 0 <= i < raws.len() {
        assert(raw_contains(raws[i], needle) <==> (json_in(raws[i]) matches Some(part)
            && contains_needle(part, needle)));
        assert(raw_edits(raws[i], needle) <==> (json_in(raws[i]) matches Some(part) && edits_file(
            part,
            needle,
        )));
    }
}

} // verus!
