//! What records and the server say of sessions, added to what is known of them.

use crate::opencode::server_client::{LiveStatus, ServerBusyKind, compute_live};
use crate::opencode::status::{LastMessageMeta, StaticStatus, classify_static, status_of};
use crate::provider::Provider;
use crate::session_filter::EnrichedSession;
use crate::table::TextMap;
use vstd::prelude::*;

verus! {

/// What the records say of a session.
#[derive(Clone, Debug)]
pub struct StaticExtension {
    pub status: StaticStatus,
    pub meta: LastMessageMeta,
}

/// What the server says of a session.
#[derive(Clone, Debug)]
pub struct LiveExtension {
    pub status: LiveStatus,
}

/// The status that a record tells.
pub open spec fn status_of_meta(m: LastMessageMeta) -> StaticStatus {
    status_of(m.last_role@, m.last_completed, m.parts_total as int, m.stuck_tools as int)
}

/// A session with what the records say of it. Only sessions of OpenCode that
/// have a record gain anything.
pub open spec fn with_record(s: EnrichedSession, meta: Map<Seq<char>, LastMessageMeta>) -> EnrichedSession {
    let id = s.base.session_id@;
    if s.base.provider is OpenCode && meta.dom().contains(id) {
        EnrichedSession {
            last_message_ts: Some(meta[id].last_msg_ts),
            static_ext: Some(StaticExtension { status: status_of_meta(meta[id]), meta: meta[id] }),
            ..s
        }
    } else {
        s
    }
}

/// Sessions with what the records say of them.
pub open spec fn with_records(
    sessions: Seq<EnrichedSession>,
    meta: Map<Seq<char>, LastMessageMeta>,
) -> Seq<EnrichedSession> {
    Seq::new(sessions.len(), |i: int| with_record(sessions[i], meta))
}

fn copy_meta(m: &LastMessageMeta) -> (r: LastMessageMeta)
    ensures
        r == *m,
{
    LastMessageMeta {
        session_id: m.session_id.clone(),
        msg_id: m.msg_id.clone(),
        last_msg_ts: m.last_msg_ts,
        session_updated_ts: m.session_updated_ts,
        last_role: m.last_role.clone(),
        last_completed: m.last_completed,
        parts_total: m.parts_total,
        stuck_tools: m.stuck_tools,
    }
}

/// The sessions of OpenCode among the sessions: those that records are asked for.
pub open spec fn opencode_ids(sessions: Seq<EnrichedSession>) -> Seq<Seq<char>>
    decreases sessions.len(),
{
    if sessions.len() == 0 {
        Seq::empty()
    } else if sessions.last().base.provider is OpenCode {
        opencode_ids(sessions.drop_last()).push(sessions.last().base.session_id@)
    } else {
        opencode_ids(sessions.drop_last())
    }
}

/// The sessions of OpenCode among the sessions.
pub fn opencode_session_ids(sessions: &Vec<EnrichedSession>) -> (r: Vec<String>)
    ensures
        r.deep_view() == opencode_ids(sessions@),
{
    let mut out: Vec<String> = Vec::new();
    let mut i: usize = 0;
    assert(out.deep_view() == Seq::<Seq<char>>::empty());
    while i < sessions.len()
        invariant
            i <= sessions.len(),
            out.deep_view() == opencode_ids(sessions@.take(i as int)),
        decreases sessions.len() - i,
    {
        assert(sessions@.take(i + 1).drop_last() == sessions@.take(i as int));
        let ghost before = out.deep_view();
        match sessions[i].base.provider {
            Provider::OpenCode => {
                out.push(sessions[i].base.session_id.clone());
                assert(out.deep_view() == before.push(sessions@[i as int].base.session_id@));
            },
            _ => {},
        }
        i += 1;
    }
    assert(sessions@.take(i as int) == sessions@);
    out
}

/// Adds what the records say.
pub fn enrich_static(sessions: Vec<EnrichedSession>, meta: &TextMap<LastMessageMeta>) -> (r: Vec<
    EnrichedSession,
>)
    ensures
        r@ == with_records(sessions@, meta@),
{
    let ghost all = sessions@;
    let mut rest = sessions;
    let mut out: Vec<EnrichedSession> = Vec::new();
    let ghost mut done: int = 0;
    while rest.len() > 0
        invariant
            0 <= done <= all.len(),
            rest@ == all.skip(done),
            out@ == with_records(all.take(done), meta@),
        decreases rest.len(),
    {
        let s = rest.remove(0);
        let mut t = s;
        match t.base.provider {
            Provider::OpenCode => {
                match meta.get(t.base.session_id.as_str()) {
                    Some(m) => {
                        t.last_message_ts = Some(m.last_msg_ts);
                        t.static_ext = Some(
                            StaticExtension { status: classify_static(m), meta: copy_meta(m) },
                        );
                    },
                    None => {},
                }
            },
            _ => {},
        }
        assert(t == with_record(s, meta@));
        out.push(t);
        proof {
            assert(with_records(all.take(done + 1), meta@) == with_records(
                all.take(done),
                meta@,
            ).push(t));
            done = done + 1;
        }
    }
    assert(all.take(done) == all);
    out
}

/// A session with what the server says of it. Only sessions of OpenCode gain anything.
pub open spec fn with_live(
    s: EnrichedSession,
    busy: Option<Map<Seq<char>, ServerBusyKind>>,
) -> EnrichedSession {
    if s.base.provider is OpenCode {
        EnrichedSession {
            live_ext: Some(
                LiveExtension {
                    status: match busy {
                        Some(m) => if m.dom().contains(s.base.session_id@) {
                            LiveStatus::Running
                        } else {
                            LiveStatus::Idle
                        },
                        None => LiveStatus::ServerUnreachable,
                    },
                },
            ),
            ..s
        }
    } else {
        s
    }
}

/// Sessions with what the server says of them.
pub open spec fn with_live_all(
    sessions: Seq<EnrichedSession>,
    busy: Option<Map<Seq<char>, ServerBusyKind>>,
) -> Seq<EnrichedSession> {
    Seq::new(sessions.len(), |i: int| with_live(sessions[i], busy))
}

/// The busy sessions by their identifiers.
pub open spec fn busy_view(busy: Option<&TextMap<ServerBusyKind>>) -> Option<
    Map<Seq<char>, ServerBusyKind>,
> {
    match busy {
        Some(m) => Some(m@),
        None => None,
    }
}

/// Adds what the server says: the sessions that it lists as busy, or nothing
/// where it could not be reached.
pub fn enrich_live(sessions: Vec<EnrichedSession>, busy: Option<&TextMap<ServerBusyKind>>) -> (r:
    Vec<EnrichedSession>)
    ensures
        r@ == with_live_all(sessions@, busy_view(busy)),
{
    let ghost all = sessions@;
    let mut rest = sessions;
    let mut out: Vec<EnrichedSession> = Vec::new();
    let ghost mut done: int = 0;
    while rest.len() > 0
        invariant
            0 <= done <= all.len(),
            rest@ == all.skip(done),
            out@ == with_live_all(all.take(done), busy_view(busy)),
        decreases rest.len(),
    {
        let s = rest.remove(0);
        let mut t = s;
        match t.base.provider {
            Provider::OpenCode => {
                let status = compute_live(t.base.session_id.as_str(), busy, busy.is_none());
                t.live_ext = Some(LiveExtension { status });
            },
            _ => {},
        }
        assert(t == with_live(s, busy_view(busy)));
        out.push(t);
        proof {
            assert(with_live_all(all.take(done + 1), busy_view(busy)) == with_live_all(
                all.take(done),
                busy_view(busy),
            ).push(t));
            done = done + 1;
        }
    }
    assert(all.take(done) == all);
    out
}

/// Whether the records say that a session has one of the statuses.
pub open spec fn has_static_status(statuses: Seq<StaticStatus>, s: EnrichedSession) -> bool {
    s.static_ext matches Some(e) && statuses.contains(e.status)
}

/// Whether the records say that a session has one of the statuses.
pub fn static_status_predicate(statuses: &Vec<StaticStatus>, session: &EnrichedSession) -> (r: bool)
    ensures
        r == has_static_status(statuses@, *session),
{
    match &session.static_ext {
        Some(e) => {
            let mut i: usize = 0;
            while i < statuses.len()
                invariant
                    i <= statuses.len(),
                    session.static_ext == Some(*e),
                    forall|j: int| 0 <= j < i ==> #[trigger] statuses@[j] != e.status,
                decreases statuses.len() - i,
            {
                if statuses[i] == e.status {
                    assert(statuses@.contains(e.status));
                    return true;
                }
                i += 1;
            }
            false
        },
        None => false,
    }
}

/// Whether the server says that a session has one of the statuses.
pub open spec fn has_live_status(statuses: Seq<LiveStatus>, s: EnrichedSession) -> bool {
    s.live_ext matches Some(e) && statuses.contains(e.status)
}

/// Whether the server says that a session has one of the statuses.
pub fn live_status_predicate(statuses: &Vec<LiveStatus>, session: &EnrichedSession) -> (r: bool)
    ensures
        r == has_live_status(statuses@, *session),
{
    match &session.live_ext {
        Some(e) => {
            let mut i: usize = 0;
            while i < statuses.len()
                invariant
                    i <= statuses.len(),
                    session.live_ext == Some(*e),
                    forall|j: int| 0 <= j < i ==> #[trigger] statuses@[j] != e.status,
                decreases statuses.len() - i,
            {
                if statuses[i] == e.status {
                    assert(statuses@.contains(e.status));
                    return true;
                }
                i += 1;
            }
            false
        },
        None => false,
    }
}

/// What the records say of a session, where they were asked.
pub fn extract_static(session: &EnrichedSession) -> (r: Option<&StaticExtension>)
    ensures
        match r {
            Some(e) => session.static_ext == Some(*e),
            None => session.static_ext is None,
        },
{
    match &session.static_ext {
        Some(e) => Some(e),
        None => None,
    }
}

/// What the server says of a session, where it was asked.
pub fn extract_live(session: &EnrichedSession) -> (r: Option<&LiveExtension>)
    ensures
        match r {
            Some(e) => session.live_ext == Some(*e),
            None => session.live_ext is None,
        },
{
    match &session.live_ext {
        Some(e) => Some(e),
        None => None,
    }
}

/// The records are looked up for sessions of OpenCode only. Gives whose identifier it is.
pub proof fn identifiers_are_of_opencode(found: Seq<EnrichedSession>, k: int) -> (i: int)
    requires
        0 <= k < opencode_ids(found).len(),
    ensures
        0 <= i < found.len(),
        found[i].base.session_id@ == opencode_ids(found)[k],
        found[i].base.provider == Provider::OpenCode,
    decreases found.len(),
{
    let rest = found.drop_last();
    if k < opencode_ids(rest).len() {
        identifiers_are_of_opencode(rest, k)
    } else {
        found.len() - 1
    }
}

/// The records are looked up for every session of OpenCode. Gives where its identifier
/// stands.
pub proof fn sessions_of_opencode_are_identified(found: Seq<EnrichedSession>, i: int) -> (k: int)
    requires
        0 <= i < found.len(),
        found[i].base.provider == Provider::OpenCode,
    ensures
        0 <= k < opencode_ids(found).len(),
        opencode_ids(found)[k] == found[i].base.session_id@,
    decreases found.len(),
{
    let rest = found.drop_last();
    if i < rest.len() {
        sessions_of_opencode_are_identified(rest, i)
    } else {
        opencode_ids(rest).len() as int
    }
}

/// Records change nothing of a session but what they say: the time of its last message
/// and its state. Only a session of OpenCode with a record gets them, from the record
/// under its own identifier.
pub proof fn records_tell_of_their_session(
    s: EnrichedSession,
    meta: Map<Seq<char>, LastMessageMeta>,
)
    ensures
        with_record(s, meta).base == s.base,
        with_record(s, meta).live_ext == s.live_ext,
        s.base.provider != Provider::OpenCode || !meta.dom().contains(s.base.session_id@)
            ==> with_record(s, meta) == s,
        s.base.provider == Provider::OpenCode && meta.dom().contains(s.base.session_id@) ==> {
            let record = meta[s.base.session_id@];
            &&& with_record(s, meta).last_message_ts == Some(record.last_msg_ts)
            &&& with_record(s, meta).static_ext is Some
            &&& with_record(s, meta).static_ext->0.meta == record
            &&& with_record(s, meta).static_ext->0.status == status_of(
                record.last_role@,
                record.last_completed,
                record.parts_total as int,
                record.stuck_tools as int,
            )
        },
{
}

/// The server changes nothing of a session but whether it is at work: a session of
/// OpenCode is where the server lists it, is not where it does not, and where there is
/// no server that is said.
pub proof fn the_server_tells_who_is_at_work(
    s: EnrichedSession,
    busy: Option<Map<Seq<char>, ServerBusyKind>>,
)
    ensures
        with_live(s, busy).base == s.base,
        with_live(s, busy).last_message_ts == s.last_message_ts,
        with_live(s, busy).static_ext == s.static_ext,
        s.base.provider != Provider::OpenCode ==> with_live(s, busy) == s,
        s.base.provider == Provider::OpenCode ==> with_live(s, busy).live_ext is Some,
        s.base.provider == Provider::OpenCode && busy is None ==> with_live(
            s,
            busy,
        ).live_ext->0.status == LiveStatus::ServerUnreachable,
        s.base.provider == Provider::OpenCode && busy is Some && busy->0.dom().contains(
            s.base.session_id@,
        ) ==> with_live(s, busy).live_ext->0.status == LiveStatus::Running,
        s.base.provider == Provider::OpenCode && busy is Some && !busy->0.dom().contains(
            s.base.session_id@,
        ) ==> with_live(s, busy).live_ext->0.status == LiveStatus::Idle,
{
}

/// Sessions are enriched one for one and in their order.
pub proof fn enriching_keeps_the_sessions(
    sessions: Seq<EnrichedSession>,
    meta: Map<Seq<char>, LastMessageMeta>,
    busy: Option<Map<Seq<char>, ServerBusyKind>>,
    i: int,
)
    requires
        0 <= i < sessions.len(),
    ensures
        with_records(sessions, meta).len() == sessions.len(),
        with_live_all(sessions, busy).len() == sessions.len(),
        with_records(sessions, meta)[i].base == sessions[i].base,
        with_live_all(sessions, busy)[i].base == sessions[i].base,
        with_live_all(sessions, busy)[i].static_ext == sessions[i].static_ext,
{
}

/// A session has a status that is asked for only where it has one, and that is asked for.
pub proof fn statuses_are_asked_for(
    s: EnrichedSession,
    statuses: Seq<StaticStatus>,
    live: Seq<LiveStatus>,
)
    ensures
        has_static_status(statuses, s) <==> s.static_ext is Some && exists|i: int|
            0 <= i < statuses.len() && #[trigger] statuses[i] == s.static_ext->0.status,
        has_live_status(live, s) <==> s.live_ext is Some && exists|i: int|
            0 <= i < live.len() && #[trigger] live[i] == s.live_ext->0.status,
{
}

} // verus!
