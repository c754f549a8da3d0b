//! The sessions that are asked for.

use crate::opencode::enrich::{
    LiveExtension, StaticExtension, enrich_live, enrich_static, opencode_ids, opencode_session_ids,
    records_tell_of_their_session, the_server_tells_who_is_at_work, with_live, with_live_all,
    with_record, with_records,
};
use crate::opencode::server_client::{LiveStatus, ServerBusyKind};
use crate::opencode::status::LastMessageMeta;
use crate::order::{Ranking, sorting_sorts, stable_sort, stably_sorted};
use crate::provider::{Provider, Session};
use crate::table::TextMap;
use crate::text::{contains_text, str_eq};
use vstd::prelude::*;

verus! {

/// Which sessions are asked for.
pub struct SessionFilter {
    /// Sessions of this provider only.
    pub session_type: Option<Provider>,
    pub session_id: Option<String>,
    pub project: Option<String>,
    /// Sessions with a message that contains this text.
    pub search: Option<String>,
    /// Sessions that wrote to this file.
    pub file: Option<String>,
    /// Sessions that were active between two times, in seconds.
    pub timespan: Option<(i64, i64)>,
    /// Sessions whose last message lies between two times, in seconds, the
    /// second left out.
    pub last_message_in: Option<(i64, i64)>,
    /// Sessions of sub-agents too.
    pub all: bool,
    /// Sessions that this session started.
    pub children_of: Option<String>,
    /// Ask the records.
    pub static_enrich: bool,
    /// Ask the server.
    pub live_enrich: bool,
}

/// A session, and what records and the server say of it, where they were asked.
#[derive(Clone, Debug)]
pub struct EnrichedSession {
    pub base: Session,
    pub last_message_ts: Option<i64>,
    pub static_ext: Option<StaticExtension>,
    pub live_ext: Option<LiveExtension>,
}

/// Whether a text is the one that is asked for, if any is.
pub open spec fn is_asked(asked: Option<String>, text: Seq<char>) -> bool {
    asked matches Some(t) ==> text == t@
}

/// Whether a session has the provider, the identifier, the project and the time
/// that are asked for.
pub open spec fn has_asked_facts(s: Session, filter: SessionFilter) -> bool {
    &&& filter.session_type matches Some(p) ==> s.provider == p
    &&& is_asked(filter.session_id, s.session_id@)
    &&& is_asked(filter.project, s.project_dir@)
    &&& filter.timespan matches Some((start, end)) ==> s.started_at.secs <= end
        && s.updated_at.secs >= start
}

/// Whether a session is asked for, by what is known of it. A sub-agent is left
/// out, unless all are asked for, or the children of its session, or one session
/// by its identifier.
pub open spec fn matches_primary(s: Session, filter: SessionFilter) -> bool {
    &&& has_asked_facts(s, filter)
    &&& match filter.children_of {
        Some(parent) => s.parent_id matches Some(p) && p@ == parent@,
        None => filter.session_id is Some || filter.all || s.parent_id is None,
    }
}

fn text_is_asked(asked: &Option<String>, text: &String) -> (r: bool)
    ensures
        r == is_asked(*asked, text@),
{
    match asked {
        Some(t) => str_eq(text.as_str(), t.as_str()),
        None => true,
    }
}

/// Whether a session is asked for, by what is known of it.
pub fn matches_primary_filters(s: &Session, filter: &SessionFilter) -> (r: bool)
    ensures
        r == matches_primary(*s, *filter),
{
    let in_time = match filter.timespan {
        Some((start, end)) => s.started_at.secs <= end && s.updated_at.secs >= start,
        None => true,
    };
    let of_type = match filter.session_type {
        Some(p) => s.provider == p,
        None => true,
    };
    let facts = of_type && text_is_asked(&filter.session_id, &s.session_id) && text_is_asked(
        &filter.project,
        &s.project_dir,
    ) && in_time;
    match &filter.children_of {
        Some(parent) => {
            let child = match &s.parent_id {
                Some(p) => str_eq(p.as_str(), parent.as_str()),
                None => false,
            };
            child && facts
        },
        None => facts && (filter.session_id.is_some() || filter.all || s.parent_id.is_none()),
    }
}

/// A session of which neither records nor server have said anything.
pub open spec fn bare(s: Session) -> EnrichedSession {
    EnrichedSession { base: s, last_message_ts: None, static_ext: None, live_ext: None }
}

/// The sessions that are asked for, by what is known of them.
pub open spec fn primary(sessions: Seq<Session>, filter: SessionFilter) -> Seq<EnrichedSession>
    decreases sessions.len(),
{
    if sessions.len() == 0 {
        Seq::empty()
    } else if matches_primary(sessions.last(), filter) {
        primary(sessions.drop_last(), filter).push(bare(sessions.last()))
    } else {
        primary(sessions.drop_last(), filter)
    }
}

/// The sessions for which the answer is yes.
pub open spec fn kept(sessions: Seq<EnrichedSession>, answers: Seq<bool>) -> Seq<EnrichedSession>
    decreases sessions.len(),
{
    if sessions.len() == 0 || answers.len() != sessions.len() {
        Seq::empty()
    } else if answers.last() {
        kept(sessions.drop_last(), answers.drop_last()).push(sessions.last())
    } else {
        kept(sessions.drop_last(), answers.drop_last())
    }
}

/// Whether this is what may be said of a session: its provider is at hand, and
/// it wrote to the file and contains the text that are asked for.
pub open spec fn may_answer<E: Fn(&Session, &String) -> bool, C: Fn(&Session, &String) -> bool>(
    filter: SessionFilter,
    providers: Seq<Provider>,
    edited: E,
    contains_text: C,
    s: &Session,
    answer: bool,
) -> bool {
    if !providers.contains(s.provider) {
        !answer
    } else if answer {
        &&& filter.file matches Some(target) ==> call_ensures(edited, (s, &target), true)
        &&& filter.search matches Some(needle) ==> call_ensures(contains_text, (s, &needle), true)
    } else {
        ||| filter.file matches Some(target) && call_ensures(edited, (s, &target), false)
        ||| filter.search matches Some(needle) && call_ensures(contains_text, (s, &needle), false)
    }
}

fn answer<E: Fn(&Session, &String) -> bool, C: Fn(&Session, &String) -> bool>(
    filter: &SessionFilter,
    providers: &Vec<Provider>,
    edited: &E,
    contains_text: &C,
    s: &Session,
) -> (r: bool)
    requires
        forall|s: &Session, t: &String| call_requires(*edited, (s, t)),
        forall|s: &Session, t: &String| call_requires(*contains_text, (s, t)),
    ensures
        may_answer(*filter, providers@, *edited, *contains_text, s, r),
{
    let mut at_hand = false;
    let mut i: usize = 0;
    while i < providers.len()
        invariant
            i <= providers.len(),
            at_hand <==> exists|j: int| 0 <= j < i && #[trigger] providers@[j] == s.provider,
        decreases providers.len() - i,
    {
        if providers[i] == s.provider {
            at_hand = true;
        }
        i += 1;
    }
    if !at_hand {
        return false;
    }
    match &filter.file {
        Some(target) => {
            if !edited(s, target) {
                return false;
            }
        },
        None => {},
    }
    match &filter.search {
        Some(needle) => {
            if !contains_text(s, needle) {
                return false;
            }
        },
        None => {},
    }
    true
}

/// Whether the last message of a session lies in the time that is asked for.
pub open spec fn last_in(span: Option<(i64, i64)>, s: EnrichedSession) -> bool {
    span matches Some((start, end)) ==> (s.last_message_ts matches Some(t) && start <= t && t < end)
}

/// The sessions whose last message lies in the time that is asked for.
pub open spec fn timely(sessions: Seq<EnrichedSession>, span: Option<(i64, i64)>) -> Seq<
    EnrichedSession,
>
    decreases sessions.len(),
{
    if sessions.len() == 0 {
        sessions
    } else if last_in(span, sessions.last()) {
        timely(sessions.drop_last(), span).push(sessions.last())
    } else {
        timely(sessions.drop_last(), span)
    }
}

/// Whether a predicate says this of each session; without one, all are wanted.
pub open spec fn predicate_says<P: Fn(&EnrichedSession) -> bool>(
    predicate: Option<P>,
    sessions: Seq<EnrichedSession>,
    answers: Seq<bool>,
) -> bool {
    &&& answers.len() == sessions.len()
    &&& forall|i: int|
        0 <= i < answers.len() ==> match predicate {
            Some(p) => call_ensures(p, (&sessions[i],), #[trigger] answers[i]),
            None => answers[i],
        }
}

/// The session that began first comes first.
pub struct ByStart;

impl Ranking<EnrichedSession> for ByStart {
    open spec fn le(a: EnrichedSession, b: EnrichedSession) -> bool {
        a.base.started_at.spec_le(b.base.started_at)
    }

    fn leq(a: &EnrichedSession, b: &EnrichedSession) -> (r: bool) {
        a.base.started_at.le(b.base.started_at)
    }

    proof fn total(a: EnrichedSession, b: EnrichedSession) {
    }

    proof fn transitive(a: EnrichedSession, b: EnrichedSession, c: EnrichedSession) {
    }
}

fn keep_primary(sessions: Vec<Session>, filter: &SessionFilter) -> (r: Vec<EnrichedSession>)
    ensures
        r@ == primary(sessions@, *filter),
{
    let ghost all = sessions@;
    let mut rest = sessions;
    let mut out: Vec<EnrichedSession> = Vec::new();
    let ghost mut done: int = 0;
    while rest.len() > 0
        invariant
            0 <= done <= all.len(),
            rest@ == all.skip(done),
            out@ == primary(all.take(done), *filter),
        decreases rest.len(),
    {
        let s = rest.remove(0);
        assert(all.take(done + 1).drop_last() == all.take(done));
        assert(all.take(done + 1).last() == s);
        if matches_primary_filters(&s, filter) {
            out.push(
                EnrichedSession { base: s, last_message_ts: None, static_ext: None, live_ext: None },
            );
        }
        proof {
            done = done + 1;
        }
    }
    assert(all.take(done) == all);
    out
}

fn keep_timely(sessions: Vec<EnrichedSession>, span: Option<(i64, i64)>) -> (r: Vec<EnrichedSession>)
    ensures
        r@ == timely(sessions@, span),
{
    let ghost all = sessions@;
    let mut rest = sessions;
    let mut out: Vec<EnrichedSession> = Vec::new();
    let ghost mut done: int = 0;
    while rest.len() > 0
        invariant
            0 <= done <= all.len(),
            rest@ == all.skip(done),
            out@ == timely(all.take(done), span),
        decreases rest.len(),
    {
        let s = rest.remove(0);
        assert(all.take(done + 1).drop_last() == all.take(done));
        assert(all.take(done + 1).last() == s);
        let in_time = match span {
            Some((start, end)) => match s.last_message_ts {
                Some(t) => start <= t && t < end,
                None => false,
            },
            None => true,
        };
        if in_time {
            out.push(s);
        }
        proof {
            done = done + 1;
        }
    }
    assert(all.take(done) == all);
    out
}

fn keep_wanted<P: Fn(&EnrichedSession) -> bool>(
    sessions: Vec<EnrichedSession>,
    predicate: &Option<P>,
) -> (r: (Vec<EnrichedSession>, Ghost<Seq<bool>>))
    requires
        predicate matches Some(p) ==> forall|s: &EnrichedSession| call_requires(p, (s,)),
    ensures
        predicate_says(*predicate, sessions@, r.1@),
        r.0@ == kept(sessions@, r.1@),
{
    let ghost all = sessions@;
    let mut rest = sessions;
    let mut out: Vec<EnrichedSession> = Vec::new();
    let ghost mut answers: Seq<bool> = Seq::empty();
    assert(all.skip(0) == all);
    while rest.len() > 0
        invariant
            answers.len() <= all.len(),
            rest@ == all.skip(answers.len() as int),
            out@ == kept(all.take(answers.len() as int), answers),
            predicate matches Some(p) ==> forall|s: &EnrichedSession| call_requires(p, (s,)),
            forall|i: int|
                0 <= i < answers.len() ==> match *predicate {
                    Some(p) => call_ensures(p, (&all[i],), #[trigger] answers[i]),
                    None => answers[i],
                },
        decreases rest.len(),
    {
        let ghost n = answers.len() as int;
        let s = rest.remove(0);
        let yes = match predicate {
            Some(p) => p(&s),
            None => true,
        };
        proof {
            assert(s == all[n]);
            assert(all.take(n + 1).drop_last() == all.take(n));
            assert(all.take(n + 1).last() == s);
            assert(answers.push(yes).drop_last() == answers);
            answers = answers.push(yes);
        }
        if yes {
            out.push(s);
        }
    }
    assert(all.take(answers.len() as int) == all);
    (out, Ghost(answers))
}

/// What was asked along the way: whether each session wrote to the file and
/// contains the text, what the records say, which sessions are wanted then, what
/// the server says, and which are wanted in the end.
pub ghost struct Answers {
    pub kept: Seq<bool>,
    pub records: Result<Map<Seq<char>, LastMessageMeta>, Seq<char>>,
    pub wanted: Seq<bool>,
    pub busy: Result<Option<Map<Seq<char>, ServerBusyKind>>, Seq<char>>,
    pub wanted_live: Seq<bool>,
}

/// The sessions after the answers on file and text.
pub open spec fn after_search(sessions: Seq<Session>, filter: SessionFilter, a: Answers) -> Seq<
    EnrichedSession,
> {
    kept(primary(sessions, filter), a.kept)
}

/// The sessions with what the records say, in the time that is asked for.
pub open spec fn recorded(sessions: Seq<Session>, filter: SessionFilter, a: Answers) -> Seq<
    EnrichedSession,
> {
    let found = after_search(sessions, filter, a);
    timely(
        if filter.static_enrich && a.records is Ok {
            with_records(found, a.records->Ok_0)
        } else {
            found
        },
        filter.last_message_in,
    )
}

/// The sessions that the server is asked about: those that are still wanted.
pub open spec fn after_records(sessions: Seq<Session>, filter: SessionFilter, a: Answers) -> Seq<
    EnrichedSession,
> {
    kept(recorded(sessions, filter, a), a.wanted)
}

/// The sessions with what the server says.
pub open spec fn served(sessions: Seq<Session>, filter: SessionFilter, a: Answers) -> Seq<
    EnrichedSession,
> {
    let found = after_records(sessions, filter, a);
    if filter.live_enrich && a.busy is Ok {
        with_live_all(found, a.busy->Ok_0)
    } else {
        found
    }
}

/// The sessions that are wanted in the end, in the order in which they began.
pub open spec fn after_server(sessions: Seq<Session>, filter: SessionFilter, a: Answers) -> Seq<
    EnrichedSession,
> {
    stably_sorted::<EnrichedSession, ByStart>(kept(served(sessions, filter, a), a.wanted_live))
}

/// Whether records were asked about sessions and said this, from one state of what
/// the asking acts on to another.
pub open spec fn records_say<
    W,
    R: Fn(W, &Vec<String>) -> (W, Result<TextMap<LastMessageMeta>, String>),
>(
    records: R,
    before: W,
    ids: Seq<Seq<char>>,
    after: W,
    said: Result<Map<Seq<char>, LastMessageMeta>, Seq<char>>,
) -> bool {
    exists|v: &Vec<String>, m: Result<TextMap<LastMessageMeta>, String>| #[trigger]
        call_ensures(records, (before, v), (after, m)) && v.deep_view() == ids && said == (
        match m {
            Ok(map) => Ok(map@),
            Err(e) => Err(e@),
        })
}

/// Whether the server was asked about sessions and said this, from one state of
/// what the asking acts on to another.
pub open spec fn server_says<
    W,
    L: Fn(W, &Vec<EnrichedSession>) -> (W, Result<Option<TextMap<ServerBusyKind>>, String>),
>(
    server: L,
    before: W,
    sessions: Seq<EnrichedSession>,
    after: W,
    said: Result<Option<Map<Seq<char>, ServerBusyKind>>, Seq<char>>,
) -> bool {
    exists|v: &Vec<EnrichedSession>, m: Result<Option<TextMap<ServerBusyKind>>, String>| #[trigger]
        call_ensures(server, (before, v), (after, m)) && v@ == sessions && said == (match m {
            Ok(Some(map)) => Ok(Some(map@)),
            Ok(None) => Ok(None),
            Err(e) => Err(e@),
        })
}

/// The sessions that the records are asked about, or why they cannot be: a time of
/// the last message is asked for, and the records are not to be.
pub open spec fn records_asked(filter: SessionFilter, found: Seq<EnrichedSession>) -> Result<
    Seq<Seq<char>>,
    Seq<char>,
> {
    if filter.last_message_in is Some && !filter.static_enrich {
        Err("last_message_in requires static enrichment"@)
    } else if filter.static_enrich {
        Ok(opencode_ids(found))
    } else {
        Ok(Seq::empty())
    }
}

/// The sessions that the records are to be asked about: none where they are not to
/// be asked.
pub fn request_records(filter: &SessionFilter, found: &Vec<EnrichedSession>) -> (r: Result<
    Vec<String>,
    String,
>)
    ensures
        match r {
            Ok(ids) => records_asked(*filter, found@) == Ok::<_, Seq<char>>(ids.deep_view()),
            Err(e) => records_asked(*filter, found@) == Err::<Seq<Seq<char>>, _>(e@),
        },
{
    if filter.last_message_in.is_some() && !filter.static_enrich {
        return Err("last_message_in requires static enrichment".to_owned());
    }
    if filter.static_enrich {
        Ok(opencode_session_ids(found))
    } else {
        let none: Vec<String> = Vec::new();
        assert(none.deep_view() =~= Seq::<Seq<char>>::empty());
        Ok(none)
    }
}

/// An outcome by the sessions it holds, or why there is none.
pub open spec fn outcome_view(r: Result<Vec<EnrichedSession>, String>) -> Result<
    Seq<EnrichedSession>,
    Seq<char>,
> {
    match r {
        Ok(found) => Ok(found@),
        Err(e) => Err(e@),
    }
}

/// Whether a selection went on like this once the records had been asked: the
/// server was asked about the sessions that were still wanted, once, where it was
/// to be, and not else.
pub open spec fn server_follows<
    W,
    L: Fn(W, &Vec<EnrichedSession>) -> (W, Result<Option<TextMap<ServerBusyKind>>, String>),
    P: Fn(&EnrichedSession) -> bool,
    Q: Fn(&EnrichedSession) -> bool,
>(
    sessions: Seq<Session>,
    filter: SessionFilter,
    server: L,
    predicates: (Option<P>, Option<Q>),
    a: Answers,
    between: W,
    after: W,
    outcome: Result<Seq<EnrichedSession>, Seq<char>>,
) -> bool {
    &&& predicate_says(predicates.0, recorded(sessions, filter, a), a.wanted)
    &&& if filter.live_enrich {
        server_says(server, between, after_records(sessions, filter, a), after, a.busy)
    } else {
        after == between && a.busy == Ok::<Option<Map<Seq<char>, ServerBusyKind>>, Seq<char>>(None)
    }
    &&& match a.busy {
        Err(e) => outcome == Err::<Seq<EnrichedSession>, Seq<char>>(e),
        Ok(_) => {
            &&& predicate_says(predicates.1, served(sessions, filter, a), a.wanted_live)
            &&& outcome == Ok::<Seq<EnrichedSession>, Seq<char>>(after_server(sessions, filter, a))
        },
    }
}

/// Whether a selection went like this. The records were asked about the sessions
/// that were found, once, where there are any to ask about, and not else; where
/// that failed, the server was not asked. `between` is the state after the records.
pub open spec fn selection_follows<
    W,
    E: Fn(&Session, &String) -> bool,
    C: Fn(&Session, &String) -> bool,
    R: Fn(W, &Vec<String>) -> (W, Result<TextMap<LastMessageMeta>, String>),
    L: Fn(W, &Vec<EnrichedSession>) -> (W, Result<Option<TextMap<ServerBusyKind>>, String>),
    P: Fn(&EnrichedSession) -> bool,
    Q: Fn(&EnrichedSession) -> bool,
>(
    sessions: Seq<Session>,
    filter: SessionFilter,
    providers: Seq<Provider>,
    doors: (E, C, R, L),
    predicates: (Option<P>, Option<Q>),
    a: Answers,
    before: W,
    between: W,
    after: W,
    outcome: Result<Seq<EnrichedSession>, Seq<char>>,
) -> bool {
    let first = primary(sessions, filter);
    &&& a.kept.len() == first.len()
    &&& forall|i: int|
        0 <= i < first.len() ==> may_answer(
            filter,
            providers,
            doors.0,
            doors.1,
            &(#[trigger] first[i]).base,
            a.kept[i],
        )
    &&& match records_asked(filter, after_search(sessions, filter, a)) {
        Err(e) => after == before && outcome == Err::<Seq<EnrichedSession>, Seq<char>>(e),
        Ok(ids) => {
            &&& if ids.len() > 0 {
                records_say(doors.2, before, ids, between, a.records)
            } else {
                between == before && a.records == Ok::<
                    Map<Seq<char>, LastMessageMeta>,
                    Seq<char>,
                >(Map::empty())
            }
            &&& match a.records {
                Err(e) => after == between && outcome == Err::<Seq<EnrichedSession>, Seq<char>>(e),
                Ok(_) => server_follows(
                    sessions,
                    filter,
                    doors.3,
                    predicates,
                    a,
                    between,
                    after,
                    outcome,
                ),
            }
        },
    }
}

/// Selects the sessions that are asked for, among those that the providers at
/// hand list: by what is known of them; by the file and the text; by what the
/// records say of their last message; by a predicate; by what the server says, and
/// by a second predicate. They come in the order in which they began. Asking the
/// records or the server may fail.
///
/// `world` stands for what asking the records and the server acts on. Each call
/// takes it over from the one before, so that the contract tells which were made:
/// the records are asked at most once, then the server at most once, and neither
/// where it is not to be asked.
pub fn list_filtered<
    W,
    E: Fn(&Session, &String) -> bool,
    C: Fn(&Session, &String) -> bool,
    R: Fn(W, &Vec<String>) -> (W, Result<TextMap<LastMessageMeta>, String>),
    L: Fn(W, &Vec<EnrichedSession>) -> (W, Result<Option<TextMap<ServerBusyKind>>, String>),
    P: Fn(&EnrichedSession) -> bool,
    Q: Fn(&EnrichedSession) -> bool,
>(
    filter: &SessionFilter,
    sessions: Vec<Session>,
    providers: &Vec<Provider>,
    world: W,
    edited: E,
    contains_text: C,
    records: R,
    static_predicate: Option<P>,
    server: L,
    live_predicate: Option<Q>,
) -> (r: (W, Result<Vec<EnrichedSession>, String>))
    requires
        forall|s: &Session, t: &String| call_requires(edited, (s, t)),
        forall|s: &Session, t: &String| call_requires(contains_text, (s, t)),
        forall|w: W, v: &Vec<String>| call_requires(records, (w, v)),
        forall|w: W, v: &Vec<EnrichedSession>| call_requires(server, (w, v)),
        static_predicate matches Some(p) ==> forall|s: &EnrichedSession| call_requires(p, (s,)),
        live_predicate matches Some(p) ==> forall|s: &EnrichedSession| call_requires(p, (s,)),
    ensures
        exists|a: Answers, between: W| #[trigger]
            selection_follows(
                sessions@,
                *filter,
                providers@,
                (edited, contains_text, records, server),
                (static_predicate, live_predicate),
                a,
                world,
                between,
                r.0,
                outcome_view(r.1),
            ),
{
    let ghost doors = (edited, contains_text, records, server);
    let ghost predicates = (static_predicate, live_predicate);
    let ghost mut a = Answers {
        kept: Seq::empty(),
        records: Ok(Map::empty()),
        wanted: Seq::empty(),
        busy: Ok(None),
        wanted_live: Seq::empty(),
    };
    let first = keep_primary(sessions, filter);
    let ghost listed = first@;
    let mut rest = first;
    let mut found: Vec<EnrichedSession> = Vec::new();
    let ghost mut answers: Seq<bool> = Seq::empty();
    assert(listed.skip(0) == listed);
    while rest.len() > 0
        invariant
            answers.len() <= listed.len(),
            rest@ == listed.skip(answers.len() as int),
            found@ == kept(listed.take(answers.len() as int), answers),
            forall|s: &Session, t: &String| call_requires(edited, (s, t)),
            forall|s: &Session, t: &String| call_requires(contains_text, (s, t)),
            forall|i: int|
                0 <= i < answers.len() ==> may_answer(
                    *filter,
                    providers@,
                    edited,
                    contains_text,
                    &(#[trigger] listed[i]).base,
                    answers[i],
                ),
        decreases rest.len(),
    {
        let ghost n = answers.len() as int;
        let s = rest.remove(0);
        let yes = answer(filter, providers, &edited, &contains_text, &s.base);
        proof {
            assert(s == listed[n]);
            assert(listed.take(n + 1).drop_last() == listed.take(n));
            assert(listed.take(n + 1).last() == s);
            assert(answers.push(yes).drop_last() == answers);
            answers = answers.push(yes);
        }
        if yes {
            found.push(s);
        }
    }
    proof {
        assert(listed.take(answers.len() as int) == listed);
        a = Answers { kept: answers, ..a };
        assert(found@ == after_search(sessions@, *filter, a));
    }
    let ids = match request_records(filter, &found) {
        Ok(ids) => ids,
        Err(e) => {
            let r: (W, Result<Vec<EnrichedSession>, String>) = (world, Err(e));
            assert(selection_follows(
                sessions@,
                *filter,
                providers@,
                doors,
                predicates,
                a,
                world,
                r.0,
                r.0,
                outcome_view(r.1),
            ));
            return r;
        },
    };
    assert(ids.deep_view().len() == ids.len());
    let mut now = world;
    if ids.len() > 0 {
        let (after, reply) = records(now, &ids);
        now = after;
        match reply {
            Ok(meta) => {
                proof {
                    a = Answers { records: Ok(meta@), ..a };
                    assert(records_say(records, world, ids.deep_view(), now, a.records));
                }
                found = enrich_static(found, &meta);
            },
            Err(e) => {
                proof {
                    a = Answers { records: Err(e@), ..a };
                    assert(records_say(records, world, ids.deep_view(), now, a.records));
                }
                let r: (W, Result<Vec<EnrichedSession>, String>) = (now, Err(e));
                assert(selection_follows(
                    sessions@,
                    *filter,
                    providers@,
                    doors,
                    predicates,
                    a,
                    world,
                    r.0,
                    r.0,
                    outcome_view(r.1),
                ));
                return r;
            },
        }
    } else if filter.static_enrich {
        proof {
            no_ids_no_change(found@, Map::empty());
        }
    }
    found = keep_timely(found, filter.last_message_in);
    let ghost between = now;
    assert(found@ == recorded(sessions@, *filter, a));
    let (mut found, Ghost(wanted)) = keep_wanted(found, &static_predicate);
    proof {
        a = Answers { wanted, ..a };
    }
    if filter.live_enrich {
        let (after, reply) = server(now, &found);
        now = after;
        match reply {
            Ok(busy) => {
                proof {
                    a = Answers {
                        busy: Ok(
                            match &busy {
                                Some(m) => Some(m@),
                                None => None,
                            },
                        ),
                        ..a
                    };
                    assert(server_says(server, between, found@, now, a.busy));
                }
                let seen = match &busy {
                    Some(m) => Some(m),
                    None => None,
                };
                found = enrich_live(found, seen);
            },
            Err(e) => {
                proof {
                    a = Answers { busy: Err(e@), ..a };
                    assert(server_says(server, between, found@, now, a.busy));
                }
                let r: (W, Result<Vec<EnrichedSession>, String>) = (now, Err(e));
                assert(server_follows(
                    sessions@,
                    *filter,
                    server,
                    predicates,
                    a,
                    between,
                    r.0,
                    outcome_view(r.1),
                ));
                assert(selection_follows(
                    sessions@,
                    *filter,
                    providers@,
                    doors,
                    predicates,
                    a,
                    world,
                    between,
                    r.0,
                    outcome_view(r.1),
                ));
                return r;
            },
        }
    }
    assert(found@ == served(sessions@, *filter, a));
    let (found, Ghost(wanted)) = keep_wanted(found, &live_predicate);
    proof {
        a = Answers { wanted_live: wanted, ..a };
    }
    let r: (W, Result<Vec<EnrichedSession>, String>) = (
        now,
        Ok(stable_sort::<EnrichedSession, ByStart>(found)),
    );
    assert(server_follows(
        sessions@,
        *filter,
        server,
        predicates,
        a,
        between,
        r.0,
        outcome_view(r.1),
    ));
    assert(selection_follows(
        sessions@,
        *filter,
        providers@,
        doors,
        predicates,
        a,
        world,
        between,
        r.0,
        outcome_view(r.1),
    ));
    r
}

proof fn no_ids_no_change(sessions: Seq<EnrichedSession>, meta: Map<Seq<char>, LastMessageMeta>)
    requires
        opencode_ids(sessions).len() == 0,
    ensures
        with_records(sessions, meta) == sessions,
    decreases sessions.len(),
{
    if sessions.len() > 0 {
        no_ids_no_change(sessions.drop_last(), meta);
        assert(with_records(sessions, meta) =~= with_records(sessions.drop_last(), meta).push(
            sessions.last(),
        ));
        assert(sessions =~= sessions.drop_last().push(sessions.last()));
    } else {
        assert(with_records(sessions, meta) =~= sessions);
    }
}

/// A session passes the first selection exactly where it has the provider, the
/// identifier and the project directory that are asked for, was active in the time that
/// is asked for, and is a child of the session that is asked for, or else, unless one
/// session or all are asked for, nobody's child.
pub proof fn sessions_pass_by_what_they_are(s: Session, filter: SessionFilter)
    ensures
        matches_primary(s, filter) <==> {
            &&& filter.project is Some ==> s.project_dir@ == filter.project->0@
            &&& filter.session_id is Some ==> s.session_id@ == filter.session_id->0@
            &&& filter.session_type is Some ==> s.provider == filter.session_type->0
            &&& filter.timespan matches Some((from, to)) ==> s.updated_at.secs >= from
                && s.started_at.secs <= to
            &&& filter.children_of is Some ==> s.parent_id is Some && s.parent_id->0@
                == filter.children_of->0@
            &&& filter.children_of is None && filter.session_id is None && !filter.all
                ==> s.parent_id is None
        },
{
}

proof fn kept_has_a_place(sessions: Seq<EnrichedSession>, answers: Seq<bool>, i: int) -> (k: int)
    requires
        answers.len() == sessions.len(),
        0 <= i < kept(sessions, answers).len(),
    ensures
        0 <= k < sessions.len(),
        answers[k],
        kept(sessions, answers)[i] == sessions[k],
    decreases sessions.len(),
{
    let rest = sessions.drop_last();
    let before = answers.drop_last();
    if i < kept(rest, before).len() {
        kept_has_a_place(rest, before, i)
    } else {
        sessions.len() - 1
    }
}

proof fn answered_are_kept(sessions: Seq<EnrichedSession>, answers: Seq<bool>, k: int) -> (i: int)
    requires
        answers.len() == sessions.len(),
        0 <= k < sessions.len(),
        answers[k],
    ensures
        0 <= i < kept(sessions, answers).len(),
        kept(sessions, answers)[i] == sessions[k],
    decreases sessions.len(),
{
    let rest = sessions.drop_last();
    let before = answers.drop_last();
    if k < rest.len() {
        answered_are_kept(rest, before, k)
    } else {
        kept(rest, before).len() as int
    }
}

proof fn timely_has_a_place(sessions: Seq<EnrichedSession>, span: Option<(i64, i64)>, i: int) -> (k:
    int)
    requires
        0 <= i < timely(sessions, span).len(),
    ensures
        0 <= k < sessions.len(),
        timely(sessions, span)[i] == sessions[k],
        span matches Some((start, end)) ==> sessions[k].last_message_ts is Some && start
            <= sessions[k].last_message_ts->0 < end,
    decreases sessions.len(),
{
    let rest = sessions.drop_last();
    if i < timely(rest, span).len() {
        timely_has_a_place(rest, span, i)
    } else {
        sessions.len() - 1
    }
}

proof fn timely_are_listed(sessions: Seq<EnrichedSession>, span: Option<(i64, i64)>, k: int) -> (i:
    int)
    requires
        0 <= k < sessions.len(),
        span matches Some((start, end)) ==> sessions[k].last_message_ts is Some && start
            <= sessions[k].last_message_ts->0 < end,
    ensures
        0 <= i < timely(sessions, span).len(),
        timely(sessions, span)[i] == sessions[k],
    decreases sessions.len(),
{
    let rest = sessions.drop_last();
    if k < rest.len() {
        timely_are_listed(rest, span, k)
    } else {
        timely(rest, span).len() as int
    }
}

proof fn primary_has_a_place(sessions: Seq<Session>, filter: SessionFilter, i: int) -> (k: int)
    requires
        0 <= i < primary(sessions, filter).len(),
    ensures
        0 <= k < sessions.len(),
        matches_primary(sessions[k], filter),
        primary(sessions, filter)[i] == bare(sessions[k]),
    decreases sessions.len(),
{
    let rest = sessions.drop_last();
    if i < primary(rest, filter).len() {
        primary_has_a_place(rest, filter, i)
    } else {
        sessions.len() - 1
    }
}

proof fn matching_are_listed(sessions: Seq<Session>, filter: SessionFilter, k: int) -> (i: int)
    requires
        0 <= k < sessions.len(),
        matches_primary(sessions[k], filter),
    ensures
        0 <= i < primary(sessions, filter).len(),
        primary(sessions, filter)[i].base == sessions[k],
    decreases sessions.len(),
{
    let rest = sessions.drop_last();
    if k < rest.len() {
        matching_are_listed(rest, filter, k)
    } else {
        primary(rest, filter).len() as int
    }
}

proof fn sorting_keeps_sessions(sessions: Seq<EnrichedSession>)
    ensures
        stably_sorted::<EnrichedSession, ByStart>(sessions).len() == sessions.len(),
        forall|s: EnrichedSession| #[trigger]
            stably_sorted::<EnrichedSession, ByStart>(sessions).contains(s) <==> sessions.contains(
                s,
            ),
        forall|i: int, j: int|
            0 <= i < j < sessions.len() ==> (#[trigger] stably_sorted::<EnrichedSession, ByStart>(
                sessions,
            )[i]).base.started_at.spec_le(
                (#[trigger] stably_sorted::<EnrichedSession, ByStart>(
                    sessions,
                )[j]).base.started_at,
            ),
{
    let r = stably_sorted::<EnrichedSession, ByStart>(sessions);
    sorting_sorts::<EnrichedSession, ByStart>(sessions);
    r.to_multiset_ensures();
    sessions.to_multiset_ensures();
    assert forall|s: EnrichedSession| #[trigger] r.contains(s) <==> sessions.contains(s) by {
        assert(r.contains(s) <==> r.to_multiset().count(s) > 0);
        assert(sessions.contains(s) <==> sessions.to_multiset().count(s) > 0);
    }
    assert forall|i: int, j: int| 0 <= i < j < sessions.len() implies (
    #[trigger] r[i]).base.started_at.spec_le((#[trigger] r[j]).base.started_at) by {
        assert(ByStart::le(r[i], r[j]));
    }
}

/// Every session that is listed is one of those given, and is as it was asked for: of
/// the project, the provider, the identifier, the time and the parent asked for, of one
/// of the providers, with the file written and the text held that are asked for, with
/// its last message in the time asked for, and wanted by both predicates. Gives which of
/// the sessions it is.
pub proof fn listed_sessions_are_as_asked<
    W,
    E: Fn(&Session, &String) -> bool,
    C: Fn(&Session, &String) -> bool,
    R: Fn(W, &Vec<String>) -> (W, Result<TextMap<LastMessageMeta>, String>),
    L: Fn(W, &Vec<EnrichedSession>) -> (W, Result<Option<TextMap<ServerBusyKind>>, String>),
    P: Fn(&EnrichedSession) -> bool,
    Q: Fn(&EnrichedSession) -> bool,
>(
    sessions: Seq<Session>,
    filter: SessionFilter,
    providers: Seq<Provider>,
    doors: (E, C, R, L),
    predicates: (Option<P>, Option<Q>),
    a: Answers,
    before: W,
    between: W,
    after: W,
    found: Seq<EnrichedSession>,
    i: int,
) -> (j: int)
    requires
        selection_follows(
            sessions,
            filter,
            providers,
            doors,
            predicates,
            a,
            before,
            between,
            after,
            Ok(found),
        ),
        0 <= i < found.len(),
    ensures
        0 <= j < sessions.len(),
        found[i].base == sessions[j],
        filter.project matches Some(p) ==> found[i].base.project_dir@ == p@,
        filter.session_id matches Some(id) ==> found[i].base.session_id@ == id@,
        filter.session_type matches Some(t) ==> found[i].base.provider == t,
        filter.timespan matches Some((from, to)) ==> found[i].base.updated_at.secs >= from
            && found[i].base.started_at.secs <= to,
        filter.children_of matches Some(p) ==> found[i].base.parent_id is Some
            && found[i].base.parent_id->0@ == p@,
        filter.children_of is None && filter.session_id is None && !filter.all
            ==> found[i].base.parent_id is None,
        providers.contains(found[i].base.provider),
        filter.file matches Some(target) ==> call_ensures(doors.0, (&sessions[j], &target), true),
        filter.search matches Some(needle) ==> call_ensures(doors.1, (&sessions[j], &needle), true),
        filter.last_message_in matches Some((from, to)) ==> found[i].last_message_ts is Some && from
            <= found[i].last_message_ts->0 < to,
        predicates.0 matches Some(p) ==> exists|e: EnrichedSession|
            e.base == sessions[j] && #[trigger] call_ensures(p, (&e,), true),
        predicates.1 matches Some(q) ==> call_ensures(q, (&found[i],), true),
        !filter.static_enrich ==> found[i].static_ext is None && found[i].last_message_ts is None,
        !filter.live_enrich ==> found[i].live_ext is None,
        forall|k: int|
            i < k < found.len() ==> found[i].base.started_at.spec_le(
                (#[trigger] found[k]).base.started_at,
            ),
{
    let first = primary(sessions, filter);
    let searched = after_search(sessions, filter, a);
    let told = if filter.static_enrich && a.records is Ok {
        with_records(searched, a.records->Ok_0)
    } else {
        searched
    };
    let timed = recorded(sessions, filter, a);
    let wanted = after_records(sessions, filter, a);
    let live = served(sessions, filter, a);
    let last = kept(live, a.wanted_live);
    sorting_keeps_sessions(last);
    assert(found.contains(found[i]));
    assert(last.contains(found[i]));
    let k5 = choose|k: int| 0 <= k < last.len() && last[k] == found[i];
    let k4 = kept_has_a_place(live, a.wanted_live, k5);
    let k3 = kept_has_a_place(timed, a.wanted, k4);
    let k2 = timely_has_a_place(told, filter.last_message_in, k3);
    let k1 = kept_has_a_place(first, a.kept, k2);
    let j = primary_has_a_place(sessions, filter, k1);
    assert(told[k2].base == searched[k2].base);
    assert(told[k2].live_ext == searched[k2].live_ext);
    assert(timed[k3].base == sessions[j]);
    assert(predicates.0 matches Some(p) ==> call_ensures(p, (&timed[k3],), a.wanted[k3]));
    assert(live[k4].base == wanted[k4].base);
    assert(live[k4].last_message_ts == wanted[k4].last_message_ts);
    assert(may_answer(filter, providers, doors.0, doors.1, &first[k1].base, a.kept[k1]));
    sessions_pass_by_what_they_are(sessions[j], filter);
    j
}

/// No session is left out that is as it was asked for, where neither a file, a text, a
/// time of the last message nor a predicate is asked about. Gives where it is listed.
pub proof fn sessions_as_asked_are_listed<
    W,
    E: Fn(&Session, &String) -> bool,
    C: Fn(&Session, &String) -> bool,
    R: Fn(W, &Vec<String>) -> (W, Result<TextMap<LastMessageMeta>, String>),
    L: Fn(W, &Vec<EnrichedSession>) -> (W, Result<Option<TextMap<ServerBusyKind>>, String>),
    P: Fn(&EnrichedSession) -> bool,
    Q: Fn(&EnrichedSession) -> bool,
>(
    sessions: Seq<Session>,
    filter: SessionFilter,
    providers: Seq<Provider>,
    doors: (E, C, R, L),
    predicates: (Option<P>, Option<Q>),
    a: Answers,
    before: W,
    between: W,
    after: W,
    found: Seq<EnrichedSession>,
    j: int,
) -> (i: int)
    requires
        selection_follows(
            sessions,
            filter,
            providers,
            doors,
            predicates,
            a,
            before,
            between,
            after,
            Ok(found),
        ),
        0 <= j < sessions.len(),
        providers.contains(sessions[j].provider),
        filter.file is None,
        filter.search is None,
        filter.last_message_in is None,
        predicates.0 is None,
        predicates.1 is None,
        filter.project matches Some(p) ==> sessions[j].project_dir@ == p@,
        filter.session_id matches Some(id) ==> sessions[j].session_id@ == id@,
        filter.session_type matches Some(t) ==> sessions[j].provider == t,
        filter.timespan matches Some((from, to)) ==> sessions[j].updated_at.secs >= from
            && sessions[j].started_at.secs <= to,
        filter.children_of matches Some(p) ==> sessions[j].parent_id is Some
            && sessions[j].parent_id->0@ == p@,
        filter.children_of is None ==> filter.session_id is Some || filter.all
            || sessions[j].parent_id is None,
    ensures
        0 <= i < found.len(),
        found[i].base == sessions[j],
{
    sessions_pass_by_what_they_are(sessions[j], filter);
    let first = primary(sessions, filter);
    let searched = after_search(sessions, filter, a);
    let told = if filter.static_enrich && a.records is Ok {
        with_records(searched, a.records->Ok_0)
    } else {
        searched
    };
    let timed = recorded(sessions, filter, a);
    let wanted = after_records(sessions, filter, a);
    let live = served(sessions, filter, a);
    let last = kept(live, a.wanted_live);
    let k1 = matching_are_listed(sessions, filter, j);
    assert(may_answer(filter, providers, doors.0, doors.1, &first[k1].base, a.kept[k1]));
    let k2 = answered_are_kept(first, a.kept, k1);
    assert(told[k2].base == searched[k2].base);
    let k3 = timely_are_listed(told, filter.last_message_in, k2);
    assert(a.wanted[k3]);
    let k4 = answered_are_kept(timed, a.wanted, k3);
    assert(live[k4].base == wanted[k4].base);
    assert(a.wanted_live[k4]);
    let k5 = answered_are_kept(live, a.wanted_live, k4);
    sorting_keeps_sessions(last);
    assert(last.contains(last[k5]));
    assert(found.contains(last[k5]));
    choose|i: int| 0 <= i < found.len() && found[i] == last[k5]
}

/// The records are asked only where that is wanted, about the sessions of OpenCode that
/// are still listed; a time of the last message cannot be asked for without them.
pub proof fn records_are_asked_where_wanted(filter: SessionFilter, found: Seq<EnrichedSession>)
    ensures
        records_asked(filter, found) is Err <==> filter.last_message_in is Some
            && !filter.static_enrich,
        records_asked(filter, found) matches Ok(ids) ==> ids == if filter.static_enrich {
            opencode_ids(found)
        } else {
            Seq::<Seq<char>>::empty()
        },
{
}

/// A listed session of OpenCode tells its state where the records were asked and know it, and
/// whether it is at work where the server was asked.
pub proof fn listed_sessions_tell_what_was_asked<
    W,
    E: Fn(&Session, &String) -> bool,
    C: Fn(&Session, &String) -> bool,
    R: Fn(W, &Vec<String>) -> (W, Result<TextMap<LastMessageMeta>, String>),
    L: Fn(W, &Vec<EnrichedSession>) -> (W, Result<Option<TextMap<ServerBusyKind>>, String>),
    P: Fn(&EnrichedSession) -> bool,
    Q: Fn(&EnrichedSession) -> bool,
>(
    sessions: Seq<Session>,
    filter: SessionFilter,
    providers: Seq<Provider>,
    doors: (E, C, R, L),
    predicates: (Option<P>, Option<Q>),
    a: Answers,
    before: W,
    between: W,
    after: W,
    found: Seq<EnrichedSession>,
    i: int,
)
    requires
        selection_follows(
            sessions,
            filter,
            providers,
            doors,
            predicates,
            a,
            before,
            between,
            after,
            Ok(found),
        ),
        0 <= i < found.len(),
        found[i].base.provider == Provider::OpenCode,
    ensures
        filter.static_enrich && (a.records matches Ok(known) && known.dom().contains(
            found[i].base.session_id@,
        )) ==> {
            let meta = a.records->Ok_0[found[i].base.session_id@];
            &&& found[i].last_message_ts == Some(meta.last_msg_ts)
            &&& found[i].static_ext is Some
            &&& found[i].static_ext->0.meta == meta
        },
        filter.live_enrich ==> {
            &&& a.busy is Ok
            &&& found[i].live_ext is Some
            &&& a.busy->Ok_0 is None <==> found[i].live_ext->0.status
                == LiveStatus::ServerUnreachable
            &&& (a.busy->Ok_0 matches Some(busy) ==> (busy.dom().contains(
                found[i].base.session_id@,
            ) <==> found[i].live_ext->0.status == LiveStatus::Running))
        },
{
    let first = primary(sessions, filter);
    let searched = after_search(sessions, filter, a);
    let told = if filter.static_enrich && a.records is Ok {
        with_records(searched, a.records->Ok_0)
    } else {
        searched
    };
    let timed = recorded(sessions, filter, a);
    let wanted = after_records(sessions, filter, a);
    let live = served(sessions, filter, a);
    let last = kept(live, a.wanted_live);
    sorting_keeps_sessions(last);
    assert(found.contains(found[i]));
    assert(last.contains(found[i]));
    let k5 = choose|k: int| 0 <= k < last.len() && last[k] == found[i];
    let k4 = kept_has_a_place(live, a.wanted_live, k5);
    let k3 = kept_has_a_place(timed, a.wanted, k4);
    let k2 = timely_has_a_place(told, filter.last_message_in, k3);
    assert(live[k4].base == wanted[k4].base);
    if filter.live_enrich {
        the_server_tells_who_is_at_work(wanted[k4], a.busy->Ok_0);
        assert(live[k4] == with_live(wanted[k4], a.busy->Ok_0));
    }
    if filter.static_enrich && a.records is Ok {
        records_tell_of_their_session(searched[k2], a.records->Ok_0);
        assert(told[k2] == with_record(searched[k2], a.records->Ok_0));
    }
}

} // verus!
