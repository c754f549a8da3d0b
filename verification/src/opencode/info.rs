//! All that is to be said of one session.

use crate::opencode::sessions::{SessionRow, ms_to_datetime};
use crate::opencode::status::{LastMessageMeta, StaticStatus, classify_static, status_of};
use crate::provider::Provider;
use crate::time::{Timestamp, instant_of_millis, millis_in_calendar, millis_round_trip};
use vstd::prelude::*;

verus! {

/// All that is to be said of one session.
#[derive(Clone, Debug)]
pub struct SessionDetailInfo {
    pub session_id: String,
    pub provider: Provider,
    pub project_dir: Option<String>,
    pub title: Option<String>,
    pub started_at: Option<Timestamp>,
    pub last_updated_at: Option<Timestamp>,
    pub message_count: usize,
    pub tool_call_count: usize,
    pub static_status: Option<StaticStatus>,
    /// Whether the last answer failed or was broken off.
    pub aborted: bool,
    pub parent_session_id: Option<String>,
    pub agent: Option<String>,
    pub model: Option<String>,
}

/// What a session is waiting for, given its last message and whether that has an
/// error: an answer with an error is not complete.
pub open spec fn status_with_error(meta: LastMessageMeta, errored: bool) -> StaticStatus {
    status_of(
        meta.last_role@,
        meta.last_completed && !errored,
        meta.parts_total as int,
        meta.stuck_tools as int,
    )
}

/// What a session is waiting for, given its last message and whether that has an
/// error.
pub fn classify_with_error(meta: &LastMessageMeta, errored: bool) -> (r: StaticStatus)
    ensures
        r == status_with_error(*meta, errored),
{
    let status = classify_static(meta);
    if !errored || status != StaticStatus::Completed {
        return status;
    }
    proof {
        reveal_strlit("assistant");
        reveal_strlit("user");
        assert("assistant"@.len() != "user"@.len());
    }
    if meta.parts_total == 0 {
        StaticStatus::AssistantEmpty
    } else if meta.stuck_tools > 0 {
        StaticStatus::AssistantToolStuck
    } else {
        StaticStatus::AssistantPartial
    }
}

/// Whether the last answer failed or was broken off: it has an error, or a tool
/// that never answered, or it holds nothing and is not complete. A session that
/// is complete or waits for an answer was not broken off.
pub open spec fn broken_off(
    status: StaticStatus,
    completed: bool,
    stuck_tools: int,
    errored: bool,
) -> bool {
    status != StaticStatus::Completed && status != StaticStatus::UserPending && (errored
        || stuck_tools > 0 || (status == StaticStatus::AssistantEmpty && !completed))
}

/// Whether the last answer failed or was broken off. `errored` says whether it
/// has an error.
pub fn is_aborted(status: StaticStatus, meta: &LastMessageMeta, errored: bool) -> (r: bool)
    ensures
        r == broken_off(status, meta.last_completed, meta.stuck_tools as int, errored),
{
    match status {
        StaticStatus::Completed | StaticStatus::UserPending => false,
        _ => errored || meta.stuck_tools > 0 || (status == StaticStatus::AssistantEmpty
            && !meta.last_completed),
    }
}

/// An answer with an error counts as broken off, complete or not.
pub proof fn answers_with_errors_are_broken_off(meta: LastMessageMeta)
    requires
        meta.last_role@ == "assistant"@,
    ensures
        broken_off(
            status_with_error(meta, true),
            meta.last_completed,
            meta.stuck_tools as int,
            true,
        ),
{
    reveal_strlit("assistant");
    reveal_strlit("user");
    assert("assistant"@.len() != "user"@.len());
}

/// A text, where it is not empty.
pub open spec fn if_filled(s: Seq<char>) -> Option<Seq<char>> {
    if s.len() == 0 {
        None
    } else {
        Some(s)
    }
}

/// A text, where it is not empty.
pub fn nullable_string(s: String) -> (r: Option<String>)
    ensures
        r.deep_view() == if_filled(s@),
        r matches Some(t) ==> t == s,
{
    if s.as_str().is_empty() {
        None
    } else {
        Some(s)
    }
}

/// What the last answer of a session says of its agent and its model. Provider
/// and model may stand in the message itself or in its member `model`.
#[derive(Clone, Debug)]
pub struct AssistantAttrs {
    pub agent: Option<String>,
    pub provider_flat: Option<String>,
    pub model_flat: Option<String>,
    pub provider_nested: Option<String>,
    pub model_nested: Option<String>,
}

/// The first of two that is there.
pub open spec fn either(a: Option<Seq<char>>, b: Option<Seq<char>>) -> Option<Seq<char>> {
    if a is Some {
        a
    } else {
        b
    }
}

/// Provider and model as one text, or the one that is known.
pub open spec fn model_label(provider: Option<Seq<char>>, model: Option<Seq<char>>) -> Option<
    Seq<char>,
> {
    match (provider, model) {
        (Some(p), Some(m)) => Some(p + "/"@ + m),
        (Some(p), None) => Some(p),
        (None, m) => m,
    }
}

/// The model that the last answer of a session names.
pub open spec fn attrs_model(a: AssistantAttrs) -> Option<Seq<char>> {
    model_label(
        either(a.provider_flat.deep_view(), a.provider_nested.deep_view()),
        either(a.model_flat.deep_view(), a.model_nested.deep_view()),
    )
}

/// Provider and model as one text, or the one that is known.
pub fn model_text(provider: Option<String>, model: Option<String>) -> (r: Option<String>)
    ensures
        r.deep_view() == model_label(provider.deep_view(), model.deep_view()),
{
    match provider {
        Some(p) => match model {
            Some(m) => {
                let mut r = p;
                r.append("/");
                r.append(m.as_str());
                Some(r)
            },
            None => Some(p),
        },
        None => model,
    }
}

fn either_of(a: Option<String>, b: Option<String>) -> (r: Option<String>)
    ensures
        r.deep_view() == either(a.deep_view(), b.deep_view()),
{
    if a.is_some() {
        a
    } else {
        b
    }
}

fn count_of(n: i64) -> (r: usize)
    ensures
        n <= 0 ==> r == 0,
        0 < n <= usize::MAX ==> r == n,
        n > usize::MAX ==> r == usize::MAX,
{
    if n <= 0 {
        0
    } else if n as u64 <= usize::MAX as u64 {
        n as usize
    } else {
        usize::MAX
    }
}

/// A text that may be missing, as an empty text.
pub open spec fn text_or_nothing(s: Option<String>) -> Seq<char> {
    match s {
        Some(t) => t@,
        None => Seq::empty(),
    }
}

/// A count that the database gives.
pub open spec fn counted(n: i64) -> int {
    if n > 0 {
        n as int
    } else {
        0
    }
}

/// Whether a time is the one given in milliseconds. Where the calendar has no such
/// time, it is the time of the call.
pub open spec fn is_time_of(t: Option<Timestamp>, ms: int) -> bool {
    t matches Some(t) && (millis_in_calendar(ms) ==> t == instant_of_millis(ms))
}

/// Whether an account of a session says what its row, its counts, its last message
/// and its last answer say.
pub open spec fn describes(
    d: SessionDetailInfo,
    row: SessionRow,
    messages: i64,
    tool_calls: i64,
    last: Option<(LastMessageMeta, bool)>,
    attrs: Option<AssistantAttrs>,
) -> bool {
    &&& d.session_id == row.id
    &&& d.provider == Provider::OpenCode
    &&& d.parent_session_id == row.parent_id
    &&& d.project_dir.deep_view() == if_filled(text_or_nothing(row.directory))
    &&& d.title.deep_view() == if_filled(text_or_nothing(row.title))
    &&& is_time_of(d.started_at, row.created as int)
    &&& if row.updated > 0 {
        is_time_of(d.last_updated_at, row.updated as int)
    } else {
        match last {
            Some((meta, _)) => is_time_of(d.last_updated_at, meta.last_msg_ts * 1000),
            None => d.last_updated_at is None,
        }
    }
    &&& d.message_count == counted(messages)
    &&& d.tool_call_count == counted(tool_calls)
    &&& match last {
        Some((meta, errored)) => d.static_status == Some(status_with_error(meta, errored))
            && d.aborted == broken_off(
            status_with_error(meta, errored),
            meta.last_completed,
            meta.stuck_tools as int,
            errored,
        ),
        None => d.static_status is None && !d.aborted,
    }
    &&& d.agent.deep_view() == (match attrs {
        Some(a) => a.agent.deep_view(),
        None => None,
    })
    &&& d.model.deep_view() == (match attrs {
        Some(a) => attrs_model(a),
        None => None,
    })
}

/// Whether the counts fit a machine word and the time of the last message can be
/// given in milliseconds.
pub open spec fn fits(messages: i64, tool_calls: i64, last: Option<(LastMessageMeta, bool)>) -> bool {
    &&& messages <= usize::MAX
    &&& tool_calls <= usize::MAX
    &&& last matches Some((meta, _)) ==> i64::MIN <= meta.last_msg_ts * 1000 <= i64::MAX
}

/// All that is to be said of one session, given its row, how many messages and
/// tool calls it has, its last message with whether that has an error, and what
/// its last answer says of agent and model.
pub fn session_detail(
    row: SessionRow,
    messages: i64,
    tool_calls: i64,
    last: Option<(LastMessageMeta, bool)>,
    attrs: Option<AssistantAttrs>,
) -> (r: SessionDetailInfo)
    requires
        fits(messages, tool_calls, last),
    ensures
        describes(r, row, messages, tool_calls, last, attrs),
{
    let static_status = match &last {
        Some((meta, errored)) => Some(classify_with_error(meta, *errored)),
        None => None,
    };
    let aborted = match &last {
        Some((meta, errored)) => is_aborted(
            classify_with_error(meta, *errored),
            meta,
            *errored,
        ),
        None => false,
    };
    let last_updated_at = if row.updated > 0 {
        Some(ms_to_datetime(row.updated))
    } else {
        match &last {
            Some((meta, _)) => Some(ms_to_datetime(meta.last_msg_ts * 1000)),
            None => None,
        }
    };
    let (agent, model) = match attrs {
        Some(a) => (
            a.agent,
            model_text(
                either_of(a.provider_flat, a.provider_nested),
                either_of(a.model_flat, a.model_nested),
            ),
        ),
        None => (None, None),
    };
    SessionDetailInfo {
        session_id: row.id,
        provider: Provider::OpenCode,
        project_dir: nullable_string(
            match row.directory {
                Some(d) => d,
                None => String::new(),
            },
        ),
        title: nullable_string(
            match row.title {
                Some(t) => t,
                None => String::new(),
            },
        ),
        started_at: Some(ms_to_datetime(row.created)),
        last_updated_at,
        message_count: count_of(messages),
        tool_call_count: count_of(tool_calls),
        static_status,
        aborted,
        parent_session_id: row.parent_id,
        agent,
        model,
    }
}

/// All that is to be said of a session that the database may not have.
pub fn fetch_info(
    session_id: &str,
    row: Option<SessionRow>,
    messages: i64,
    tool_calls: i64,
    last: Option<(LastMessageMeta, bool)>,
    attrs: Option<AssistantAttrs>,
) -> (r: Result<SessionDetailInfo, String>)
    requires
        fits(messages, tool_calls, last),
    ensures
        match row {
            Some(row) => r matches Ok(d) && describes(d, row, messages, tool_calls, last, attrs),
            None => r matches Err(e) && e@ == "session not found: "@ + session_id@,
        },
{
    match row {
        Some(row) => Ok(session_detail(row, messages, tool_calls, last, attrs)),
        None => {
            let mut e = "session not found: ".to_owned();
            e.append(session_id);
            Err(e)
        },
    }
}

/// A model is shown with its service in front, where both are known.
pub proof fn models_are_shown_with_their_service(p: Seq<char>, m: Seq<char>)
    ensures
        model_label(Some(p), Some(m)) == Some(p + seq!['/'] + m),
        model_label(Some(p), None) == Some(p),
        model_label(None, Some(m)) == Some(m),
        model_label(None, None) is None,
{
    reveal_strlit("/");
    assert("/"@ =~= seq!['/']);
}

/// What an answer says of its model at its own place counts before what it says further in.
pub proof fn flat_names_count_first(a: AssistantAttrs)
    ensures
        a.provider_flat matches Some(p) ==> (a.model_flat matches Some(m) ==> attrs_model(a) == Some(
            p@ + seq!['/'] + m@,
        )),
        a.provider_flat is None ==> (a.model_flat is None ==> (a.provider_nested matches Some(p)
            ==> (a.model_nested matches Some(m) ==> attrs_model(a) == Some(
            p@ + seq!['/'] + m@,
        )))),
{
    reveal_strlit("/");
    assert("/"@ =~= seq!['/']);
}

/// What is told of a session is of that session: its row, its counts, its last message and
/// its last answer.
pub proof fn details_are_of_the_session(
    d: SessionDetailInfo,
    row: SessionRow,
    messages: i64,
    tool_calls: i64,
    last: Option<(LastMessageMeta, bool)>,
    attrs: Option<AssistantAttrs>,
)
    requires
        describes(d, row, messages, tool_calls, last, attrs),
    ensures
        d.session_id == row.id,
        d.provider == Provider::OpenCode,
        d.parent_session_id == row.parent_id,
        messages >= 0 ==> d.message_count == messages,
        tool_calls >= 0 ==> d.tool_call_count == tool_calls,
        row.directory matches Some(dir) ==> (dir@.len() > 0 ==> d.project_dir is Some
            && d.project_dir->0@ == dir@),
        row.title matches Some(t) ==> (t@.len() > 0 ==> d.title is Some && d.title->0@ == t@),
        row.directory is None ==> d.project_dir is None,
        row.title is None ==> d.title is None,
        0 <= row.created <= 8_210_266_876_799_999 ==> d.started_at is Some
            && d.started_at->0.spec_millis() == row.created,
        0 < row.updated <= 8_210_266_876_799_999 ==> d.last_updated_at is Some
            && d.last_updated_at->0.spec_millis() == row.updated,
        last is None ==> d.static_status is None && !d.aborted,
        last matches Some((meta, errored)) ==> {
            &&& d.static_status is Some
            &&& meta.last_role@ == "assistant"@ && meta.last_completed && !errored
                ==> d.static_status == Some(StaticStatus::Completed) && !d.aborted
            &&& meta.last_role@ == "user"@ ==> d.static_status == Some(StaticStatus::UserPending)
                && !d.aborted
            &&& meta.last_role@ == "assistant"@ && errored ==> d.static_status != Some(
                StaticStatus::Completed,
            ) && d.aborted
        },
        attrs is None ==> d.agent is None && d.model is None,
        attrs matches Some(a) ==> (a.agent matches Some(agent) ==> d.agent is Some && d.agent->0@
            == agent@),
        attrs matches Some(a) ==> d.model.deep_view() == attrs_model(a),
{
    reveal_strlit("assistant");
    reveal_strlit("user");
    assert("assistant"@.len() == 9);
    assert("user"@.len() == 4);
    if millis_in_calendar(row.created as int) {
        millis_round_trip(row.created as int);
    }
    if millis_in_calendar(row.updated as int) {
        millis_round_trip(row.updated as int);
    }
}

/// An answer was broken off where it failed, where a tool never answered, or where it was
/// begun and holds nothing; never where it is done or the user is waiting.
pub proof fn answers_are_broken_off_by_failures(
    status: StaticStatus,
    completed: bool,
    stuck_tools: int,
    errored: bool,
)
    ensures
        status == StaticStatus::Completed || status == StaticStatus::UserPending ==> !broken_off(
            status,
            completed,
            stuck_tools,
            errored,
        ),
        status == StaticStatus::AssistantToolStuck && stuck_tools > 0 ==> broken_off(
            status,
            completed,
            stuck_tools,
            errored,
        ),
        status == StaticStatus::AssistantEmpty && !completed ==> broken_off(
            status,
            completed,
            stuck_tools,
            errored,
        ),
        status == StaticStatus::AssistantPartial ==> (broken_off(
            status,
            completed,
            stuck_tools,
            errored,
        ) <==> errored || stuck_tools > 0),
{
}

} // verus!
