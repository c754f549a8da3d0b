//! What a session is waiting for, as its records tell.

use crate::text::{join, joined, str_eq};
use vstd::prelude::*;

verus! {

/// What a session is waiting for.
#[derive(Clone, Copy, PartialEq, Eq, Structural, Hash, Debug)]
pub enum StaticStatus {
    /// The assistant has answered.
    Completed,
    /// The user has written, and nothing was answered.
    UserPending,
    /// The assistant has begun an answer that holds nothing.
    AssistantEmpty,
    /// The assistant has begun an answer and not finished it.
    AssistantPartial,
    /// The assistant waits for a tool that never answered.
    AssistantToolStuck,
}

/// The name of a status in options and reports.
pub open spec fn status_name(s: StaticStatus) -> Seq<char> {
    match s {
        StaticStatus::Completed => "completed"@,
        StaticStatus::UserPending => "user-pending"@,
        StaticStatus::AssistantEmpty => "assistant-empty"@,
        StaticStatus::AssistantPartial => "assistant-partial"@,
        StaticStatus::AssistantToolStuck => "assistant-tool-stuck"@,
    }
}

/// All statuses, in the order in which they are listed.
pub open spec fn all_statuses() -> Seq<StaticStatus> {
    seq![
        StaticStatus::Completed,
        StaticStatus::UserPending,
        StaticStatus::AssistantEmpty,
        StaticStatus::AssistantPartial,
        StaticStatus::AssistantToolStuck,
    ]
}

/// Names tell statuses apart.
pub proof fn status_names_are_distinct(a: StaticStatus, b: StaticStatus)
    ensures
        status_name(a) == status_name(b) <==> a == b,
{
    reveal_strlit("completed");
    reveal_strlit("user-pending");
    reveal_strlit("assistant-empty");
    reveal_strlit("assistant-partial");
    reveal_strlit("assistant-tool-stuck");
    assert(status_name(StaticStatus::Completed).len() == 9);
    assert(status_name(StaticStatus::UserPending).len() == 12);
    assert(status_name(StaticStatus::AssistantEmpty).len() == 15);
    assert(status_name(StaticStatus::AssistantPartial).len() == 17);
    assert(status_name(StaticStatus::AssistantToolStuck).len() == 20);
}

/// Every status is listed, and only the completed one cannot be resumed.
pub proof fn listed_statuses_are_all(s: StaticStatus)
    ensures
        all_statuses().contains(s),
        all_statuses().skip(1).contains(s) <==> s.resumable(),
{
    let all = all_statuses();
    assert(all[0] == StaticStatus::Completed);
    assert(all[1] == StaticStatus::UserPending);
    assert(all[2] == StaticStatus::AssistantEmpty);
    assert(all[3] == StaticStatus::AssistantPartial);
    assert(all[4] == StaticStatus::AssistantToolStuck);
    let rest = all.skip(1);
    assert(rest[0] == StaticStatus::UserPending);
    assert(rest[1] == StaticStatus::AssistantEmpty);
    assert(rest[2] == StaticStatus::AssistantPartial);
    assert(rest[3] == StaticStatus::AssistantToolStuck);
}

impl StaticStatus {
    /// Whether a session with this status can be resumed.
    pub open spec fn resumable(self) -> bool {
        self != StaticStatus::Completed
    }

    /// Whether a session with this status can be resumed.
    pub fn is_resumable(&self) -> (r: bool)
        ensures
            r == self.resumable(),
    {
        match self {
            StaticStatus::Completed => false,
            _ => true,
        }
    }

    /// The name of the status in options and reports.
    pub fn as_str(&self) -> (r: &'static str)
        ensures
            r@ == status_name(*self),
    {
        match self {
            StaticStatus::Completed => "completed",
            StaticStatus::UserPending => "user-pending",
            StaticStatus::AssistantEmpty => "assistant-empty",
            StaticStatus::AssistantPartial => "assistant-partial",
            StaticStatus::AssistantToolStuck => "assistant-tool-stuck",
        }
    }

    /// The status with a name.
    pub fn parse(value: &str) -> (r: Result<StaticStatus, String>)
        ensures
            match r {
                Ok(s) => status_name(s) == value@,
                Err(e) => (forall|s: StaticStatus| #[trigger] status_name(s) != value@) && e@
                    == "invalid status; valid static values: completed, user-pending, assistant-empty, assistant-partial, assistant-tool-stuck"@,
            },
    {
        if str_eq(value, "completed") {
            return Ok(StaticStatus::Completed);
        }
        if str_eq(value, "user-pending") {
            return Ok(StaticStatus::UserPending);
        }
        if str_eq(value, "assistant-empty") {
            return Ok(StaticStatus::AssistantEmpty);
        }
        if str_eq(value, "assistant-partial") {
            return Ok(StaticStatus::AssistantPartial);
        }
        if str_eq(value, "assistant-tool-stuck") {
            return Ok(StaticStatus::AssistantToolStuck);
        }
        Err(
            "invalid status; valid static values: completed, user-pending, assistant-empty, assistant-partial, assistant-tool-stuck".to_owned(),
        )
    }

    /// The statuses with which a session can be resumed.
    pub fn resumable_set() -> (r: Vec<StaticStatus>)
        ensures
            r@ == all_statuses().skip(1),
    {
        let r = vec![
            StaticStatus::UserPending,
            StaticStatus::AssistantEmpty,
            StaticStatus::AssistantPartial,
            StaticStatus::AssistantToolStuck,
        ];
        assert(r@ =~= all_statuses().skip(1));
        r
    }

    /// All statuses.
    pub fn all() -> (r: Vec<StaticStatus>)
        ensures
            r@ == all_statuses(),
    {
        vec![
            StaticStatus::Completed,
            StaticStatus::UserPending,
            StaticStatus::AssistantEmpty,
            StaticStatus::AssistantPartial,
            StaticStatus::AssistantToolStuck,
        ]
    }
}

/// What the records say of the last message of a session. Times are in seconds.
#[derive(Clone, PartialEq, Eq, Debug)]
pub struct LastMessageMeta {
    pub session_id: String,
    pub msg_id: String,
    pub last_msg_ts: i64,
    pub session_updated_ts: i64,
    pub last_role: String,
    pub last_completed: bool,
    pub parts_total: i64,
    pub stuck_tools: i64,
}

/// The record of the last message of a session as the database gives it. Times
/// are in milliseconds.
#[derive(Clone, Debug)]
pub struct LastMessageRow {
    pub session_id: String,
    pub session_updated: i64,
    pub msg_id: String,
    pub created: i64,
    pub role: Option<String>,
    pub completed: Option<i64>,
    pub parts_total: i64,
    pub stuck_tools: i64,
}

/// The quotient by 1000, rounded towards zero.
pub open spec fn thousandth(n: int) -> int {
    if n >= 0 {
        n / 1000
    } else {
        -((-n) / 1000)
    }
}

fn seconds_of_millis(ms: i64) -> (r: i64)
    ensures
        r == thousandth(ms as int),
{
    if ms >= 0 {
        ms / 1000
    } else {
        let magnitude: i128 = -(ms as i128);
        (-(magnitude / 1000)) as i64
    }
}

/// What a record says of the last message of a session.
pub fn meta_of_row(row: LastMessageRow) -> (r: LastMessageMeta)
    ensures
        r.session_id == row.session_id,
        r.msg_id == row.msg_id,
        r.last_msg_ts == thousandth(row.created as int),
        r.session_updated_ts == thousandth(row.session_updated as int),
        r.last_role@ == (match row.role {
            Some(role) => role@,
            None => Seq::empty(),
        }),
        r.last_completed == row.completed is Some,
        r.parts_total == row.parts_total,
        r.stuck_tools == row.stuck_tools,
{
    LastMessageMeta {
        last_msg_ts: seconds_of_millis(row.created),
        session_updated_ts: seconds_of_millis(row.session_updated),
        last_role: match row.role {
            Some(role) => role,
            None => String::new(),
        },
        last_completed: row.completed.is_some(),
        session_id: row.session_id,
        msg_id: row.msg_id,
        parts_total: row.parts_total,
        stuck_tools: row.stuck_tools,
    }
}

/// What a session is waiting for, given the role of its last message, whether it
/// is complete, and the parts and waiting tools that it has.
pub open spec fn status_of(
    role: Seq<char>,
    completed: bool,
    parts: int,
    stuck_tools: int,
) -> StaticStatus {
    if role == "assistant"@ && completed {
        StaticStatus::Completed
    } else if role == "user"@ {
        StaticStatus::UserPending
    } else if parts == 0 {
        StaticStatus::AssistantEmpty
    } else if stuck_tools > 0 {
        StaticStatus::AssistantToolStuck
    } else {
        StaticStatus::AssistantPartial
    }
}

/// What a session is waiting for.
pub fn classify_static(meta: &LastMessageMeta) -> (r: StaticStatus)
    ensures
        r == status_of(
            meta.last_role@,
            meta.last_completed,
            meta.parts_total as int,
            meta.stuck_tools as int,
        ),
{
    if str_eq(meta.last_role.as_str(), "assistant") && meta.last_completed {
        return StaticStatus::Completed;
    }
    if str_eq(meta.last_role.as_str(), "user") {
        return StaticStatus::UserPending;
    }
    if meta.parts_total == 0 {
        return StaticStatus::AssistantEmpty;
    }
    if meta.stuck_tools > 0 {
        return StaticStatus::AssistantToolStuck;
    }
    StaticStatus::AssistantPartial
}

/// A session whose last message is an unfinished answer that holds something is
/// never taken for one whose last message may be replayed.
pub proof fn partial_work_is_kept(role: Seq<char>, completed: bool, parts: int, stuck_tools: int)
    requires
        role == "assistant"@,
        !completed,
        parts != 0,
    ensures
        status_of(role, completed, parts, stuck_tools) == StaticStatus::AssistantPartial
            || status_of(role, completed, parts, stuck_tools) == StaticStatus::AssistantToolStuck,
{
    reveal_strlit("assistant");
    reveal_strlit("user");
    assert("assistant"@.len() != "user"@.len());
}

/// The provider and model that a user message was sent to.
#[derive(Clone, PartialEq, Eq, Debug)]
pub struct ResumeModel {
    pub provider_id: String,
    pub model_id: String,
}

/// What is needed to send a user message again, or to go on from it.
#[derive(Clone, PartialEq, Eq, Debug)]
pub struct ResumePayload {
    pub user_msg_id: String,
    pub text: String,
    pub agent: Option<String>,
    pub model: Option<ResumeModel>,
}

/// The texts that are there, in order.
pub open spec fn present(texts: Seq<Option<Seq<char>>>) -> Seq<Seq<char>>
    decreases texts.len(),
{
    if texts.len() == 0 {
        Seq::empty()
    } else {
        match texts.last() {
            Some(t) => present(texts.drop_last()).push(t),
            None => present(texts.drop_last()),
        }
    }
}

/// What is needed to send a user message again: its text parts, one to a line,
/// its agent, and its model where provider and model are both known.
pub fn resume_payload(
    user_msg_id: String,
    agent: Option<String>,
    provider_id: Option<String>,
    model_id: Option<String>,
    texts: Vec<Option<String>>,
) -> (r: ResumePayload)
    ensures
        r.user_msg_id == user_msg_id,
        r.agent == agent,
        r.text@ == joined(present(texts.deep_view()), "\n"@),
        r.model == (match (provider_id, model_id) {
            (Some(provider_id), Some(model_id)) => Some(ResumeModel { provider_id, model_id }),
            _ => None,
        }),
{
    let ghost all = texts.deep_view();
    let mut parts: Vec<String> = Vec::new();
    let mut i: usize = 0;
    assert(parts.deep_view() == Seq::<Seq<char>>::empty());
    while i < texts.len()
        invariant
            i <= texts.len(),
            all == texts.deep_view(),
            parts.deep_view() == present(all.take(i as int)),
        decreases texts.len() - i,
    {
        assert(all.take(i + 1).drop_last() == all.take(i as int));
        assert(all.take(i + 1).last() == texts@[i as int].deep_view());
        let ghost before = parts.deep_view();
        match &texts[i] {
            Some(t) => {
                parts.push(t.clone());
                assert(parts.deep_view() == before.push(t@));
            },
            None => {},
        }
        i += 1;
    }
    assert(all.take(i as int) == all);
    let model = match (provider_id, model_id) {
        (Some(provider_id), Some(model_id)) => Some(ResumeModel { provider_id, model_id }),
        _ => None,
    };
    ResumePayload { user_msg_id, text: join(&parts, "\n"), agent, model }
}

/// A status is shown by its name.
pub proof fn status_names_are_known()
    ensures
        status_name(StaticStatus::Completed) == "completed"@,
        status_name(StaticStatus::UserPending) == "user-pending"@,
        status_name(StaticStatus::AssistantEmpty) == "assistant-empty"@,
        status_name(StaticStatus::AssistantPartial) == "assistant-partial"@,
        status_name(StaticStatus::AssistantToolStuck) == "assistant-tool-stuck"@,
{
}

/// A session is done exactly where the assistant has answered; where the user wrote last
/// it waits; where nothing was answered yet it is empty; and what was begun is stuck
/// exactly where a tool never answered.
pub proof fn statuses_follow_the_last_message(
    role: Seq<char>,
    completed: bool,
    parts: int,
    stuck_tools: int,
)
    ensures
        status_of(role, completed, parts, stuck_tools) == StaticStatus::Completed <==> role
            == "assistant"@ && completed,
        status_of(role, completed, parts, stuck_tools) == StaticStatus::UserPending <==> role
            == "user"@,
        role == "assistant"@ && !completed ==> {
            let s = status_of(role, completed, parts, stuck_tools);
            &&& s == StaticStatus::AssistantEmpty <==> parts == 0
            &&& s == StaticStatus::AssistantToolStuck <==> parts != 0 && stuck_tools > 0
            &&& s == StaticStatus::AssistantPartial <==> parts != 0 && stuck_tools <= 0
        },
{
    reveal_strlit("assistant");
    reveal_strlit("user");
    assert("assistant"@.len() == 9);
    assert("user"@.len() == 4);
}

/// Everything but what is done can be taken up again.
pub proof fn what_is_not_done_can_be_resumed(s: StaticStatus)
    ensures
        s.resumable() <==> status_name(s) != "completed"@,
{
    status_names_are_distinct(s, StaticStatus::Completed);
}

/// What is kept of a last message is what its row says, with seconds for milliseconds.
pub proof fn rows_tell_of_their_message(row: LastMessageRow, r: LastMessageMeta)
    requires
        call_ensures(meta_of_row, (row,), r),
    ensures
        r.session_id == row.session_id,
        r.msg_id == row.msg_id,
        row.created >= 0 ==> r.last_msg_ts * 1000 <= row.created < r.last_msg_ts * 1000 + 1000,
        row.session_updated >= 0 ==> r.session_updated_ts * 1000 <= row.session_updated
            < r.session_updated_ts * 1000 + 1000,
        row.created < 0 ==> r.last_msg_ts * 1000 - 1000 < row.created <= r.last_msg_ts * 1000,
        row.session_updated < 0 ==> r.session_updated_ts * 1000 - 1000 < row.session_updated
            <= r.session_updated_ts * 1000,
        row.role matches Some(role) ==> r.last_role@ == role@,
        row.role is None ==> r.last_role@.len() == 0,
        r.last_completed <==> row.completed is Some,
        r.parts_total == row.parts_total,
        r.stuck_tools == row.stuck_tools,
{
}

/// What is sent again is the message that was sent, to the same agent, and to the same
/// model where both its service and its name are known.
pub proof fn resuming_repeats_the_message(
    user_msg_id: String,
    agent: Option<String>,
    provider_id: Option<String>,
    model_id: Option<String>,
    texts: Vec<Option<String>>,
    r: ResumePayload,
)
    requires
        call_ensures(resume_payload, (user_msg_id, agent, provider_id, model_id, texts), r),
    ensures
        r.user_msg_id == user_msg_id,
        r.agent == agent,
        r.model is Some <==> provider_id is Some && model_id is Some,
        r.model matches Some(m) ==> Some(m.provider_id) == provider_id && Some(m.model_id)
            == model_id,
        texts@.len() == 0 ==> r.text@.len() == 0,
        texts@.len() == 1 && texts@[0] is Some ==> r.text@ == texts@[0]->0@,
{
    reveal_with_fuel(present, 2);
    let all = texts.deep_view();
    if texts@.len() == 1 && texts@[0] is Some {
        assert(all.drop_last() =~= Seq::<Option<Seq<char>>>::empty());
        assert(all[0] == texts@[0].deep_view());
        assert(present(all) =~= seq![texts@[0]->0@]);
    }
}

/// The texts of a message come one after the other; what has none adds none.
pub proof fn texts_are_kept_in_order(texts: Seq<Option<Seq<char>>>, text: Option<Seq<char>>)
    ensures
        text matches Some(t) ==> present(texts.push(text)) == present(texts).push(t),
        text is None ==> present(texts.push(text)) == present(texts),
{
    assert(texts.push(text).drop_last() =~= texts);
}

} // verus!
