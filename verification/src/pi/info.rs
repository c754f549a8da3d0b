//! All that is to be said of one session of Pi.

use crate::json::{Json, JsonView};
use crate::opencode::info::{SessionDetailInfo, either, model_label, model_text};
use crate::opencode::parts::is_kind;
use crate::pi::identity::{derive_parent_id, parent_session};
use crate::pi::jsonl::{
    block_texts, counted, entries_in, entry_time, entry_timestamp, first_told, last_told,
    message_in, message_of, on_one_line, on_one_line_each, parse_entries, put_each_on_one_line,
    put_on_one_line, texts_of_blocks, the_last_that_tells_counts, titled, truncate_title,
};
use crate::pi::session::{blocks_in, model_in};
use crate::provider::Provider;
use crate::text::{chars_of, has_suffix, join, joined, str_eq};
use crate::time::Timestamp;
use vstd::prelude::*;

verus! {

/// The text of a message, on one line, where it has any.
pub open spec fn message_text(message: JsonView) -> Option<Seq<char>> {
    match message.get("content"@) {
        Some(JsonView::Str(s)) => if s.len() == 0 {
            None
        } else {
            Some(on_one_line(s))
        },
        Some(JsonView::Array(blocks)) => if block_texts(blocks).len() == 0 {
            None
        } else {
            Some(joined(on_one_line_each(block_texts(blocks)), " "@))
        },
        _ => None,
    }
}

/// The text of a message, on one line, where it has any.
pub fn extract_text_content(message: &Json) -> (r: Option<String>)
    ensures
        r.deep_view() == message_text(message@),
{
    match message.get("content") {
        Some(Json::Str(s)) => {
            if chars_of(s.as_str()).len() == 0 {
                None
            } else {
                Some(put_on_one_line(s.as_str()))
            }
        },
        Some(Json::Array(blocks)) => {
            assert(message@.get("content"@)->0->Array_0 =~= blocks.deep_view());
            let texts = texts_of_blocks(blocks);
            assert(texts.deep_view().len() == texts.len());
            if texts.len() == 0 {
                None
            } else {
                Some(join(&put_each_on_one_line(&texts), " "))
            }
        },
        _ => None,
    }
}

/// Whether a block says that it is an error.
pub open spec fn is_error_block(block: JsonView) -> bool {
    match block.get("isError"@) {
        Some(v) => v.as_bool() == Some(true),
        None => false,
    }
}

/// Whether one of the blocks says that it is an error.
pub open spec fn any_error_block(blocks: Seq<JsonView>) -> bool {
    exists|i: int| 0 <= i < blocks.len() && is_error_block(#[trigger] blocks[i])
}

/// Whether a message tells of an error: it has one, or one of its blocks says so.
pub open spec fn tells_error(message: JsonView) -> bool {
    ||| message.get("error"@) matches Some(e) && e != JsonView::Null
    ||| any_error_block(blocks_in(message))
}

/// Whether a message tells of an error.
pub fn has_error_flag(message: &Json) -> (r: bool)
    ensures
        r == tells_error(message@),
{
    match message.get("error") {
        Some(Json::Null) => {},
        Some(_) => return true,
        None => {},
    }
    match message.get_array("content") {
        Some(blocks) => {
            let ghost all = blocks.deep_view();
            let mut i: usize = 0;
            while i < blocks.len()
                invariant
                    i <= blocks.len(),
                    all == blocks.deep_view(),
                    all == blocks_in(message@),
                    forall|j: int| 0 <= j < i ==> !is_error_block(#[trigger] all[j]),
                decreases blocks.len() - i,
            {
                assert(all[i as int] == blocks@[i as int]@);
                match blocks[i].get("isError") {
                    Some(v) => match v.as_bool() {
                        Some(true) => {
                            assert(any_error_block(all));
                            return true;
                        },
                        _ => {},
                    },
                    None => {},
                }
                i += 1;
            }
            false
        },
        None => false,
    }
}

/// What an entry is for the state of a session.
#[derive(Clone, Copy, PartialEq, Eq, Structural, Debug)]
pub enum EntryKind {
    User,
    Assistant,
    Error,
}

/// What an entry is for the state of a session.
pub open spec fn entry_kind(entry: JsonView) -> Option<EntryKind> {
    match message_in(entry) {
        Some(m) => {
            let role = m.get_str("role"@);
            if role == Some("user"@) {
                Some(EntryKind::User)
            } else if role == Some("assistant"@) {
                Some(EntryKind::Assistant)
            } else if role == Some("toolResult"@) && tells_error(m) {
                Some(EntryKind::Error)
            } else {
                None
            }
        },
        None => if entry.get_str("type"@) == Some("error"@) {
            Some(EntryKind::Error)
        } else {
            None
        },
    }
}

fn has_role(message: &Json, role: &str) -> (r: bool)
    ensures
        r == (message@.get_str("role"@) == Some(role@)),
{
    match message.get_str("role") {
        Some(r) => str_eq(r, role),
        None => false,
    }
}

fn kind_of_entry(entry: &Json) -> (r: Option<EntryKind>)
    ensures
        r == entry_kind(entry@),
{
    match message_of(entry) {
        Some(m) => if has_role(m, "user") {
            Some(EntryKind::User)
        } else if has_role(m, "assistant") {
            Some(EntryKind::Assistant)
        } else if has_role(m, "toolResult") && has_error_flag(m) {
            Some(EntryKind::Error)
        } else {
            None
        },
        None => if is_kind(entry, "error") {
            Some(EntryKind::Error)
        } else {
            None
        },
    }
}

/// Whether an entry is a message of a user or of the assistant.
pub open spec fn is_turn(entry: JsonView) -> bool {
    entry_kind(entry) == Some(EntryKind::User) || entry_kind(entry) == Some(EntryKind::Assistant)
}

/// How many of the blocks call a tool.
pub open spec fn calls_among(blocks: Seq<JsonView>) -> nat
    decreases blocks.len(),
{
    if blocks.len() == 0 {
        0
    } else {
        calls_among(blocks.drop_last()) + if blocks.last().get_str("type"@) == Some("toolCall"@) {
            1nat
        } else {
            0nat
        }
    }
}

/// How many tools an entry calls.
pub open spec fn calls_of(entry: JsonView) -> nat {
    if entry_kind(entry) == Some(EntryKind::Assistant) {
        calls_among(blocks_in(message_in(entry)->0))
    } else {
        0
    }
}

fn count_calls(blocks: &Vec<Json>) -> (r: usize)
    ensures
        r == calls_among(blocks.deep_view()),
{
    let ghost all = blocks.deep_view();
    let mut n: usize = 0;
    let mut i: usize = 0;
    assert(all.take(0) =~= Seq::<JsonView>::empty());
    while i < blocks.len()
        invariant
            n <= i <= blocks.len(),
            all == blocks.deep_view(),
            n == calls_among(all.take(i as int)),
        decreases blocks.len() - i,
    {
        assert(all.take(i + 1).drop_last() =~= all.take(i as int));
        assert(all.take(i + 1).last() == blocks@[i as int]@);
        if is_kind(&blocks[i], "toolCall") {
            n += 1;
        }
        i += 1;
    }
    assert(all.take(i as int) =~= all);
    n
}

fn calls_of_entry(entry: &Json) -> (r: usize)
    ensures
        r == calls_of(entry@),
{
    match message_of(entry) {
        Some(m) => {
            if has_role(m, "user") || !has_role(m, "assistant") {
                proof {
                    reveal_strlit("user");
                    reveal_strlit("assistant");
                    assert("user"@.len() == 4 && "assistant"@.len() == 9);
                }
                return 0;
            }
            match m.get_array("content") {
                Some(blocks) => count_calls(blocks),
                None => 0,
            }
        },
        None => 0,
    }
}

/// The model that an entry names: an answer, or a change of the model.
pub open spec fn told_model(entry: JsonView) -> Option<Seq<char>> {
    if entry_kind(entry) == Some(EntryKind::Assistant) {
        model_in(message_in(entry)->0)
    } else if entry.get_str("type"@) == Some("model_change"@) {
        either(entry.get_str("modelId"@), entry.get_str("modelID"@))
    } else {
        None
    }
}

/// The service that an entry names: an answer, or a change of the model.
pub open spec fn told_provider(entry: JsonView) -> Option<Seq<char>> {
    if entry_kind(entry) == Some(EntryKind::Assistant) {
        message_in(entry)->0.get_str("provider"@)
    } else if entry.get_str("type"@) == Some("model_change"@) {
        entry.get_str("provider"@)
    } else {
        None
    }
}

fn first_present(a: Option<&str>, b: Option<&str>) -> (r: Option<String>)
    ensures
        r.deep_view() == either(a.deep_view(), b.deep_view()),
{
    match (a, b) {
        (Some(s), _) => Some(s.to_string()),
        (None, Some(s)) => Some(s.to_string()),
        (None, None) => None,
    }
}

fn is_answer(entry: &Json) -> (r: bool)
    ensures
        r == (entry_kind(entry@) == Some(EntryKind::Assistant)),
{
    match kind_of_entry(entry) {
        Some(EntryKind::Assistant) => true,
        _ => false,
    }
}

fn model_of_entry(entry: &Json) -> (r: Option<String>)
    ensures
        r.deep_view() == told_model(entry@),
{
    if is_answer(entry) {
        match message_of(entry) {
            Some(m) => first_present(m.get_str("model"), m.get_str("modelID")),
            None => None,
        }
    } else if is_kind(entry, "model_change") {
        first_present(entry.get_str("modelId"), entry.get_str("modelID"))
    } else {
        None
    }
}

fn provider_of_entry(entry: &Json) -> (r: Option<String>)
    ensures
        r.deep_view() == told_provider(entry@),
{
    if is_answer(entry) {
        match message_of(entry) {
            Some(m) => first_present(m.get_str("provider"), None),
            None => None,
        }
    } else if is_kind(entry, "model_change") {
        first_present(entry.get_str("provider"), None)
    } else {
        None
    }
}

/// The directory that a header names.
pub open spec fn told_dir(entry: JsonView) -> Option<Seq<char>> {
    if entry.get_str("type"@) == Some("session"@) {
        match entry.get_str("cwd"@) {
            Some(cwd) => if cwd.len() > 0 {
                Some(cwd)
            } else {
                None
            },
            None => None,
        }
    } else {
        None
    }
}

fn dir_of_entry(entry: &Json) -> (r: Option<String>)
    ensures
        r.deep_view() == told_dir(entry@),
{
    if !is_kind(entry, "session") {
        return None;
    }
    match entry.get_str("cwd") {
        Some(cwd) => {
            if chars_of(cwd).len() > 0 {
                Some(cwd.to_string())
            } else {
                None
            }
        },
        None => None,
    }
}

/// The title that the text of a user gives.
pub open spec fn told_title(entry: JsonView) -> Option<Seq<char>> {
    if entry_kind(entry) == Some(EntryKind::User) {
        match message_text(message_in(entry)->0) {
            Some(text) => Some(titled(text)),
            None => None,
        }
    } else {
        None
    }
}

fn told_title_of_entry(entry: &Json) -> (r: Option<String>)
    ensures
        r.deep_view() == told_title(entry@),
{
    match kind_of_entry(entry) {
        Some(EntryKind::User) => match message_of(entry) {
            Some(m) => match extract_text_content(m) {
                Some(text) => Some(truncate_title(text.as_str())),
                None => None,
            },
            None => None,
        },
        _ => None,
    }
}

/// Whether entries hold a header.
pub open spec fn has_header(entries: Seq<JsonView>) -> bool {
    exists|i: int|
        0 <= i < entries.len() && (#[trigger] entries[i]).get_str("type"@) == Some("session"@)
}

/// How many messages of a user or of the assistant there are.
pub open spec fn turns(entries: Seq<JsonView>) -> nat {
    counted(
        entries,
        |e: JsonView|
            if is_turn(e) {
                1nat
            } else {
                0nat
            },
    )
}

/// How many tools were called.
pub open spec fn all_calls(entries: Seq<JsonView>) -> nat {
    counted(entries, |e: JsonView| calls_of(e))
}

/// The facts of a session file: which of them the entries give, first or last.
pub ghost struct FileFacts {
    pub project_dir: Option<Seq<char>>,
    pub title: Option<Seq<char>>,
    pub started_at: Option<Timestamp>,
    pub last_updated_at: Option<Timestamp>,
    pub message_count: nat,
    pub tool_call_count: nat,
    pub last_kind: Option<EntryKind>,
    pub model: Option<Seq<char>>,
    pub provider: Option<Seq<char>>,
}

/// The facts that entries give.
pub open spec fn facts_in(entries: Seq<JsonView>) -> FileFacts {
    FileFacts {
        project_dir: last_told(entries, |e: JsonView| told_dir(e)),
        title: first_told(entries, |e: JsonView| told_title(e)),
        started_at: first_told(entries, |e: JsonView| entry_time(e)),
        last_updated_at: last_told(entries, |e: JsonView| entry_time(e)),
        message_count: turns(entries),
        tool_call_count: all_calls(entries),
        last_kind: last_told(entries, |e: JsonView| entry_kind(e)),
        model: last_told(entries, |e: JsonView| told_model(e)),
        provider: last_told(entries, |e: JsonView| told_provider(e)),
    }
}

/// The facts of a session file.
pub struct Facts {
    pub project_dir: Option<String>,
    pub title: Option<String>,
    pub started_at: Option<Timestamp>,
    pub last_updated_at: Option<Timestamp>,
    pub message_count: usize,
    pub tool_call_count: u128,
    pub last_kind: Option<EntryKind>,
    pub model: Option<String>,
    pub provider: Option<String>,
    pub header_seen: bool,
}

impl View for Facts {
    type V = FileFacts;

    open spec fn view(&self) -> FileFacts {
        FileFacts {
            project_dir: self.project_dir.deep_view(),
            title: self.title.deep_view(),
            started_at: self.started_at,
            last_updated_at: self.last_updated_at,
            message_count: self.message_count as nat,
            tool_call_count: self.tool_call_count as nat,
            last_kind: self.last_kind,
            model: self.model.deep_view(),
            provider: self.provider.deep_view(),
        }
    }
}

/// The later of two things told.
fn later<T>(told: Option<T>, before: Option<T>) -> (r: Option<T>)
    ensures
        r == (match told {
            Some(t) => Some(t),
            None => before,
        }),
{
    match told {
        Some(t) => Some(t),
        None => before,
    }
}

/// The facts with those that one more entry gives.
fn with_entry(f: Facts, entry: &Json, Ghost(entries): Ghost<Seq<JsonView>>) -> (r: Facts)
    requires
        f@ == facts_in(entries),
        f.header_seen == has_header(entries),
        f.message_count < usize::MAX,
        f.tool_call_count + usize::MAX <= u128::MAX,
    ensures
        r@ == facts_in(entries.push(entry@)),
        r.header_seen == has_header(entries.push(entry@)),
        r.message_count <= f.message_count + 1,
        r.tool_call_count <= f.tool_call_count + usize::MAX,
{
    let ghost next = entries.push(entry@);
    assert(next.drop_last() =~= entries);
    assert(next.last() == entry@);
    let kind = kind_of_entry(entry);
    let is_turn = match kind {
        Some(EntryKind::User) | Some(EntryKind::Assistant) => true,
        _ => false,
    };
    let at = entry_timestamp(entry);
    let title = match f.title {
        Some(t) => Some(t),
        None => told_title_of_entry(entry),
    };
    let is_header = is_kind(entry, "session");
    proof {
        assert(has_header(next) <==> has_header(entries) || is_header) by {
            if has_header(entries) {
                let i = choose|i: int|
                    0 <= i < entries.len() && (#[trigger] entries[i]).get_str("type"@) == Some(
                        "session"@,
                    );
                assert(next[i] == entries[i]);
            }
            if is_header {
                assert(next[entries.len() as int] == entry@);
            }
            if has_header(next) && !is_header {
                let i = choose|i: int|
                    0 <= i < next.len() && (#[trigger] next[i]).get_str("type"@) == Some(
                        "session"@,
                    );
                assert(next[i] == entries[i]);
            }
        }
    }
    let r = Facts {
        project_dir: later(dir_of_entry(entry), f.project_dir),
        title,
        started_at: match f.started_at {
            Some(t) => Some(t),
            None => at,
        },
        last_updated_at: later(at, f.last_updated_at),
        message_count: if is_turn {
            f.message_count + 1
        } else {
            f.message_count
        },
        tool_call_count: f.tool_call_count + calls_of_entry(entry) as u128,
        last_kind: later(kind, f.last_kind),
        model: later(model_of_entry(entry), f.model),
        provider: later(provider_of_entry(entry), f.provider),
        header_seen: f.header_seen || is_header,
    };
    r
}

/// The facts that entries give.
pub fn gather_facts(entries: &Vec<Json>) -> (r: Facts)
    ensures
        r@ == facts_in(entries.deep_view()),
        r.header_seen == has_header(entries.deep_view()),
{
    let ghost all = entries.deep_view();
    let mut f = Facts {
        project_dir: None,
        title: None,
        started_at: None,
        last_updated_at: None,
        message_count: 0,
        tool_call_count: 0,
        last_kind: None,
        model: None,
        provider: None,
        header_seen: false,
    };
    let mut i: usize = 0;
    assert(all.take(0) =~= Seq::<JsonView>::empty());
    while i < entries.len()
        invariant
            i <= entries.len(),
            all == entries.deep_view(),
            f@ == facts_in(all.take(i as int)),
            f.header_seen == has_header(all.take(i as int)),
            f.message_count <= i,
            f.tool_call_count <= i * usize::MAX,
        decreases entries.len() - i,
    {
        proof {
            assert(all.take(i + 1) =~= all.take(i as int).push(entries@[i as int]@));
            assert((i + 1) * usize::MAX == i * usize::MAX + usize::MAX) by (nonlinear_arith);
            assert((i + 1) * usize::MAX <= u128::MAX) by (nonlinear_arith)
                requires
                    i < usize::MAX,
            ;
        }
        f = with_entry(f, &entries[i], Ghost(all.take(i as int)));
        i += 1;
    }
    assert(all.take(i as int) =~= all);
    f
}

/// Whether this is what is to be said of a session whose file gives these facts.
pub open spec fn is_detail(
    d: SessionDetailInfo,
    session_id: Seq<char>,
    facts: FileFacts,
    parent: Option<Seq<char>>,
) -> bool {
    &&& d.session_id@ == session_id
    &&& d.provider == Provider::Pi
    &&& d.project_dir.deep_view() == facts.project_dir
    &&& d.title.deep_view() == facts.title
    &&& d.started_at == facts.started_at
    &&& d.last_updated_at == facts.last_updated_at
    &&& d.message_count == facts.message_count
    &&& d.tool_call_count == facts.tool_call_count
    &&& d.static_status is None
    &&& d.aborted == (facts.last_kind == Some(EntryKind::Error))
    &&& d.parent_session_id.deep_view() == parent
    &&& d.agent is None
    &&& d.model.deep_view() == model_label(facts.provider, facts.model)
}

/// What is to be said of a session from the entries of its file.
pub open spec fn detail_follows(
    r: Result<SessionDetailInfo, String>,
    session_id: Seq<char>,
    entries: Seq<JsonView>,
    parent: Option<Seq<char>>,
) -> bool {
    if !has_header(entries) {
        r matches Err(e) && e@ == "pi session file missing header line: "@ + session_id
    } else if all_calls(entries) > usize::MAX {
        r matches Err(e) && e@ == "the number of tool calls does not fit"@
    } else {
        r matches Ok(d) && is_detail(d, session_id, facts_in(entries), parent)
    }
}

/// What is to be said of a session from the entries of its file. A file without
/// a header is none of a session.
pub fn detail_of(session_id: &str, entries: &Vec<Json>, parent: Option<String>) -> (r: Result<
    SessionDetailInfo,
    String,
>)
    ensures
        detail_follows(r, session_id@, entries.deep_view(), parent.deep_view()),
{
    let f = gather_facts(entries);
    if !f.header_seen {
        let mut e = "pi session file missing header line: ".to_string();
        e.append(session_id);
        return Err(e);
    }
    if f.tool_call_count > usize::MAX as u128 {
        return Err("the number of tool calls does not fit".to_string());
    }
    let aborted = match f.last_kind {
        Some(EntryKind::Error) => true,
        _ => false,
    };
    Ok(
        SessionDetailInfo {
            session_id: session_id.to_string(),
            provider: Provider::Pi,
            project_dir: f.project_dir,
            title: f.title,
            started_at: f.started_at,
            last_updated_at: f.last_updated_at,
            message_count: f.message_count,
            tool_call_count: f.tool_call_count as usize,
            static_status: None,
            aborted,
            parent_session_id: parent,
            agent: None,
            model: model_text(f.provider, f.model),
        },
    )
}

/// A session file: where it lies below the directory of sessions, and its lines.
pub struct SessionText {
    pub path: String,
    pub base: String,
    pub lines: Vec<String>,
}

/// What is to be said of a session, given its file, where it has one.
pub fn fetch_info(session_id: &str, file: Option<&SessionText>) -> (r: Result<
    SessionDetailInfo,
    String,
>)
    ensures
        match file {
            Some(f) => detail_follows(
                r,
                session_id@,
                entries_in(f.lines.deep_view()),
                parent_session(f.path@, f.base@),
            ),
            None => r matches Err(e) && e@ == "session not found: "@ + session_id@,
        },
{
    match file {
        Some(f) => {
            let entries = parse_entries(&f.lines);
            let parent = derive_parent_id(f.path.as_str(), f.base.as_str());
            detail_of(session_id, &entries, parent)
        },
        None => {
            let mut e = "session not found: ".to_string();
            e.append(session_id);
            Err(e)
        },
    }
}

proof fn roles_differ()
    ensures
        "user"@ != "assistant"@,
        "user"@ != "toolResult"@,
        "assistant"@ != "toolResult"@,
{
    reveal_strlit("user");
    reveal_strlit("assistant");
    reveal_strlit("toolResult");
    assert("user"@.len() == 4);
    assert("assistant"@.len() == 9);
    assert("toolResult"@.len() == 10);
}

/// Whose turn an entry is, by what it holds: a message of the user or of the assistant, or
/// an error: one told by itself or by the result of a tool.
pub proof fn entries_are_turns_or_errors(entry: JsonView)
    ensures
        entry_kind(entry) == Some(EntryKind::User) <==> message_in(entry) is Some && message_in(
            entry,
        )->0.get_str("role"@) == Some("user"@),
        entry_kind(entry) == Some(EntryKind::Assistant) <==> message_in(entry) is Some
            && message_in(entry)->0.get_str("role"@) == Some("assistant"@),
        entry_kind(entry) == Some(EntryKind::Error) <==> {
            ||| message_in(entry) is Some && message_in(entry)->0.get_str("role"@) == Some(
                "toolResult"@,
            ) && tells_error(message_in(entry)->0)
            ||| message_in(entry) is None && entry.get_str("type"@) == Some("error"@)
        },
{
    roles_differ();
}

/// A result tells of an error by itself, or by any of its blocks that is marked.
pub proof fn errors_are_told_by_marks(message: JsonView, i: int)
    ensures
        message.get("error"@) is Some && message.get("error"@) != Some(JsonView::Null)
            ==> tells_error(message),
        (message.get_array("content"@) matches Some(blocks) && 0 <= i < blocks.len() && (
        blocks[i].get("isError"@) matches Some(v) && v.as_bool() == Some(true))) ==> tells_error(
            message,
        ),
        message.get("error"@) is None && message.get_array("content"@) is None ==> !tells_error(
            message,
        ),
{
    match message.get_array("content"@) {
        Some(blocks) => {
            if 0 <= i < blocks.len() && (blocks[i].get("isError"@) matches Some(v) && v.as_bool()
                == Some(true)) {
                assert(is_error_block(blocks_in(message)[i]));
            }
        },
        None => {},
    }
}

/// Turns are counted one by one: messages of the user and of the assistant, and no others.
pub proof fn turns_are_messages(entries: Seq<JsonView>, entry: JsonView)
    ensures
        turns(Seq::empty()) == 0,
        message_in(entry) is Some && (message_in(entry)->0.get_str("role"@) == Some("user"@)
            || message_in(entry)->0.get_str("role"@) == Some("assistant"@)) ==> turns(
            entries.push(entry),
        ) == turns(entries) + 1,
        message_in(entry) is None ==> turns(entries.push(entry)) == turns(entries),
        message_in(entry) matches Some(m) ==> (m.get_str("role"@) == Some("toolResult"@) ==> turns(
            entries.push(entry),
        ) == turns(entries)),
{
    roles_differ();
    assert(entries.push(entry).drop_last() =~= entries);
}

/// Tool calls are counted block by block, in what the assistant says and nowhere else.
pub proof fn calls_are_counted_in_answers(
    entries: Seq<JsonView>,
    entry: JsonView,
    blocks: Seq<JsonView>,
    block: JsonView,
)
    ensures
        calls_among(blocks.push(block)) == calls_among(blocks) + if block.get_str("type"@) == Some(
            "toolCall"@,
        ) {
            1nat
        } else {
            0nat
        },
        calls_among(Seq::empty()) == 0,
        (message_in(entry) matches Some(m) && m.get_str("role"@) == Some("assistant"@)
            && m.get_array("content"@) is Some) ==> all_calls(entries.push(entry)) == all_calls(
            entries,
        ) + calls_among(message_in(entry)->0.get_array("content"@)->0),
        (message_in(entry) is None || message_in(entry)->0.get_str("role"@) != Some("assistant"@))
            ==> all_calls(entries.push(entry)) == all_calls(entries),
{
    roles_differ();
    assert(blocks.push(block).drop_last() =~= blocks);
    assert(entries.push(entry).drop_last() =~= entries);
}

/// The model and its service are told by answers and by changes of the model, the directory
/// by the header, and the title by what the user wrote.
pub proof fn facts_are_told_by_their_entries(entry: JsonView)
    ensures
        (message_in(entry) matches Some(m) && m.get_str("role"@) == Some("assistant"@)) ==> {
            let m = message_in(entry)->0;
            &&& told_provider(entry) == m.get_str("provider"@)
            &&& m.get_str("model"@) is Some ==> told_model(entry) == m.get_str("model"@)
        },
        entry.get_str("type"@) == Some("model_change"@) ==> {
            &&& told_provider(entry) == entry.get_str("provider"@)
            &&& entry.get_str("modelId"@) is Some ==> told_model(entry) == entry.get_str(
                "modelId"@,
            )
            &&& entry.get_str("modelId"@) is None ==> told_model(entry) == entry.get_str(
                "modelID"@,
            )
        },
        told_dir(entry) matches Some(dir) ==> entry.get_str("type"@) == Some("session"@)
            && entry.get_str("cwd"@) == Some(dir) && dir.len() > 0,
        entry.get_str("type"@) == Some("session"@) && (entry.get_str("cwd"@) matches Some(dir)
            && dir.len() > 0) ==> told_dir(entry) == entry.get_str("cwd"@),
        told_title(entry) matches Some(title) ==> message_in(entry) is Some && message_in(
            entry,
        )->0.get_str("role"@) == Some("user"@),
{
    roles_differ();
    reveal_strlit("model_change");
    reveal_strlit("message");
    assert("model_change"@.len() == 12);
    assert("message"@.len() == 7);
}

/// What a message says is its text on one line, or the texts of its blocks on one line.
pub proof fn messages_say_their_text(message: JsonView)
    ensures
        message.get_str("content"@) matches Some(text) ==> {
            &&& text.len() == 0 ==> message_text(message) is None
            &&& text.len() > 0 ==> message_text(message) == Some(on_one_line(text))
        },
        message.get("content"@) is None ==> message_text(message) is None,
{
}

/// What is told of a session is of its file: when its first and its last dated entries are,
/// the last directory, the first title, how many turns and calls there are, and the last
/// model of the last service. It was broken off exactly where the last turn is an error.
/// Gives the entry of that turn.
pub proof fn details_are_of_the_file(
    d: SessionDetailInfo,
    session_id: Seq<char>,
    entries: Seq<JsonView>,
    parent: Option<Seq<char>>,
) -> (i: int)
    requires
        is_detail(d, session_id, facts_in(entries), parent),
    ensures
        d.session_id@ == session_id,
        d.provider == Provider::Pi,
        d.parent_session_id.deep_view() == parent,
        d.message_count == turns(entries),
        d.tool_call_count == all_calls(entries),
        d.started_at == first_told(entries, |e: JsonView| entry_time(e)),
        d.last_updated_at == last_told(entries, |e: JsonView| entry_time(e)),
        d.title.deep_view() == first_told(entries, |e: JsonView| told_title(e)),
        d.project_dir.deep_view() == last_told(entries, |e: JsonView| told_dir(e)),
        d.aborted ==> 0 <= i < entries.len() && entry_kind(entries[i]) == Some(EntryKind::Error)
            && forall|j: int| i < j < entries.len() ==> entry_kind(#[trigger] entries[j]) is None,
        !d.aborted && 0 <= i < entries.len() ==> entry_kind(entries[i]) != Some(EntryKind::Error),
        last_told(entries, |e: JsonView| told_provider(e)) matches Some(p) ==> (last_told(
            entries,
            |e: JsonView| told_model(e),
        ) matches Some(m) ==> d.model.deep_view() == Some(p + seq!['/'] + m)),
{
    reveal_strlit("/");
    assert("/"@ =~= seq!['/']);
    let kind = |e: JsonView| entry_kind(e);
    let i = the_last_that_tells_counts(entries, kind);
    if last_told(entries, kind) is Some {
        assert forall|j: int| i < j < entries.len() implies entry_kind(
            #[trigger] entries[j],
        ) is None by {
            assert(kind(entries[j]) is None);
        }
        i
    } else {
        -1
    }
}

/// A file without a header is refused, and names no other reason.
pub proof fn files_need_a_header(
    r: Result<SessionDetailInfo, String>,
    session_id: Seq<char>,
    entries: Seq<JsonView>,
    parent: Option<Seq<char>>,
)
    requires
        detail_follows(r, session_id, entries, parent),
        all_calls(entries) <= usize::MAX,
    ensures
        r is Ok <==> exists|i: int|
            0 <= i < entries.len() && (#[trigger] entries[i]).get_str("type"@) == Some("session"@),
        r matches Err(e) ==> has_suffix(e@, session_id),
{
    let text = "pi session file missing header line: "@ + session_id;
    assert(text.subrange(text.len() - session_id.len(), text.len() as int) =~= session_id);
}

} // verus!
