//! The conversation of a session, from stored files and from the database.

use crate::json::{Json, JsonView};
use crate::opencode::db::{documents, parse_rows};
use crate::opencode::parts::is_kind;
use crate::text::{chars_of, str_eq, trim, trimmed};
use crate::time::{
    Timestamp, in_calendar, instant_of_millis, instant_or, millis_in_calendar, millis_round_trip,
    utc_now,
};
use crate::transcript::{
    EntryType, EntryView, Role, TranscriptEntry, in_time_order, plain_entry, role_name,
    runs_forward, sort_by_time, time_order_runs_forward,
};
use vstd::prelude::*;

verus! {

/// The role of a name in records.
pub open spec fn role_named(name: Option<Seq<char>>) -> Option<Role> {
    if name == Some("user"@) {
        Some(Role::User)
    } else if name == Some("assistant"@) {
        Some(Role::Assistant)
    } else if name == Some("system"@) {
        Some(Role::System)
    } else {
        None
    }
}

/// The role of a name in records.
pub fn role_of(name: Option<&str>) -> (r: Option<Role>)
    ensures
        r == role_named(name.deep_view()),
{
    match name {
        Some(n) => if str_eq(n, "user") {
            Some(Role::User)
        } else if str_eq(n, "assistant") {
            Some(Role::Assistant)
        } else if str_eq(n, "system") {
            Some(Role::System)
        } else {
            None
        },
        None => None,
    }
}

/// A time of a part, where it is recorded and the calendar has it; else another.
pub open spec fn part_time(part: JsonView, which: Seq<char>, otherwise: Timestamp) -> Timestamp {
    match part.get("time"@) {
        Some(time) => match time.get_i64(which) {
            Some(ms) => if millis_in_calendar(ms as int) {
                instant_of_millis(ms as int)
            } else {
                otherwise
            },
            None => otherwise,
        },
        None => otherwise,
    }
}

fn time_of_part(part: &Json, which: &str, otherwise: Timestamp) -> (r: Timestamp)
    ensures
        r == part_time(part@, which@, otherwise),
{
    match part.get("time") {
        Some(time) => match time.get_i64(which) {
            Some(ms) => instant_or(ms, otherwise),
            None => otherwise,
        },
        None => otherwise,
    }
}

/// The entry of a text that says something.
pub open spec fn spoken(
    text: Option<Seq<char>>,
    at: Timestamp,
    role: Role,
    entry_type: EntryType,
) -> Seq<EntryView> {
    match text {
        Some(t) => if trimmed(t).len() > 0 {
            seq![plain_entry(at, role, entry_type, t)]
        } else {
            Seq::empty()
        },
        None => Seq::empty(),
    }
}

/// A text, or another where there is none.
pub open spec fn text_or(text: Option<Seq<char>>, otherwise: Seq<char>) -> Seq<char> {
    match text {
        Some(t) => t,
        None => otherwise,
    }
}

/// What a tool gave back.
pub open spec fn tool_output(part: JsonView) -> Option<Seq<char>> {
    match part.get("state"@) {
        Some(state) => state.get_str("output"@),
        None => None,
    }
}

/// The two entries of a part in which a tool ran: the call and what came back.
pub open spec fn tool_entries(part: JsonView, at: Timestamp, role: Role) -> Seq<EntryView> {
    seq![
        EntryView {
            timestamp: at,
            role,
            entry_type: EntryType::ToolUse,
            content: Seq::empty(),
            tool_name: Some(text_or(part.get_str("tool"@), "unknown"@)),
            tool_input: part.get2("state"@, "input"@),
        },
        plain_entry(
            part_time(part, "end"@, at),
            role,
            EntryType::ToolResult,
            text_or(tool_output(part), Seq::empty()),
        ),
    ]
}

/// The entries of a part of a message that was sent at an instant.
pub open spec fn part_entries(part: JsonView, role: Role, sent: Timestamp) -> Seq<EntryView> {
    let at = part_time(part, "start"@, sent);
    let kind = part.get_str("type"@);
    if kind == Some("text"@) {
        spoken(part.get_str("text"@), at, role, EntryType::Text)
    } else if kind == Some("tool"@) {
        tool_entries(part, at, role)
    } else if kind == Some("reasoning"@) {
        spoken(part.get_str("text"@), at, role, EntryType::Thinking)
    } else {
        Seq::empty()
    }
}

pub(crate) fn push_spoken(
    text: Option<&str>,
    at: Timestamp,
    role: Role,
    entry_type: EntryType,
    entries: &mut Vec<TranscriptEntry>,
)
    ensures
        final(entries).deep_view() == old(entries).deep_view() + spoken(
            text.deep_view(),
            at,
            role,
            entry_type,
        ),
{
    let ghost before = entries.deep_view();
    match text {
        Some(t) => {
            if chars_of(trim(t).as_str()).len() > 0 {
                let e = TranscriptEntry {
                    timestamp: at,
                    role,
                    entry_type,
                    content: t.to_string(),
                    tool_name: None,
                    tool_input: None,
                };
                let ghost view = e@;
                entries.push(e);
                assert(entries.deep_view() =~= before.push(view));
                assert(entries.deep_view() =~= before + seq![view]);
            }
        },
        None => {},
    }
    assert(before + Seq::<EntryView>::empty() =~= before);
}

fn push_tool(part: &Json, at: Timestamp, role: Role, entries: &mut Vec<TranscriptEntry>)
    ensures
        final(entries).deep_view() == old(entries).deep_view() + tool_entries(part@, at, role),
{
    let ghost before = entries.deep_view();
    let tool_name = match part.get_str("tool") {
        Some(t) => t.to_string(),
        None => "unknown".to_string(),
    };
    let tool_input = match part.get2("state", "input") {
        Some(input) => Some(input.duplicate()),
        None => None,
    };
    let output = match part.get("state") {
        Some(state) => match state.get_str("output") {
            Some(o) => o.to_string(),
            None => String::new(),
        },
        None => String::new(),
    };
    let used = TranscriptEntry {
        timestamp: at,
        role,
        entry_type: EntryType::ToolUse,
        content: String::new(),
        tool_name: Some(tool_name),
        tool_input,
    };
    let came = TranscriptEntry {
        timestamp: time_of_part(part, "end", at),
        role,
        entry_type: EntryType::ToolResult,
        content: output,
        tool_name: None,
        tool_input: None,
    };
    let ghost added = tool_entries(part@, at, role);
    assert(used@ == added[0]);
    assert(came@ == added[1]);
    entries.push(used);
    entries.push(came);
    assert(entries.deep_view() =~= before + added);
}

/// Adds the entries of a part: of a text or a thought that says something one, of
/// a tool call two, of any other part none.
pub fn entries_from_part(
    part: &Json,
    role: Role,
    msg_timestamp: Timestamp,
    entries: &mut Vec<TranscriptEntry>,
)
    ensures
        final(entries).deep_view() == old(entries).deep_view() + part_entries(
            part@,
            role,
            msg_timestamp,
        ),
{
    let at = time_of_part(part, "start", msg_timestamp);
    if is_kind(part, "text") {
        push_spoken(part.get_str("text"), at, role, EntryType::Text, entries);
    } else if is_kind(part, "tool") {
        push_tool(part, at, role, entries);
    } else if is_kind(part, "reasoning") {
        push_spoken(part.get_str("text"), at, role, EntryType::Thinking, entries);
    } else {
        assert(entries.deep_view() + Seq::<EntryView>::empty() =~= entries.deep_view());
    }
}

/// The entries of the parts of one message, in order.
pub open spec fn parts_entries(parts: Seq<JsonView>, role: Role, sent: Timestamp) -> Seq<EntryView>
    decreases parts.len(),
{
    if parts.len() == 0 {
        Seq::empty()
    } else {
        parts_entries(parts.drop_last(), role, sent) + part_entries(parts.last(), role, sent)
    }
}

fn push_parts(
    parts: &Vec<Json>,
    role: Role,
    sent: Timestamp,
    entries: &mut Vec<TranscriptEntry>,
)
    ensures
        final(entries).deep_view() == old(entries).deep_view() + parts_entries(
            parts.deep_view(),
            role,
            sent,
        ),
{
    let ghost before = entries.deep_view();
    let ghost all = parts.deep_view();
    let mut i: usize = 0;
    assert(all.take(0) =~= Seq::<JsonView>::empty());
    assert(before + Seq::<EntryView>::empty() =~= before);
    while i < parts.len()
        invariant
            i <= parts.len(),
            all == parts.deep_view(),
            entries.deep_view() == before + parts_entries(all.take(i as int), role, sent),
        decreases parts.len() - i,
    {
        assert(all.take(i + 1).drop_last() =~= all.take(i as int));
        assert(all.take(i + 1).last() == parts@[i as int]@);
        let ghost known = parts_entries(all.take(i as int), role, sent);
        let ghost more = part_entries(all[i as int], role, sent);
        entries_from_part(&parts[i], role, sent, entries);
        assert(before + known + more =~= before + (known + more));
        i += 1;
    }
    assert(all.take(i as int) =~= all);
}

/// A message of the database with its parts.
pub struct StoredMessage {
    pub message: Json,
    pub parts: Vec<Json>,
}

impl View for StoredMessage {
    type V = (JsonView, Seq<JsonView>);

    open spec fn view(&self) -> (JsonView, Seq<JsonView>) {
        (self.message@, self.parts.deep_view())
    }
}

impl DeepView for StoredMessage {
    type V = (JsonView, Seq<JsonView>);

    open spec fn deep_view(&self) -> (JsonView, Seq<JsonView>) {
        self.view()
    }
}

/// When a message of the database was sent: the epoch where it does not say, and
/// `now` where the calendar has no such instant.
pub open spec fn sent_at(message: JsonView, now: Timestamp) -> Timestamp {
    let ms = match message.get("time"@) {
        Some(time) => match time.get_i64("created"@) {
            Some(ms) => ms as int,
            None => 0,
        },
        None => 0,
    };
    if millis_in_calendar(ms) {
        instant_of_millis(ms)
    } else {
        now
    }
}

/// The entries of a message of the database: none where its role is not known.
pub open spec fn message_entries(message: (JsonView, Seq<JsonView>), now: Timestamp) -> Seq<
    EntryView,
> {
    match role_named(message.0.get_str("role"@)) {
        Some(role) => parts_entries(message.1, role, sent_at(message.0, now)),
        None => Seq::empty(),
    }
}

/// The entries of messages of the database, in their order.
pub open spec fn all_entries(messages: Seq<(JsonView, Seq<JsonView>)>, now: Timestamp) -> Seq<
    EntryView,
>
    decreases messages.len(),
{
    if messages.len() == 0 {
        Seq::empty()
    } else {
        all_entries(messages.drop_last(), now) + message_entries(messages.last(), now)
    }
}

/// Whether the parts of a message of the database are wanted: its role is known.
pub fn has_known_role(message: &Json) -> (r: bool)
    ensures
        r == (role_named(message@.get_str("role"@)) is Some),
{
    role_of(message.get_str("role")).is_some()
}

/// The conversation in messages of the database, in time order. `now` stands for
/// a time of sending that the calendar does not have.
pub fn transcript_at(messages: &Vec<StoredMessage>, now: Timestamp) -> (r: Vec<TranscriptEntry>)
    ensures
        r.deep_view() == in_time_order(all_entries(messages.deep_view(), now)),
{
    let ghost all = messages.deep_view();
    let mut entries: Vec<TranscriptEntry> = Vec::new();
    let mut i: usize = 0;
    assert(all.take(0) =~= Seq::<(JsonView, Seq<JsonView>)>::empty());
    assert(entries.deep_view() =~= Seq::<EntryView>::empty());
    while i < messages.len()
        invariant
            i <= messages.len(),
            all == messages.deep_view(),
            entries.deep_view() == all_entries(all.take(i as int), now),
        decreases messages.len() - i,
    {
        assert(all.take(i + 1).drop_last() =~= all.take(i as int));
        assert(all.take(i + 1).last() == messages@[i as int]@);
        let ghost known = entries.deep_view();
        let m = &messages[i];
        match role_of(m.message.get_str("role")) {
            Some(role) => {
                let ms: i64 = match m.message.get("time") {
                    Some(time) => match time.get_i64("created") {
                        Some(ms) => ms,
                        None => 0,
                    },
                    None => 0,
                };
                push_parts(&m.parts, role, instant_or(ms, now), &mut entries);
            },
            None => {
                assert(known + Seq::<EntryView>::empty() =~= known);
            },
        }
        i += 1;
    }
    assert(all.take(i as int) =~= all);
    sort_by_time(entries)
}

/// Why a session has no conversation to show.
pub open spec fn no_messages(session_id: Seq<char>) -> Seq<char> {
    "No messages found for session: "@ + session_id
}

fn no_messages_text(session_id: &str) -> (r: String)
    ensures
        r@ == no_messages(session_id@),
{
    let mut s = "No messages found for session: ".to_string();
    s.append(session_id);
    s
}

/// A result that is a conversation or an error text.
pub open spec fn outcome(r: Result<Vec<TranscriptEntry>, String>) -> Result<
    Seq<EntryView>,
    Seq<char>,
> {
    match r {
        Ok(entries) => Ok(entries.deep_view()),
        Err(e) => Err(e@),
    }
}

/// The conversation of a session in the database, given its messages. It is an
/// error that there are none.
pub fn parse_transcript_from_conn(session_id: &str, messages: &Vec<StoredMessage>) -> (r: Result<
    Vec<TranscriptEntry>,
    String,
>)
    ensures
        messages@.len() == 0 ==> outcome(r) == Err::<Seq<EntryView>, _>(no_messages(session_id@)),
        messages@.len() > 0 ==> exists|now: Timestamp|
            in_calendar(now) && outcome(r) == Ok::<_, Seq<char>>(
                in_time_order(#[trigger] all_entries(messages.deep_view(), now)),
            ),
{
    if messages.len() == 0 {
        return Err(no_messages_text(session_id));
    }
    let now = utc_now();
    Ok(transcript_at(messages, now))
}

/// What a message file says of its message: the identifier, the name of the role,
/// where it has one, and the time of sending in milliseconds.
#[derive(Debug)]
pub struct MessageMeta {
    pub id: String,
    pub role: Option<String>,
    pub created: i64,
}

/// A message file, and the texts of its part files in the order of their names.
pub struct FileMessage {
    pub meta: MessageMeta,
    pub part_texts: Vec<String>,
}

/// The content of a message file with its parts.
pub ghost struct FileMessageView {
    pub id: Seq<char>,
    pub role: Option<Seq<char>>,
    pub created: int,
    pub part_texts: Seq<Seq<char>>,
}

impl View for FileMessage {
    type V = FileMessageView;

    open spec fn view(&self) -> FileMessageView {
        FileMessageView {
            id: self.meta.id@,
            role: self.meta.role.deep_view(),
            created: self.meta.created as int,
            part_texts: self.part_texts.deep_view(),
        }
    }
}

impl DeepView for FileMessage {
    type V = FileMessageView;

    open spec fn deep_view(&self) -> FileMessageView {
        self.view()
    }
}

/// The entries of a message file: none where its role is not known. A part file
/// that is not JSON is passed over.
pub open spec fn file_entries(m: FileMessageView, now: Timestamp) -> Seq<EntryView> {
    let sent = if millis_in_calendar(m.created) {
        instant_of_millis(m.created)
    } else {
        now
    };
    match role_named(m.role) {
        Some(role) => parts_entries(documents(m.part_texts), role, sent),
        None => Seq::empty(),
    }
}

/// The entries of message files, in their order.
pub open spec fn all_file_entries(messages: Seq<FileMessageView>, now: Timestamp) -> Seq<EntryView>
    decreases messages.len(),
{
    if messages.len() == 0 {
        Seq::empty()
    } else {
        all_file_entries(messages.drop_last(), now) + file_entries(messages.last(), now)
    }
}

/// The conversation in message files, in time order. `now` stands for a time of
/// sending that the calendar does not have.
pub fn file_transcript_at(messages: &Vec<FileMessage>, now: Timestamp) -> (r: Vec<TranscriptEntry>)
    ensures
        r.deep_view() == in_time_order(all_file_entries(messages.deep_view(), now)),
{
    let ghost all = messages.deep_view();
    let mut entries: Vec<TranscriptEntry> = Vec::new();
    let mut i: usize = 0;
    assert(all.take(0) =~= Seq::<FileMessageView>::empty());
    assert(entries.deep_view() =~= Seq::<EntryView>::empty());
    while i < messages.len()
        invariant
            i <= messages.len(),
            all == messages.deep_view(),
            entries.deep_view() == all_file_entries(all.take(i as int), now),
        decreases messages.len() - i,
    {
        assert(all.take(i + 1).drop_last() =~= all.take(i as int));
        assert(all.take(i + 1).last() == messages@[i as int]@);
        let m = &messages[i];
        let name = match &m.meta.role {
            Some(n) => Some(n.as_str()),
            None => None,
        };
        match role_of(name) {
            Some(role) => {
                let parts = parse_rows(&m.part_texts);
                push_parts(&parts, role, instant_or(m.meta.created, now), &mut entries);
            },
            None => {
                assert(entries.deep_view() + Seq::<EntryView>::empty() =~= entries.deep_view());
            },
        }
        i += 1;
    }
    assert(all.take(i as int) =~= all);
    sort_by_time(entries)
}

/// The conversation of a session in files, given its messages: nothing where it
/// has no message directory, which is an error.
pub fn parse_transcript_from_dir(session_id: &str, messages: Option<&Vec<FileMessage>>) -> (r:
    Result<Vec<TranscriptEntry>, String>)
    ensures
        messages is None ==> outcome(r) == Err::<Seq<EntryView>, _>(no_messages(session_id@)),
        messages matches Some(m) ==> exists|now: Timestamp|
            in_calendar(now) && outcome(r) == Ok::<_, Seq<char>>(
                in_time_order(#[trigger] all_file_entries(m.deep_view(), now)),
            ),
{
    match messages {
        Some(m) => {
            let now = utc_now();
            Ok(file_transcript_at(m, now))
        },
        None => Err(no_messages_text(session_id)),
    }
}

/// Whether two entries are the same: of one millisecond, role, type and content.
pub open spec fn is_same_entry(a: EntryView, b: EntryView) -> bool {
    &&& a.timestamp.spec_millis() == b.timestamp.spec_millis()
    &&& a.role == b.role
    &&& a.entry_type == b.entry_type
    &&& a.content == b.content
}

/// Whether an entry is among others.
pub open spec fn is_among(e: EntryView, others: Seq<EntryView>) -> bool {
    exists|i: int| 0 <= i < others.len() && is_same_entry(e, #[trigger] others[i])
}

/// The entries that are not among others, in order.
pub open spec fn not_among(entries: Seq<EntryView>, others: Seq<EntryView>) -> Seq<EntryView>
    decreases entries.len(),
{
    if entries.len() == 0 {
        Seq::empty()
    } else if is_among(entries.last(), others) {
        not_among(entries.drop_last(), others)
    } else {
        not_among(entries.drop_last(), others).push(entries.last())
    }
}

/// All entries of the database, and those of the files that it does not have, in
/// time order.
pub open spec fn merged_entries(file: Seq<EntryView>, db: Seq<EntryView>) -> Seq<EntryView> {
    in_time_order(db + not_among(file, db))
}

fn whole_millis(t: Timestamp) -> (r: i128)
    ensures
        r == t.spec_millis(),
{
    t.secs as i128 * 1000 + (t.nanos / 1_000_000) as i128
}

fn is_in(e: &TranscriptEntry, others: &Vec<TranscriptEntry>, upto: usize) -> (r: bool)
    requires
        upto <= others.len(),
    ensures
        r == is_among(e@, others.deep_view().take(upto as int)),
{
    let ghost all = others.deep_view().take(upto as int);
    let mut i: usize = 0;
    while i < upto
        invariant
            i <= upto <= others.len(),
            all == others.deep_view().take(upto as int),
            forall|j: int| 0 <= j < i ==> !is_same_entry(e@, #[trigger] all[j]),
        decreases upto - i,
    {
        let o = &others[i];
        assert(all[i as int] == o@);
        if whole_millis(e.timestamp) == whole_millis(o.timestamp) && e.role == o.role
            && e.entry_type == o.entry_type && str_eq(e.content.as_str(), o.content.as_str()) {
            return true;
        }
        i += 1;
    }
    false
}

/// Merges the entries of the files into those of the database. An entry of both
/// is taken from the database.
pub fn merge_transcript_entries(
    file_entries: Vec<TranscriptEntry>,
    db_entries: Vec<TranscriptEntry>,
) -> (r: Vec<TranscriptEntry>)
    ensures
        r.deep_view() == merged_entries(file_entries.deep_view(), db_entries.deep_view()),
{
    let ghost all = file_entries.deep_view();
    let ghost db = db_entries.deep_view();
    let known: usize = db_entries.len();
    let mut rest = file_entries;
    let mut merged = db_entries;
    let ghost mut done: int = 0;
    assert(all.take(0) =~= Seq::<EntryView>::empty());
    assert(db + Seq::<EntryView>::empty() =~= db);
    assert(all.skip(0) =~= all);
    while rest.len() > 0
        invariant
            0 <= done <= all.len(),
            rest.deep_view() == all.skip(done),
            known == db.len(),
            merged.deep_view() == db + not_among(all.take(done), db),
        decreases rest.len(),
    {
        let ghost left = rest.deep_view();
        assert(left.len() == all.len() - done);
        let e = rest.remove(0);
        assert(merged.deep_view().take(known as int) =~= db);
        assert(merged.deep_view().len() == merged.len());
        assert(e@ == left[0]);
        assert(rest.deep_view() =~= left.skip(1));
        assert(left.skip(1) =~= all.skip(done + 1));
        assert(all.take(done + 1).drop_last() =~= all.take(done));
        assert(all.take(done + 1).last() == e@);
        let ghost before = merged.deep_view();
        if !is_in(&e, &merged, known) {
            let ghost view = e@;
            merged.push(e);
            assert(merged.deep_view() =~= before.push(view));
            assert(before.push(view) =~= db + not_among(all.take(done), db).push(view));
        }
        proof {
            done = done + 1;
        }
    }
    assert(all.take(done) =~= all);
    sort_by_time(merged)
}

proof fn not_among_properties(entries: Seq<EntryView>, others: Seq<EntryView>)
    ensures
        forall|e: EntryView|
            #[trigger] not_among(entries, others).contains(e) <==> entries.contains(e) && !is_among(
                e,
                others,
            ),
    decreases entries.len(),
{
    if entries.len() > 0 {
        let init = entries.drop_last();
        not_among_properties(init, others);
        assert forall|e: EntryView|
            #[trigger] not_among(entries, others).contains(e) <==> entries.contains(e) && !is_among(
                e,
                others,
            ) by {
            let kept = not_among(init, others);
            assert(entries =~= init.push(entries.last()));
            vstd::seq_lib::lemma_seq_contains_after_push(init, entries.last(), e);
            vstd::seq_lib::lemma_seq_contains_after_push(kept, entries.last(), e);
            assert(kept.contains(e) <==> init.contains(e) && !is_among(e, others));
        }
    }
}

/// Merging keeps every entry of the database, keeps an entry of the files exactly
/// where the database has no such entry, invents nothing, and puts all in time
/// order.
pub proof fn merging_loses_nothing(file: Seq<EntryView>, db: Seq<EntryView>)
    ensures
        forall|e: EntryView|
            #[trigger] merged_entries(file, db).contains(e) <==> db.contains(e) || (file.contains(e)
                && !is_among(e, db)),
        merged_entries(file, db).to_multiset() == db.to_multiset().add(
            not_among(file, db).to_multiset(),
        ),
        runs_forward(merged_entries(file, db)),
{
    let both = db + not_among(file, db);
    let r = merged_entries(file, db);
    time_order_runs_forward(both);
    not_among_properties(file, db);
    vstd::seq_lib::lemma_multiset_commutative(db, not_among(file, db));
    assert forall|e: EntryView|
        #[trigger] r.contains(e) <==> db.contains(e) || (file.contains(e) && !is_among(e, db)) by {
        broadcast use vstd::seq_lib::group_to_multiset_ensures;

        assert(r.contains(e) <==> r.to_multiset().count(e) > 0);
        assert(both.contains(e) <==> both.to_multiset().count(e) > 0);
        vstd::seq_lib::lemma_seq_concat_contains_all_elements(db, not_among(file, db), e);
        assert(not_among(file, db).contains(e) <==> file.contains(e) && !is_among(e, db));
    }
}

/// Merging a conversation with itself adds nothing.
pub proof fn merging_is_idempotent(entries: Seq<EntryView>)
    ensures
        merged_entries(entries, entries) == in_time_order(entries),
{
    nothing_beyond(entries, entries);
    assert(entries + Seq::<EntryView>::empty() =~= entries);
}

proof fn nothing_beyond(some: Seq<EntryView>, all: Seq<EntryView>)
    requires
        forall|i: int| 0 <= i < some.len() ==> all.contains(#[trigger] some[i]),
    ensures
        not_among(some, all) == Seq::<EntryView>::empty(),
    decreases some.len(),
{
    if some.len() > 0 {
        let init = some.drop_last();
        assert forall|i: int| 0 <= i < init.len() implies all.contains(#[trigger] init[i]) by {
            assert(init[i] == some[i]);
        }
        nothing_beyond(init, all);
        let e = some[some.len() - 1];
        assert(all.contains(e));
        let k = choose|k: int| 0 <= k < all.len() && all[k] == e;
        assert(is_same_entry(e, all[k]));
    }
}

/// The conversation of a session from what its files and its database gave: both
/// merged where both have entries, else the one that has any; where neither has,
/// what the files gave.
pub open spec fn chosen(file: Result<Seq<EntryView>, Seq<char>>, db: Option<Seq<EntryView>>) -> Result<
    Seq<EntryView>,
    Seq<char>,
> {
    match (file, db) {
        (Ok(f), Some(d)) => if f.len() > 0 && d.len() > 0 {
            Ok(merged_entries(f, d))
        } else if d.len() > 0 {
            Ok(d)
        } else {
            Ok(f)
        },
        (Err(e), Some(d)) => if d.len() > 0 {
            Ok(d)
        } else {
            Err(e)
        },
        (f, None) => f,
    }
}

/// The conversation of a session from what its files and its database gave. A
/// database that cannot be read gives nothing.
pub fn parse_transcript(
    file: Result<Vec<TranscriptEntry>, String>,
    db: Option<Vec<TranscriptEntry>>,
) -> (r: Result<Vec<TranscriptEntry>, String>)
    ensures
        outcome(r) == chosen(outcome(file), db.deep_view()),
{
    match (file, db) {
        (Ok(f), Some(d)) => if f.len() > 0 && d.len() > 0 {
            Ok(merge_transcript_entries(f, d))
        } else if d.len() > 0 {
            Ok(d)
        } else {
            Ok(f)
        },
        (Err(e), Some(d)) => if d.len() > 0 {
            Ok(d)
        } else {
            Err(e)
        },
        (f, None) => f,
    }
}

proof fn kinds_of_parts_differ()
    ensures
        "text"@ != "tool"@,
        "text"@ != "reasoning"@,
        "text"@ != "user"@,
        "text"@ != "assistant"@,
        "text"@ != "system"@,
        "tool"@ != "reasoning"@,
        "tool"@ != "user"@,
        "tool"@ != "assistant"@,
        "tool"@ != "system"@,
        "reasoning"@ != "user"@,
        "reasoning"@ != "assistant"@,
        "reasoning"@ != "system"@,
        "user"@ != "assistant"@,
        "user"@ != "system"@,
        "assistant"@ != "system"@,
{
    reveal_strlit("text");
    reveal_strlit("tool");
    reveal_strlit("reasoning");
    reveal_strlit("user");
    reveal_strlit("assistant");
    reveal_strlit("system");
    assert("text"@.len() == 4);
    assert("tool"@.len() == 4);
    assert("reasoning"@.len() == 9);
    assert("user"@.len() == 4);
    assert("assistant"@.len() == 9);
    assert("system"@.len() == 6);
    assert("text"@[1] != "tool"@[1]);
    assert("text"@[0] != "user"@[0]);
    assert("tool"@[0] != "user"@[0]);
    assert("reasoning"@[0] != "assistant"@[0]);
}

/// A role is read by its name, and no other name is a role.
pub proof fn roles_are_read_by_name(role: Role, name: Seq<char>)
    ensures
        role_named(Some(role_name(role))) == Some(role),
        role_named(Some(name)) matches Some(r) ==> role_name(r) == name,
        role_named(None) is None,
{
    kinds_of_parts_differ();
}

/// What is said and what is thought is the text of its part, whole, unless it is blank; a
/// part of any other kind than these and a tool says nothing.
pub proof fn parts_say_what_they_hold(part: JsonView, role: Role, sent: Timestamp)
    ensures
        forall|i: int|
            0 <= i < part_entries(part, role, sent).len() ==> (#[trigger] part_entries(
                part,
                role,
                sent,
            )[i]).role == role,
        part.get_str("type"@) == Some("text"@) || part.get_str("type"@) == Some("reasoning"@) ==> {
            let r = part_entries(part, role, sent);
            &&& r.len() <= 1
            &&& r.len() == 1 <==> (part.get_str("text"@) matches Some(t) && trimmed(t).len() > 0)
            &&& r.len() == 1 ==> {
                &&& Some(r[0].content) == part.get_str("text"@)
                &&& r[0].timestamp == part_time(part, "start"@, sent)
                &&& r[0].tool_name is None
                &&& r[0].tool_input is None
                &&& r[0].entry_type == if part.get_str("type"@) == Some("text"@) {
                    EntryType::Text
                } else {
                    EntryType::Thinking
                }
            }
        },
        part.get_str("type"@) != Some("text"@) && part.get_str("type"@) != Some("reasoning"@)
            && part.get_str("type"@) != Some("tool"@) ==> part_entries(part, role, sent).len() == 0,
{
    kinds_of_parts_differ();
}

/// A tool part is a use of the tool, with what it was given, and behind it a result, with
/// what came out, as of when the tool was done.
pub proof fn tools_are_used_and_answer(part: JsonView, role: Role, sent: Timestamp)
    requires
        part.get_str("type"@) == Some("tool"@),
    ensures
        ({
            let r = part_entries(part, role, sent);
            let state = part.get("state"@);
            &&& r.len() == 2
            &&& r[0].entry_type == EntryType::ToolUse
            &&& r[1].entry_type == EntryType::ToolResult
            &&& r[0].timestamp == part_time(part, "start"@, sent)
            &&& r[1].timestamp == part_time(part, "end"@, r[0].timestamp)
            &&& (part.get_str("tool"@) is Some ==> r[0].tool_name == part.get_str("tool"@))
            &&& (part.get_str("tool"@) is None ==> r[0].tool_name == Some("unknown"@))
            &&& r[0].content.len() == 0
            &&& (state is Some ==> r[0].tool_input == state->0.get("input"@))
            &&& (state is None ==> r[0].tool_input is None)
            &&& (state is Some && state->0.get_str("output"@) is Some ==> Some(r[1].content)
                == state->0.get_str("output"@))
            &&& (state is None || state->0.get_str("output"@) is None ==> r[1].content.len() == 0)
            &&& r[1].tool_name is None
            &&& r[1].tool_input is None
        }),
{
    kinds_of_parts_differ();
}

/// A part is dated by its own clock where it has one that can be read, and by the time
/// given otherwise.
pub proof fn parts_are_dated_by_their_clock(part: JsonView, which: Seq<char>, otherwise: Timestamp)
    ensures
        (part.get("time"@) matches Some(time) && (time.get_i64(which) matches Some(ms)
            && -8_334_601_228_800_000 <= ms <= 8_210_266_876_799_999)) ==> part_time(
            part,
            which,
            otherwise,
        ).spec_millis() == part.get("time"@)->0.get_i64(which)->0,
        part.get("time"@) is None || part.get("time"@)->0.get_i64(which) is None ==> part_time(
            part,
            which,
            otherwise,
        ) == otherwise,
{
    match part.get("time"@) {
        Some(time) => match time.get_i64(which) {
            Some(ms) => {
                if millis_in_calendar(ms as int) {
                    millis_round_trip(ms as int);
                }
            },
            None => {},
        },
        None => {},
    }
}

/// A message was sent when it says that it was created.
pub proof fn messages_are_dated_by_their_making(message: JsonView, now: Timestamp)
    ensures
        (message.get("time"@) matches Some(time) && (time.get_i64("created"@) matches Some(ms)
            && -8_334_601_228_800_000 <= ms <= 8_210_266_876_799_999)) ==> sent_at(
            message,
            now,
        ).spec_millis() == message.get("time"@)->0.get_i64("created"@)->0,
        message.get("time"@) is None || message.get("time"@)->0.get_i64("created"@) is None
            ==> sent_at(message, now).spec_millis() == 0,
{
    millis_round_trip(0);
    match message.get("time"@) {
        Some(time) => match time.get_i64("created"@) {
            Some(ms) => {
                if millis_in_calendar(ms as int) {
                    millis_round_trip(ms as int);
                }
            },
            None => {},
        },
        None => {},
    }
}

/// The parts of a message are read one after the other.
pub proof fn parts_are_read_in_order(
    some: Seq<JsonView>,
    part: JsonView,
    more: Seq<JsonView>,
    role: Role,
    sent: Timestamp,
)
    ensures
        parts_entries(some + seq![part] + more, role, sent) == parts_entries(some, role, sent)
            + part_entries(part, role, sent) + parts_entries(more, role, sent),
    decreases more.len(),
{
    let all = some + seq![part] + more;
    if more.len() == 0 {
        assert(all.drop_last() =~= some);
        assert(parts_entries(more, role, sent) =~= Seq::<EntryView>::empty());
    } else {
        parts_are_read_in_order(some, part, more.drop_last(), role, sent);
        assert(all.drop_last() =~= some + seq![part] + more.drop_last());
    }
}

/// The messages of a session are read one after the other, each by the role that it
/// names; one without a known role says nothing.
pub proof fn messages_are_read_in_order(
    some: Seq<(JsonView, Seq<JsonView>)>,
    message: (JsonView, Seq<JsonView>),
    role: Role,
    now: Timestamp,
)
    ensures
        message.0.get_str("role"@) == Some(role_name(role)) ==> all_entries(some.push(message), now)
            == all_entries(some, now) + parts_entries(message.1, role, sent_at(message.0, now)),
        (forall|r: Role| message.0.get_str("role"@) != Some(#[trigger] role_name(r)))
            ==> all_entries(some.push(message), now) == all_entries(some, now),
{
    kinds_of_parts_differ();
    assert(some.push(message).drop_last() =~= some);
    assert(role_name(Role::User) == "user"@);
    assert(role_name(Role::Assistant) == "assistant"@);
    assert(role_name(Role::System) == "system"@);
    assert(all_entries(some, now) + Seq::<EntryView>::empty() =~= all_entries(some, now));
}

/// The messages of files are read in the same way, as of when they say they were made.
pub proof fn messages_in_files_are_read_in_order(
    some: Seq<FileMessageView>,
    message: FileMessageView,
    role: Role,
    now: Timestamp,
)
    requires
        message.role == Some(role_name(role)),
        -8_334_601_228_800_000 <= message.created <= 8_210_266_876_799_999,
    ensures
        all_file_entries(some.push(message), now) == all_file_entries(some, now) + parts_entries(
            documents(message.part_texts),
            role,
            instant_of_millis(message.created),
        ),
        instant_of_millis(message.created).spec_millis() == message.created,
{
    kinds_of_parts_differ();
    millis_round_trip(message.created);
    assert(some.push(message).drop_last() =~= some);
}

/// An entry repeats another where both are of one millisecond, one role and one kind, and
/// say the same.
pub proof fn repeats_agree_in_time_role_kind_and_text(a: EntryView, b: EntryView)
    requires
        a.timestamp.nanos < 1_000_000_000,
        b.timestamp.nanos < 1_000_000_000,
    ensures
        is_same_entry(a, b) ==> a.timestamp.secs == b.timestamp.secs && a.role == b.role
            && a.entry_type == b.entry_type && a.content == b.content,
        a.timestamp == b.timestamp && a.role == b.role && a.entry_type == b.entry_type && a.content
            == b.content ==> is_same_entry(a, b),
        is_same_entry(a, b) == is_same_entry(b, a),
{
}

/// Where only one of the two stores holds anything, it is read alone; where both do,
/// everything that the database holds is read.
pub proof fn stores_are_read_together(
    file: Result<Seq<EntryView>, Seq<char>>,
    db: Option<Seq<EntryView>>,
)
    ensures
        db is None ==> chosen(file, db) == file,
        db matches Some(d) ==> (d.len() == 0 ==> chosen(file, db) == file),
        db matches Some(d) ==> (d.len() > 0 && (file matches Err(_)) ==> chosen(file, db) == Ok::<
            _,
            Seq<char>,
        >(d)),
        db matches Some(d) ==> (file matches Ok(f) ==> (d.len() > 0 && f.len() == 0 ==> chosen(
            file,
            db,
        ) == Ok::<_, Seq<char>>(d))),
        db matches Some(d) ==> (file matches Ok(f) ==> (d.len() > 0 && f.len() > 0 ==> {
            &&& chosen(file, db) is Ok
            &&& forall|e: EntryView| d.contains(e) ==> #[trigger] chosen(file, db)->Ok_0.contains(e)
        })),
{
    match (file, db) {
        (Ok(f), Some(d)) => {
            merging_loses_nothing(f, d);
        },
        _ => {},
    }
}

} // verus!
