//! What a session file of Pi says of its session, and the messages in it.

use crate::json::{Json, JsonView, json_in, json_text, parse_json, print_json};
use crate::opencode::parts::{
    file_path_matches, is_kind, names_file, printed_contains, text_contains,
};
use crate::opencode::transcript::text_or;
use crate::order::{
    Ranking, sorted_by, sorting_by_sorts, sorting_commutes, stable_sort, stably_sorted,
};
use crate::paths::{file_name, name_of};
use crate::pi::identity::{derive_parent_id, parent_session};
use crate::pi::jsonl::{
    block_texts, entries_in, entry_time, entry_timestamp, first_told, is_blank, last_told,
    message_in, message_of, on_one_line, on_one_line_each, parse_entries, put_each_on_one_line,
    put_on_one_line, texts_of_blocks, the_first_that_tells_counts, the_last_that_tells_counts,
    titled, truncate_title,
};
use crate::pi::session_index::{first_filled, header_facts, read_header};
use crate::provider::{Message, MessageView, Provider, TokenUsage};
use crate::text::{
    chars_of, contains, contains_text, join, joined, lines, lines_of, signed_decimal,
    signed_decimal_of, str_eq, trimmed,
};
use crate::time::Timestamp;
use vstd::prelude::*;

verus! {

/// What is known of a session of Pi.
#[derive(Clone, Debug)]
pub struct SessionInfo {
    pub session_id: String,
    pub started_at: Timestamp,
    pub updated_at: Timestamp,
    /// The directory that the header names.
    pub project_dir: String,
    pub title: String,
    /// The session below whose directory the file lies.
    pub parent_id: Option<String>,
}

/// The content of what is known of a session.
pub ghost struct InfoView {
    pub session_id: Seq<char>,
    pub started_at: Timestamp,
    pub updated_at: Timestamp,
    pub project_dir: Seq<char>,
    pub title: Seq<char>,
    pub parent_id: Option<Seq<char>>,
}

impl View for SessionInfo {
    type V = InfoView;

    open spec fn view(&self) -> InfoView {
        InfoView {
            session_id: self.session_id@,
            started_at: self.started_at,
            updated_at: self.updated_at,
            project_dir: self.project_dir@,
            title: self.title@,
            parent_id: self.parent_id.deep_view(),
        }
    }
}

impl DeepView for SessionInfo {
    type V = InfoView;

    open spec fn deep_view(&self) -> InfoView {
        self.view()
    }
}

/// The text of the content of a message: a text, or its blocks of text with a
/// space between, on one line.
pub open spec fn user_text(content: Option<JsonView>) -> Seq<char> {
    match content {
        Some(JsonView::Str(s)) => on_one_line(s),
        Some(JsonView::Array(blocks)) => joined(on_one_line_each(block_texts(blocks)), " "@),
        _ => Seq::empty(),
    }
}

/// The text of the content of a message, on one line.
pub fn extract_user_text(content: Option<&Json>) -> (r: String)
    ensures
        r@ == user_text(content.deep_view()),
{
    match content {
        Some(Json::Str(s)) => put_on_one_line(s.as_str()),
        Some(Json::Array(blocks)) => {
            assert(content.deep_view() == Some(JsonView::Array(blocks.deep_view()))) by {
                assert(content->0@->Array_0 =~= blocks.deep_view());
            }
            let texts = texts_of_blocks(blocks);
            join(&put_each_on_one_line(&texts), " ")
        },
        _ => String::new(),
    }
}

/// The title that an entry gives: the beginning of what a user wrote.
pub open spec fn entry_title(entry: JsonView) -> Option<Seq<char>> {
    match message_in(entry) {
        Some(m) => {
            let title = titled(user_text(m.get("content"@)));
            if m.get_str("role"@) == Some("user"@) && title.len() > 0 {
                Some(title)
            } else {
                None
            }
        },
        None => None,
    }
}

fn title_of_entry(entry: &Json) -> (r: Option<String>)
    ensures
        r.deep_view() == entry_title(entry@),
{
    match message_of(entry) {
        Some(m) => {
            let is_user = match m.get_str("role") {
                Some(role) => str_eq(role, "user"),
                None => false,
            };
            if !is_user {
                return None;
            }
            let title = truncate_title(extract_user_text(m.get("content")).as_str());
            if chars_of(title.as_str()).len() > 0 {
                Some(title)
            } else {
                None
            }
        },
        None => None,
    }
}

/// What the header and the entries behind the first line say of a session: the
/// header begins it, the last entry with a time ends it, and the first thing that
/// a user wrote gives the title.
pub open spec fn info_of(
    header: JsonView,
    started: Option<Timestamp>,
    entries: Seq<JsonView>,
    parent_id: Option<Seq<char>>,
) -> Option<InfoView> {
    match (header_facts(header), started) {
        (Some((session_id, project_dir)), Some(started_at)) => Some(
            InfoView {
                session_id,
                started_at,
                updated_at: match last_told(entries, |e: JsonView| entry_time(e)) {
                    Some(t) => t,
                    None => started_at,
                },
                project_dir,
                title: match first_told(entries, |e: JsonView| entry_title(e)) {
                    Some(t) => t,
                    None => Seq::empty(),
                },
                parent_id,
            },
        ),
        _ => None,
    }
}

/// The entry in the first line of a text that is not blank.
pub open spec fn first_entry(text: Seq<char>) -> Option<JsonView> {
    match first_filled(lines_of(text)) {
        Some(line) => json_in(line),
        None => None,
    }
}

/// What a session file says of its session, given where it lies below `base`.
pub open spec fn info_in(text: Seq<char>, path: Seq<char>, base: Seq<char>) -> Option<InfoView> {
    match first_entry(text) {
        Some(header) => {
            let lines = lines_of(text);
            info_of(
                header,
                entry_time(header),
                entries_in(lines.skip(1)),
                parent_session(path, base),
            )
        },
        None => None,
    }
}

/// The time of the last entry that has one.
pub fn last_time(entries: &Vec<Json>) -> (r: Option<Timestamp>)
    ensures
        r == last_told(entries.deep_view(), |e: JsonView| entry_time(e)),
{
    let ghost all = entries.deep_view();
    let ghost tell = |e: JsonView| entry_time(e);
    let mut found: Option<Timestamp> = None;
    let mut i: usize = 0;
    assert(all.take(0) =~= Seq::<JsonView>::empty());
    while i < entries.len()
        invariant
            i <= entries.len(),
            all == entries.deep_view(),
            tell == (|e: JsonView| entry_time(e)),
            found == last_told(all.take(i as int), tell),
        decreases entries.len() - i,
    {
        assert(all.take(i + 1).drop_last() =~= all.take(i as int));
        assert(all.take(i + 1).last() == entries@[i as int]@);
        match entry_timestamp(&entries[i]) {
            Some(t) => {
                found = Some(t);
            },
            None => {},
        }
        i += 1;
    }
    assert(all.take(i as int) =~= all);
    found
}

/// The first title that entries give.
pub fn first_title(entries: &Vec<Json>) -> (r: Option<String>)
    ensures
        r.deep_view() == first_told(entries.deep_view(), |e: JsonView| entry_title(e)),
{
    let ghost all = entries.deep_view();
    let ghost tell = |e: JsonView| entry_title(e);
    let mut found: Option<String> = None;
    let mut i: usize = 0;
    assert(all.take(0) =~= Seq::<JsonView>::empty());
    while i < entries.len()
        invariant
            i <= entries.len(),
            all == entries.deep_view(),
            tell == (|e: JsonView| entry_title(e)),
            found.deep_view() == first_told(all.take(i as int), tell),
        decreases entries.len() - i,
    {
        assert(all.take(i + 1).drop_last() =~= all.take(i as int));
        assert(all.take(i + 1).last() == entries@[i as int]@);
        if found.is_none() {
            found = title_of_entry(&entries[i]);
        }
        i += 1;
    }
    assert(all.take(i as int) =~= all);
    found
}

/// What the header and the entries behind the first line say of a session.
pub fn read_info(
    header: &Json,
    started: Option<Timestamp>,
    entries: &Vec<Json>,
    parent_id: Option<String>,
) -> (r: Option<SessionInfo>)
    ensures
        r.deep_view() == info_of(header@, started, entries.deep_view(), parent_id.deep_view()),
{
    match (read_header(header), started) {
        (Some((session_id, project_dir)), Some(started_at)) => {
            let updated_at = match last_time(entries) {
                Some(t) => t,
                None => started_at,
            };
            let title = match first_title(entries) {
                Some(t) => t,
                None => String::new(),
            };
            Some(
                SessionInfo { session_id, started_at, updated_at, project_dir, title, parent_id },
            )
        },
        _ => None,
    }
}

fn parse_first_entry(all: &Vec<String>) -> (r: Option<Json>)
    ensures
        r.deep_view() == (match first_filled(all.deep_view()) {
            Some(line) => json_in(line),
            None => None,
        }),
{
    let ghost view = all.deep_view();
    let mut i: usize = 0;
    assert(view.skip(0) == view);
    while i < all.len()
        invariant
            i <= all.len(),
            view == all.deep_view(),
            first_filled(view.skip(i as int)) == first_filled(view),
        decreases all.len() - i,
    {
        assert(view.skip(i as int)[0] == all@[i as int]@);
        assert(view.skip(i as int).skip(1) == view.skip(i + 1));
        if !is_blank(all[i].as_str()) {
            return parse_json(all[i].as_str());
        }
        i += 1;
    }
    None
}

/// What a session file says of its session: nothing where it does not begin with
/// a header that has an identifier and a time.
pub fn build_session_info(text: &str, path: &str, base: &str) -> (r: Option<SessionInfo>)
    ensures
        r.deep_view() == info_in(text@, path@, base@),
{
    let mut all = lines(text);
    let ghost views = all.deep_view();
    match parse_first_entry(&all) {
        Some(header) => {
            let started = entry_timestamp(&header);
            if all.len() > 0 {
                let _first = all.remove(0);
                assert(all.deep_view() =~= views.skip(1));
            } else {
                assert(all.deep_view() =~= views.skip(1));
            }
            let entries = parse_entries(&all);
            let parent_id = derive_parent_id(path, base);
            read_info(&header, started, &entries, parent_id)
        },
        None => None,
    }
}

/// Sessions by when they began.
pub struct ByStarted;

impl Ranking<SessionInfo> for ByStarted {
    open spec fn le(a: SessionInfo, b: SessionInfo) -> bool {
        a.started_at.spec_le(b.started_at)
    }

    fn leq(a: &SessionInfo, b: &SessionInfo) -> (r: bool) {
        a.started_at.le(b.started_at)
    }

    proof fn total(a: SessionInfo, b: SessionInfo) {
    }

    proof fn transitive(a: SessionInfo, b: SessionInfo, c: SessionInfo) {
    }
}

/// Sessions in the order in which they began.
pub fn sort_sessions(sessions: Vec<SessionInfo>) -> (r: Vec<SessionInfo>)
    ensures
        r@ == stably_sorted::<SessionInfo, ByStarted>(sessions@),
{
    stable_sort::<SessionInfo, ByStarted>(sessions)
}

/// Whether a session file is the one of a session: its name has the identifier,
/// or it is a sub-agent's file whose header has it.
pub open spec fn is_file_of(name: Seq<char>, header: Option<JsonView>, id: Seq<char>) -> bool {
    contains_text(name, id) || (name == "session.jsonl"@ && (header matches Some(h) && h.get_str(
        "id"@,
    ) == Some(id)))
}

/// Whether the first entry of a session file names a session.
pub fn header_names(header: Option<Json>, session_id: &str) -> (r: bool)
    ensures
        r == (header.deep_view() matches Some(h) && h.get_str("id"@) == Some(session_id@)),
{
    match header {
        Some(h) => match h.get_str("id") {
            Some(id) => str_eq(id, session_id),
            None => false,
        },
        None => false,
    }
}

/// Whether a file may be found to be the one of a session, or not, given what
/// `read` may give of it.
pub open spec fn may_be_found<R: Fn(&str) -> Option<String>>(
    read: R,
    path: Seq<char>,
    id: Seq<char>,
    answer: bool,
) -> bool {
    let name = text_or(name_of(path), Seq::empty());
    if contains_text(name, id) {
        answer
    } else if name != "session.jsonl"@ {
        !answer
    } else {
        exists|p: &str, text: Option<String>| #[trigger]
            call_ensures(read, (p,), text) && p@ == path && answer == is_file_of(
                name,
                match text {
                    Some(t) => first_entry(t@),
                    None => None,
                },
                id,
            )
    }
}

/// The first of session files that is the one of a session. `read` gives the text
/// of a file, which is asked for only where the name does not tell.
pub fn find_session_file<R: Fn(&str) -> Option<String>>(
    paths: &Vec<String>,
    session_id: &str,
    read: R,
) -> (r: Option<String>)
    requires
        forall|p: &str| call_requires(read, (p,)),
    ensures
        match r {
            Some(found) => exists|k: int|
                {
                    &&& 0 <= k < paths@.len()
                    &&& found@ == (#[trigger] paths@[k])@
                    &&& may_be_found(read, found@, session_id@, true)
                    &&& forall|j: int|
                        0 <= j < k ==> may_be_found(
                            read,
                            (#[trigger] paths@[j])@,
                            session_id@,
                            false,
                        )
                },
            None => forall|j: int|
                0 <= j < paths@.len() ==> may_be_found(
                    read,
                    (#[trigger] paths@[j])@,
                    session_id@,
                    false,
                ),
        },
{
    let mut i: usize = 0;
    while i < paths.len()
        invariant
            i <= paths.len(),
            forall|p: &str| call_requires(read, (p,)),
            forall|j: int|
                0 <= j < i ==> may_be_found(read, (#[trigger] paths@[j])@, session_id@, false),
        decreases paths.len() - i,
    {
        let path = paths[i].as_str();
        let name = match file_name(path) {
            Some(n) => n,
            None => String::new(),
        };
        let here = if contains(name.as_str(), session_id) {
            true
        } else if !str_eq(name.as_str(), "session.jsonl") {
            false
        } else {
            match read(path) {
                Some(text) => {
                    let all = lines(text.as_str());
                    header_names(parse_first_entry(&all), session_id)
                },
                None => false,
            }
        };
        assert(may_be_found(read, paths@[i as int]@, session_id@, here));
        if here {
            return Some(paths[i].clone());
        }
        i += 1;
    }
    None
}

/// Whether a block of a message contains a text: in its text, its thought, the
/// name of its tool or the arguments of the call.
pub open spec fn block_contains(block: JsonView, needle: Seq<char>) -> bool {
    let kind = block.get_str("type"@);
    if kind == Some("text"@) {
        text_contains(block.get_str("text"@), needle)
    } else if kind == Some("thinking"@) {
        text_contains(block.get_str("thinking"@), needle)
    } else if kind == Some("toolCall"@) {
        text_contains(block.get_str("name"@), needle) || printed_contains(
            block.get("arguments"@),
            needle,
        )
    } else {
        false
    }
}

fn has_text(t: Option<&str>, needle: &str) -> (r: bool)
    ensures
        r == text_contains(t.deep_view(), needle@),
{
    match t {
        Some(s) => contains(s, needle),
        None => false,
    }
}

/// Whether a block of a message contains a text.
pub fn content_block_contains(block: &Json, needle: &str) -> (r: bool)
    ensures
        r == block_contains(block@, needle@),
{
    if is_kind(block, "text") {
        has_text(block.get_str("text"), needle)
    } else if is_kind(block, "thinking") {
        has_text(block.get_str("thinking"), needle)
    } else if is_kind(block, "toolCall") {
        if has_text(block.get_str("name"), needle) {
            return true;
        }
        match block.get("arguments") {
            Some(a) => contains(print_json(a).as_str(), needle),
            None => false,
        }
    } else {
        false
    }
}

/// Whether one of the blocks contains a text.
pub open spec fn any_block_contains(blocks: Seq<JsonView>, needle: Seq<char>) -> bool {
    exists|i: int| 0 <= i < blocks.len() && block_contains(#[trigger] blocks[i], needle)
}

/// Whether a message contains a text.
pub open spec fn message_has(message: JsonView, needle: Seq<char>) -> bool {
    match message.get("content"@) {
        Some(JsonView::Str(s)) => contains_text(s, needle),
        Some(JsonView::Array(blocks)) => any_block_contains(blocks, needle),
        _ => false,
    }
}

/// Whether a message contains a text.
pub fn message_contains(message: &Json, needle: &str) -> (r: bool)
    ensures
        r == message_has(message@, needle@),
{
    match message.get("content") {
        Some(Json::Str(s)) => contains(s.as_str(), needle),
        Some(Json::Array(blocks)) => {
            let ghost all = blocks.deep_view();
            assert(message@.get("content"@)->0->Array_0 =~= all);
            let mut i: usize = 0;
            while i < blocks.len()
                invariant
                    i <= blocks.len(),
                    all == blocks.deep_view(),
                    message@.get("content"@) == Some(JsonView::Array(all)),
                    forall|j: int| 0 <= j < i ==> !block_contains(#[trigger] all[j], needle@),
                decreases blocks.len() - i,
            {
                assert(all[i as int] == blocks@[i as int]@);
                if content_block_contains(&blocks[i], needle) {
                    assert(any_block_contains(all, needle@));
                    return true;
                }
                i += 1;
            }
            false
        },
        _ => false,
    }
}

/// Whether a line is a message that contains a text.
pub open spec fn line_has(line: Seq<char>, needle: Seq<char>) -> bool {
    json_in(line) matches Some(entry) && (message_in(entry) matches Some(m) && message_has(
        m,
        needle,
    ))
}

fn line_contains(line: &str, needle: &str) -> (r: bool)
    ensures
        r == line_has(line@, needle@),
{
    match parse_json(line) {
        Some(entry) => match message_of(&entry) {
            Some(m) => message_contains(m, needle),
            None => false,
        },
        None => false,
    }
}

/// Whether a session file has a text in one of its messages.
pub open spec fn file_has(text: Seq<char>, needle: Seq<char>) -> bool {
    exists|i: int|
        0 <= i < lines_of(text).len() && line_has(#[trigger] lines_of(text)[i], needle)
}

/// Whether a session file has a text in one of its messages.
pub fn file_contains_text(text: &str, needle: &str) -> (r: bool)
    ensures
        r == file_has(text@, needle@),
{
    let all = lines(text);
    let ghost views = all.deep_view();
    let mut i: usize = 0;
    while i < all.len()
        invariant
            i <= all.len(),
            views == all.deep_view(),
            views == lines_of(text@),
            forall|j: int| 0 <= j < i ==> !line_has(#[trigger] views[j], needle@),
        decreases all.len() - i,
    {
        assert(views[i as int] == all@[i as int]@);
        if line_contains(all[i].as_str(), needle) {
            return true;
        }
        i += 1;
    }
    false
}

/// Whether a line is an entry of the type `message`.
pub open spec fn is_message_line(line: Seq<char>) -> bool {
    trimmed(line).len() > 0 && (json_in(line) matches Some(entry) && entry.get_str("type"@) == Some(
        "message"@,
    ))
}

fn has_message_type(line: &str) -> (r: bool)
    ensures
        r == is_message_line(line@),
{
    if is_blank(line) {
        return false;
    }
    match parse_json(line) {
        Some(entry) => is_kind(&entry, "message"),
        None => false,
    }
}

/// The lines that are entries of the type `message`.
pub open spec fn message_lines(lines: Seq<Seq<char>>) -> Seq<Seq<char>> {
    lines.filter(|l: Seq<char>| is_message_line(l))
}

/// Whether one of the last `last_n` messages of a session file has a text.
pub open spec fn tail_has(text: Seq<char>, needle: Seq<char>, last_n: nat) -> bool {
    let messages = message_lines(lines_of(text));
    let start = if messages.len() > last_n {
        messages.len() - last_n
    } else {
        0
    };
    exists|i: int|
        start <= i < messages.len() && line_has(#[trigger] messages[i], needle)
}

/// Whether one of the last `last_n` messages of a session file has a text.
pub fn file_tail_contains_text(text: &str, needle: &str, last_n: usize) -> (r: bool)
    ensures
        r == tail_has(text@, needle@, last_n as nat),
{
    let all = lines(text);
    let ghost views = all.deep_view();
    let ghost kept = message_lines(views);
    let mut messages: Vec<String> = Vec::new();
    let mut i: usize = 0;
    proof {
        reveal(Seq::filter);
        assert(views.take(0) =~= Seq::<Seq<char>>::empty());
        assert(messages.deep_view() =~= Seq::<Seq<char>>::empty());
    }
    while i < all.len()
        invariant
            i <= all.len(),
            views == all.deep_view(),
            messages.deep_view() == message_lines(views.take(i as int)),
        decreases all.len() - i,
    {
        let ghost before = messages.deep_view();
        proof {
            reveal(Seq::filter);
            assert(views.take(i + 1).drop_last() =~= views.take(i as int));
            assert(views.take(i + 1).last() == all@[i as int]@);
        }
        if has_message_type(all[i].as_str()) {
            messages.push(all[i].clone());
            assert(messages.deep_view() =~= before.push(all@[i as int]@));
        }
        i += 1;
    }
    assert(views.take(i as int) =~= views);
    let n: usize = messages.len();
    let start: usize = if n > last_n {
        n - last_n
    } else {
        0
    };
    let mut i: usize = start;
    while i < messages.len()
        invariant
            start <= i <= messages.len(),
            n == messages.len(),
            start == (if n > last_n {
                n - last_n
            } else {
                0
            }),
            views == lines_of(text@),
            kept == message_lines(views),
            messages.deep_view() == kept,
            forall|j: int| start <= j < i ==> !line_has(#[trigger] kept[j], needle@),
        decreases messages.len() - i,
    {
        assert(kept[i as int] == messages@[i as int]@);
        if line_contains(messages[i].as_str(), needle) {
            return true;
        }
        i += 1;
    }
    false
}

proof fn kept_lines_are_lines(lines: Seq<Seq<char>>)
    ensures
        forall|i: int|
            0 <= i < message_lines(lines).len() ==> lines.contains(
                #[trigger] message_lines(lines)[i],
            ),
    decreases lines.len(),
{
    reveal(Seq::filter);
    if lines.len() > 0 {
        let rest = lines.drop_last();
        kept_lines_are_lines(rest);
        assert forall|i: int| 0 <= i < message_lines(lines).len() implies lines.contains(
            #[trigger] message_lines(lines)[i],
        ) by {
            if i < message_lines(rest).len() {
                let x = message_lines(rest)[i];
                assert(rest.contains(x));
                let k = choose|k: int| 0 <= k < rest.len() && rest[k] == x;
                assert(lines[k] == x);
            } else {
                assert(lines[lines.len() - 1] == lines.last());
            }
        }
    }
}

/// A search in more of the last messages finds at least as much, one in none finds
/// nothing, and none finds more than the search in the whole file.
pub proof fn more_messages_find_more(text: Seq<char>, needle: Seq<char>, n: nat, m: nat)
    requires
        n <= m,
    ensures
        tail_has(text, needle, n) ==> tail_has(text, needle, m),
        tail_has(text, needle, m) ==> file_has(text, needle),
        !tail_has(text, needle, 0),
{
    let lines = lines_of(text);
    let messages = message_lines(lines);
    kept_lines_are_lines(lines);
    if tail_has(text, needle, m) {
        let start = if messages.len() > m {
            messages.len() - m
        } else {
            0
        };
        let i = choose|i: int| start <= i < messages.len() && line_has(
            #[trigger] messages[i],
            needle,
        );
        assert(lines.contains(messages[i]));
        let k = choose|k: int| 0 <= k < lines.len() && lines[k] == messages[i];
        assert(line_has(lines[k], needle));
    }
}

/// Whether a tool of Pi writes files.
pub open spec fn is_writer(tool: Seq<char>) -> bool {
    tool == "write"@ || tool == "edit"@ || tool == "multi_edit"@
}

/// The path among the arguments of a tool call.
pub open spec fn argument_path(block: JsonView) -> Option<Seq<char>> {
    match block.get("arguments"@) {
        Some(a) => match (a.get("path"@), a.get("filePath"@), a.get("file_path"@)) {
            (Some(p), _, _) => p.as_str(),
            (None, Some(p), _) => p.as_str(),
            (None, None, Some(p)) => p.as_str(),
            (None, None, None) => None,
        },
        None => None,
    }
}

/// Whether a block is a tool call that writes a file.
pub open spec fn block_edits(block: JsonView, target: Seq<char>) -> bool {
    &&& block.get_str("type"@) == Some("toolCall"@)
    &&& block.get_str("name"@) matches Some(name) && is_writer(name)
    &&& argument_path(block) matches Some(p) && names_file(p, target)
}

fn edits_in_block(block: &Json, target: &str) -> (r: bool)
    ensures
        r == block_edits(block@, target@),
{
    if !is_kind(block, "toolCall") {
        return false;
    }
    match block.get_str("name") {
        Some(name) => {
            if !(str_eq(name, "write") || str_eq(name, "edit") || str_eq(name, "multi_edit")) {
                return false;
            }
        },
        None => return false,
    }
    let path = match block.get("arguments") {
        Some(a) => match (a.get("path"), a.get("filePath"), a.get("file_path")) {
            (Some(p), _, _) => p.as_str(),
            (None, Some(p), _) => p.as_str(),
            (None, None, Some(p)) => p.as_str(),
            (None, None, None) => None,
        },
        None => None,
    };
    match path {
        Some(p) => file_path_matches(p, target),
        None => false,
    }
}

/// The blocks of a message.
pub open spec fn blocks_in(message: JsonView) -> Seq<JsonView> {
    match message.get_array("content"@) {
        Some(blocks) => blocks,
        None => Seq::empty(),
    }
}

/// Whether a line is a message with a tool call that writes a file.
pub open spec fn line_edits(line: Seq<char>, target: Seq<char>) -> bool {
    json_in(line) matches Some(entry) && (message_in(entry) matches Some(m) && exists|i: int|
        0 <= i < blocks_in(m).len() && block_edits(#[trigger] blocks_in(m)[i], target))
}

fn message_edits(message: &Json, target: &str) -> (r: bool)
    ensures
        r == exists|i: int|
            0 <= i < blocks_in(message@).len() && block_edits(
                #[trigger] blocks_in(message@)[i],
                target@,
            ),
{
    match message.get_array("content") {
        Some(blocks) => {
            let ghost all = blocks.deep_view();
            let mut i: usize = 0;
            while i < blocks.len()
                invariant
                    i <= blocks.len(),
                    all == blocks.deep_view(),
                    all == blocks_in(message@),
                    forall|j: int| 0 <= j < i ==> !block_edits(#[trigger] all[j], target@),
                decreases blocks.len() - i,
            {
                assert(all[i as int] == blocks@[i as int]@);
                if edits_in_block(&blocks[i], target) {
                    return true;
                }
                i += 1;
            }
            false
        },
        None => false,
    }
}

/// Whether a session file has a tool call that writes a file.
pub open spec fn file_edits(text: Seq<char>, target: Seq<char>) -> bool {
    exists|i: int|
        0 <= i < lines_of(text).len() && line_edits(#[trigger] lines_of(text)[i], target)
}

/// Whether a session file has a tool call that writes a file.
pub fn file_edited_file(text: &str, target_path: &str) -> (r: bool)
    ensures
        r == file_edits(text@, target_path@),
{
    let all = lines(text);
    let ghost views = all.deep_view();
    let mut i: usize = 0;
    while i < all.len()
        invariant
            i <= all.len(),
            views == all.deep_view(),
            views == lines_of(text@),
            forall|j: int| 0 <= j < i ==> !line_edits(#[trigger] views[j], target_path@),
        decreases all.len() - i,
    {
        assert(views[i as int] == all@[i as int]@);
        match parse_json(all[i].as_str()) {
            Some(entry) => match message_of(&entry) {
                Some(m) => {
                    if message_edits(m, target_path) {
                        assert(line_edits(views[i as int], target_path@));
                        return true;
                    }
                },
                None => {},
            },
            None => {},
        }
        i += 1;
    }
    false
}

/// A count among the counts of tokens.
pub open spec fn usage_count(usage: JsonView, key: Seq<char>) -> u64 {
    match usage.get_u64(key) {
        Some(n) => n,
        None => 0,
    }
}

/// The tokens that an answer says it used.
pub open spec fn usage_in(usage: JsonView) -> TokenUsage {
    TokenUsage {
        input: usage_count(usage, "input"@),
        output: usage_count(usage, "output"@),
        cache_read: usage_count(usage, "cacheRead"@),
        cache_write: usage_count(usage, "cacheWrite"@),
        cache_creation: 0,
        reasoning: usage_count(usage, "reasoning"@),
    }
}

fn count_for(usage: &Json, key: &str) -> (r: u64)
    ensures
        r == usage_count(usage@, key@),
{
    match usage.get_u64(key) {
        Some(n) => n,
        None => 0,
    }
}

/// The tokens that an answer says it used.
pub fn parse_usage_from_value(usage: &Json) -> (r: TokenUsage)
    ensures
        r == usage_in(usage@),
{
    TokenUsage {
        input: count_for(usage, "input"),
        output: count_for(usage, "output"),
        cache_read: count_for(usage, "cacheRead"),
        cache_write: count_for(usage, "cacheWrite"),
        cache_creation: 0,
        reasoning: count_for(usage, "reasoning"),
    }
}

/// The identifier of an entry of the type `message`, where it has one.
pub open spec fn message_entry_id(entry: JsonView) -> Option<Seq<char>> {
    if entry.get_str("type"@) == Some("message"@) {
        match entry.get_str("id"@) {
            Some(id) => if id.len() > 0 {
                Some(id)
            } else {
                None
            },
            None => None,
        }
    } else {
        None
    }
}

/// Whether entries hold a message with an identifier.
pub open spec fn has_id(entries: Seq<JsonView>, id: Seq<char>) -> bool {
    exists|i: int| 0 <= i < entries.len() && message_entry_id(#[trigger] entries[i]) == Some(id)
}

/// The model that a message names.
pub open spec fn model_in(message: JsonView) -> Option<Seq<char>> {
    match message.get_str("model"@) {
        Some(m) => Some(m),
        None => message.get_str("modelID"@),
    }
}

/// The message of an entry: of a user or of the assistant, with a time. A message
/// without an identifier is named by its role and its time.
pub open spec fn entry_message(entry: JsonView, session_id: Seq<char>) -> Option<MessageView> {
    match (message_in(entry), entry_time(entry)) {
        (Some(m), Some(timestamp)) => {
            let role = m.get_str("role"@);
            if role == Some("user"@) || role == Some("assistant"@) {
                Some(
                    MessageView {
                        message_id: match message_entry_id(entry) {
                            Some(id) => id,
                            None => role->0 + "-"@ + signed_decimal(timestamp.spec_millis()),
                        },
                        session_id,
                        provider: Provider::Pi,
                        role: role->0,
                        model: model_in(m),
                        provider_id: m.get_str("provider"@),
                        agent: None,
                        mode: None,
                        timestamp,
                        tokens: if role == Some("assistant"@) {
                            match m.get("usage"@) {
                                Some(u) => Some(usage_in(u)),
                                None => None,
                            }
                        } else {
                            None
                        },
                    },
                )
            } else {
                None
            }
        },
        _ => None,
    }
}

/// The messages of entries, in order. Of entries with one identifier only the
/// first counts.
pub open spec fn messages_in(entries: Seq<JsonView>, session_id: Seq<char>) -> Seq<MessageView>
    decreases entries.len(),
{
    if entries.len() == 0 {
        Seq::empty()
    } else {
        let init = entries.drop_last();
        let before = messages_in(init, session_id);
        match entry_message(entries.last(), session_id) {
            Some(m) => if message_entry_id(entries.last()) matches Some(id) && has_id(init, id) {
                before
            } else {
                before.push(m)
            },
            None => before,
        }
    }
}

fn opt_owned(s: Option<&str>) -> (r: Option<String>)
    ensures
        r.deep_view() == s.deep_view(),
{
    match s {
        Some(t) => Some(t.to_string()),
        None => None,
    }
}

fn id_of_entry(entry: &Json) -> (r: Option<String>)
    ensures
        r.deep_view() == message_entry_id(entry@),
{
    if !is_kind(entry, "message") {
        return None;
    }
    match entry.get_str("id") {
        Some(id) => {
            if chars_of(id).len() > 0 {
                Some(id.to_string())
            } else {
                None
            }
        },
        None => None,
    }
}

/// The message of an entry.
pub fn message_of_entry(entry: &Json, session_id: &str) -> (r: Option<Message>)
    ensures
        r.deep_view() == entry_message(entry@, session_id@),
{
    match (message_of(entry), entry_timestamp(entry)) {
        (Some(m), Some(timestamp)) => {
            let role = match m.get_str("role") {
                Some(role) => role,
                None => return None,
            };
            let is_answer = str_eq(role, "assistant");
            if !is_answer && !str_eq(role, "user") {
                return None;
            }
            let model = match m.get_str("model") {
                Some(s) => Some(s.to_string()),
                None => opt_owned(m.get_str("modelID")),
            };
            let tokens = if is_answer {
                match m.get("usage") {
                    Some(u) => Some(parse_usage_from_value(u)),
                    None => None,
                }
            } else {
                None
            };
            let message_id = match id_of_entry(entry) {
                Some(id) => id,
                None => {
                    let mut s = role.to_string();
                    s.append("-");
                    s.append(signed_decimal_of(timestamp.millis()).as_str());
                    s
                },
            };
            Some(
                Message {
                    message_id,
                    session_id: session_id.to_string(),
                    provider: Provider::Pi,
                    role: role.to_string(),
                    model,
                    provider_id: opt_owned(m.get_str("provider")),
                    agent: None,
                    mode: None,
                    timestamp,
                    tokens,
                },
            )
        },
        _ => None,
    }
}

pub(crate) fn is_listed(ids: &Vec<String>, id: &str) -> (r: bool)
    ensures
        r == exists|i: int| 0 <= i < ids.len() && (#[trigger] ids@[i])@ == id@,
{
    let mut i: usize = 0;
    while i < ids.len()
        invariant
            i <= ids.len(),
            forall|j: int| 0 <= j < i ==> (#[trigger] ids@[j])@ != id@,
        decreases ids.len() - i,
    {
        if str_eq(ids[i].as_str(), id) {
            return true;
        }
        i += 1;
    }
    false
}

/// The messages of entries, in order.
pub fn messages_of(entries: &Vec<Json>, session_id: &str) -> (r: Vec<Message>)
    ensures
        r.deep_view() == messages_in(entries.deep_view(), session_id@),
{
    let ghost all = entries.deep_view();
    let mut out: Vec<Message> = Vec::new();
    let mut seen: Vec<String> = Vec::new();
    let mut i: usize = 0;
    assert(all.take(0) =~= Seq::<JsonView>::empty());
    assert(out.deep_view() =~= Seq::<MessageView>::empty());
    while i < entries.len()
        invariant
            i <= entries.len(),
            all == entries.deep_view(),
            out.deep_view() == messages_in(all.take(i as int), session_id@),
            forall|k: int|
                0 <= k < seen.len() ==> has_id(all.take(i as int), (#[trigger] seen@[k])@),
            forall|j: int|
                0 <= j < i && message_entry_id(#[trigger] all[j]) is Some ==> exists|k: int|
                    0 <= k < seen.len() && (#[trigger] seen@[k])@ == message_entry_id(all[j])->0,
        decreases entries.len() - i,
    {
        let ghost init = all.take(i as int);
        let ghost next = all.take(i + 1);
        assert(next.drop_last() =~= init);
        assert(next.last() == entries@[i as int]@);
        let ghost before = out.deep_view();
        let ghost known = seen@;
        let entry = &entries[i];
        let id = id_of_entry(entry);
        let repeated = match &id {
            Some(id) => is_listed(&seen, id.as_str()),
            None => false,
        };
        proof {
            if let Some(id) = message_entry_id(entry@) {
                if has_id(init, id) {
                    let j = choose|j: int|
                        0 <= j < init.len() && message_entry_id(#[trigger] init[j]) == Some(id);
                    assert(all[j] == init[j]);
                    assert(repeated);
                }
            }
        }
        if !repeated {
            match message_of_entry(entry, session_id) {
                Some(m) => {
                    let ghost view = m@;
                    out.push(m);
                    assert(out.deep_view() =~= before.push(view));
                },
                None => {},
            }
        }
        match id {
            Some(id) => {
                seen.push(id);
                assert(seen@[known.len() as int]@ == id@);
                assert(next[i as int] == all[i as int]);
            },
            None => {},
        }
        proof {
            assert forall|k: int| 0 <= k < seen.len() implies has_id(
                next,
                (#[trigger] seen@[k])@,
            ) by {
                if k < known.len() {
                    assert(known[k] == seen@[k]);
                    let j = choose|j: int|
                        0 <= j < init.len() && message_entry_id(#[trigger] init[j]) == Some(
                            known[k]@,
                        );
                    assert(next[j] == init[j]);
                } else {
                    assert(message_entry_id(next[i as int]) == Some(seen@[k]@));
                }
            }
            assert forall|j: int|
                0 <= j < i + 1 && message_entry_id(#[trigger] all[j]) is Some implies exists|k: int|
                0 <= k < seen.len() && (#[trigger] seen@[k])@ == message_entry_id(all[j])->0 by {
                if j < i {
                    let k = choose|k: int|
                        0 <= k < known.len() && (#[trigger] known[k])@ == message_entry_id(
                            all[j],
                        )->0;
                    assert(seen@[k] == known[k]);
                }
            }
        }
        i += 1;
    }
    assert(all.take(i as int) =~= all);
    out
}

/// The messages in a session file, in order.
pub fn parse_messages(content: &str, session_id: &str) -> (r: Vec<Message>)
    ensures
        r.deep_view() == messages_in(entries_in(lines_of(content@)), session_id@),
{
    messages_of(&parse_entries(&lines(content)), session_id)
}

/// Whether a message is no later than another.
pub open spec fn message_no_later() -> spec_fn(MessageView, MessageView) -> bool {
    |a: MessageView, b: MessageView| a.timestamp.spec_le(b.timestamp)
}

/// Messages by their instants.
pub struct ByMessageTime;

impl Ranking<Message> for ByMessageTime {
    open spec fn le(a: Message, b: Message) -> bool {
        a.timestamp.spec_le(b.timestamp)
    }

    fn leq(a: &Message, b: &Message) -> (r: bool) {
        a.timestamp.le(b.timestamp)
    }

    proof fn total(a: Message, b: Message) {
    }

    proof fn transitive(a: Message, b: Message, c: Message) {
    }
}

/// The messages in a session file in chronological order; those of one instant
/// keep their order.
pub fn messages_by_time(content: &str, session_id: &str) -> (r: Vec<Message>)
    ensures
        r.deep_view() == sorted_by(
            messages_in(entries_in(lines_of(content@)), session_id@),
            message_no_later(),
        ),
{
    let messages = parse_messages(content, session_id);
    let ghost f = |m: Message| m@;
    let ghost all = messages@;
    let r = stable_sort::<Message, ByMessageTime>(messages);
    proof {
        sorting_commutes::<Message, MessageView, ByMessageTime>(all, f, message_no_later());
        assert(all.map_values(f) =~= messages.deep_view());
        assert(r@.map_values(f) =~= r.deep_view());
    }
    r
}

/// Messages in chronological order: none is earlier than one before it, and none
/// is lost or added.
pub proof fn listed_messages_run_forward(messages: Seq<MessageView>)
    ensures
        ({
            let r = sorted_by(messages, message_no_later());
            &&& forall|i: int, j: int|
                0 <= i < j < r.len() ==> (#[trigger] r[i]).timestamp.spec_le(
                    (#[trigger] r[j]).timestamp,
                )
            &&& r.to_multiset() == messages.to_multiset()
        }),
{
    sorting_by_sorts(messages, message_no_later());
    let r = sorted_by(messages, message_no_later());
    assert forall|i: int, j: int| 0 <= i < j < r.len() implies (
    #[trigger] r[i]).timestamp.spec_le((#[trigger] r[j]).timestamp) by {
        assert(message_no_later()(r[i], r[j]));
    }
}

/// Messages with identifiers of their own are each listed once.
pub proof fn messages_are_listed_once(entries: Seq<JsonView>, session_id: Seq<char>, i: int, j: int)
    requires
        0 <= i < j < entries.len(),
        message_entry_id(entries[i]) is Some,
        message_entry_id(entries[i]) == message_entry_id(entries[j]),
    ensures
        messages_in(entries.take(j + 1), session_id) == messages_in(entries.take(j), session_id),
{
    let next = entries.take(j + 1);
    let init = entries.take(j);
    assert(next.drop_last() =~= init);
    assert(next.last() == entries[j]);
    assert(init[i] == entries[i]);
    assert(has_id(init, message_entry_id(entries[j])->0));
}

proof fn kinds_of_blocks_differ()
    ensures
        "text"@ != "thinking"@,
        "text"@ != "toolCall"@,
        "thinking"@ != "toolCall"@,
{
    reveal_strlit("text");
    reveal_strlit("thinking");
    reveal_strlit("toolCall");
    assert("text"@.len() == 4);
    assert("thinking"@.len() == 8);
    assert("toolCall"@.len() == 8);
    assert("thinking"@[1] != "toolCall"@[1]);
}

/// What is read of a session is what its file says: the session and the directory that its
/// header names, the time that the header gives, the last time that any entry gives, and
/// the title of the first entry that has one. Gives the entries of the last time and of the
/// title.
pub proof fn sessions_are_what_their_files_say(
    header: JsonView,
    started: Option<Timestamp>,
    entries: Seq<JsonView>,
    parent_id: Option<Seq<char>>,
) -> (at: (int, int))
    requires
        info_of(header, started, entries, parent_id) is Some,
    ensures
        ({
            let info = info_of(header, started, entries, parent_id)->0;
            &&& header.get_str("type"@) == Some("session"@)
            &&& header.get_str("id"@) == Some(info.session_id)
            &&& (header.get_str("cwd"@) matches Some(cwd) ==> info.project_dir == cwd)
            &&& started == Some(info.started_at)
            &&& info.parent_id == parent_id
            &&& 0 <= at.0 < entries.len() ==> entry_time(entries[at.0]) == Some(info.updated_at)
            &&& !(0 <= at.0 < entries.len()) ==> info.updated_at == info.started_at
            &&& forall|j: int|
                0 <= j < entries.len() && (0 <= at.0 < entries.len() ==> j > at.0) ==> entry_time(
                    #[trigger] entries[j],
                ) is None
            &&& 0 <= at.1 < entries.len() ==> entry_title(entries[at.1]) == Some(info.title)
            &&& !(0 <= at.1 < entries.len()) ==> info.title.len() == 0
            &&& forall|j: int|
                0 <= j < entries.len() && (0 <= at.1 < entries.len() ==> j < at.1) ==> entry_title(
                    #[trigger] entries[j],
                ) is None
        }),
{
    let time = |e: JsonView| entry_time(e);
    let title = |e: JsonView| entry_title(e);
    let i = the_last_that_tells_counts(entries, time);
    let k = the_first_that_tells_counts(entries, title);
    assert forall|j: int|
        0 <= j < entries.len() && (last_told(entries, time) is Some ==> j > i) implies entry_time(
        #[trigger] entries[j],
    ) is None by {
        assert(time(entries[j]) is None);
    }
    assert forall|j: int|
        0 <= j < entries.len() && (first_told(entries, title) is Some ==> j < k) implies entry_title(
        #[trigger] entries[j],
    ) is None by {
        assert(title(entries[j]) is None);
    }
    (
        if last_told(entries, time) is Some {
            i
        } else {
            -1
        },
        if first_told(entries, title) is Some {
            k
        } else {
            -1
        },
    )
}

/// A session is known exactly where its header is one and says when.
pub proof fn sessions_need_a_header_and_a_time(
    header: JsonView,
    started: Option<Timestamp>,
    entries: Seq<JsonView>,
    parent_id: Option<Seq<char>>,
)
    ensures
        info_of(header, started, entries, parent_id) is Some <==> header.get_str("type"@) == Some(
            "session"@,
        ) && header.get_str("id"@) is Some && started is Some,
{
}

/// A title is made of what the user wrote, never of an answer.
pub proof fn titles_are_of_the_user(entry: JsonView)
    ensures
        entry_title(entry) matches Some(title) ==> {
            &&& entry.get_str("type"@) == Some("message"@)
            &&& entry.get("message"@) matches Some(m) && m.get_str("role"@) == Some("user"@)
                && title == titled(user_text(m.get("content"@)))
            &&& title.len() > 0
        },
        entry.get_str("type"@) == Some("message"@) && (entry.get("message"@) matches Some(m)
            && m.get_str("role"@) == Some("user"@) && titled(user_text(m.get("content"@))).len()
            > 0) ==> entry_title(entry) is Some,
{
}

/// What the user wrote is a text, or the texts of blocks with blanks between them, on one
/// line.
pub proof fn user_texts_are_on_one_line(text: Seq<char>, block: JsonView)
    ensures
        user_text(Some(JsonView::Str(text))) == on_one_line(text),
        user_text(None).len() == 0,
        block.get_str("type"@) == Some("text"@) && block.get_str("text"@) is Some ==> user_text(
            Some(JsonView::Array(seq![block])),
        ) == on_one_line(block.get_str("text"@)->0),
{
    reveal_with_fuel(block_texts, 2);
    if block.get_str("type"@) == Some("text"@) && block.get_str("text"@) is Some {
        assert(seq![block].drop_last() =~= Seq::<JsonView>::empty());
        assert(block_texts(seq![block]) =~= seq![block.get_str("text"@)->0]);
        assert(on_one_line_each(block_texts(seq![block])) =~= seq![
            on_one_line(block.get_str("text"@)->0),
        ]);
    }
}

/// A file is a session's by its name, or, where it has the name that says nothing, by its
/// header.
pub proof fn files_are_found_by_name_or_header(
    name: Seq<char>,
    header: Option<JsonView>,
    id: Seq<char>,
)
    ensures
        contains_text(name, id) ==> is_file_of(name, header, id),
        !contains_text(name, id) && name != "session.jsonl"@ ==> !is_file_of(name, header, id),
        !contains_text(name, id) && name == "session.jsonl"@ ==> (is_file_of(name, header, id)
            <==> header is Some && header->0.get_str("id"@) == Some(id)),
{
}

/// A text is found in a block that says or thinks it, and in a tool call's name and
/// arguments; nowhere else.
pub proof fn blocks_hold_what_they_say(block: JsonView, needle: Seq<char>)
    ensures
        block.get_str("type"@) == Some("text"@) ==> (block_contains(block, needle) <==> block.get_str(
            "text"@,
        ) is Some && contains_text(block.get_str("text"@)->0, needle)),
        block.get_str("type"@) == Some("thinking"@) ==> (block_contains(block, needle)
            <==> block.get_str("thinking"@) is Some && contains_text(
            block.get_str("thinking"@)->0,
            needle,
        )),
        block.get_str("type"@) == Some("toolCall"@) ==> (block_contains(block, needle) <==> {
            ||| block.get_str("name"@) is Some && contains_text(block.get_str("name"@)->0, needle)
            ||| block.get("arguments"@) is Some && contains_text(
                json_text(block.get("arguments"@)->0),
                needle,
            )
        }),
        block_contains(block, needle) ==> block.get_str("type"@) == Some("text"@) || block.get_str(
            "type"@,
        ) == Some("thinking"@) || block.get_str("type"@) == Some("toolCall"@),
{
    kinds_of_blocks_differ();
}

/// A text is found in a file exactly where a line of it holds a message that holds the
/// text. Gives which, where there is one.
pub proof fn texts_are_found_in_messages(text: Seq<char>, needle: Seq<char>) -> (i: int)
    ensures
        file_has(text, needle) ==> {
            &&& 0 <= i < lines_of(text).len()
            &&& json_in(lines_of(text)[i]) is Some
            &&& json_in(lines_of(text)[i])->0.get_str("type"@) == Some("message"@)
            &&& json_in(lines_of(text)[i])->0.get("message"@) is Some
            &&& message_has(json_in(lines_of(text)[i])->0.get("message"@)->0, needle)
        },
        !file_has(text, needle) ==> forall|j: int|
            0 <= j < lines_of(text).len() ==> !line_has(#[trigger] lines_of(text)[j], needle),
{
    choose|i: int| 0 <= i < lines_of(text).len() && line_has(#[trigger] lines_of(text)[i], needle)
}

/// A message holds a text where its content does, or any block of its content.
pub proof fn messages_hold_what_their_content_holds(
    message: JsonView,
    blocks: Seq<JsonView>,
    i: int,
    needle: Seq<char>,
)
    ensures
        message.get_str("content"@) matches Some(text) ==> (message_has(message, needle)
            <==> contains_text(text, needle)),
        message.get("content"@) == Some(JsonView::Array(blocks)) && 0 <= i < blocks.len()
            && block_contains(blocks[i], needle) ==> message_has(message, needle),
        message.get("content"@) is None ==> !message_has(message, needle),
{
}

/// An edit is a call of one of the tools that write, on the path among its arguments that
/// comes first of three.
pub proof fn edits_are_calls_that_write(block: JsonView, target: Seq<char>)
    ensures
        block_edits(block, target) ==> {
            &&& block.get_str("type"@) == Some("toolCall"@)
            &&& block.get_str("name"@) == Some("write"@) || block.get_str("name"@) == Some(
                "edit"@,
            ) || block.get_str("name"@) == Some("multi_edit"@)
            &&& block.get("arguments"@) matches Some(a) && {
                ||| a.get_str("path"@) is Some && names_file(a.get_str("path"@)->0, target)
                ||| a.get("path"@) is None && a.get_str("filePath"@) is Some && names_file(
                    a.get_str("filePath"@)->0,
                    target,
                )
                ||| a.get("path"@) is None && a.get("filePath"@) is None && a.get_str(
                    "file_path"@,
                ) is Some && names_file(a.get_str("file_path"@)->0, target)
            }
        },
        block.get_str("type"@) == Some("toolCall"@) && (block.get_str("name"@) == Some("write"@)
            || block.get_str("name"@) == Some("edit"@) || block.get_str("name"@) == Some(
            "multi_edit"@,
        )) && (block.get("arguments"@) matches Some(a) && (a.get_str("path"@) matches Some(p)
            && names_file(p, target))) ==> block_edits(block, target),
{
}

/// Usage is counted by its members; one that is missing counts for nothing.
pub proof fn usage_is_counted_by_member(usage: JsonView)
    ensures
        usage.get_u64("input"@) is Some ==> usage_in(usage).input == usage.get_u64("input"@)->0,
        usage.get_u64("output"@) is Some ==> usage_in(usage).output == usage.get_u64("output"@)->0,
        usage.get_u64("cacheRead"@) is Some ==> usage_in(usage).cache_read == usage.get_u64(
            "cacheRead"@,
        )->0,
        usage.get_u64("cacheWrite"@) is Some ==> usage_in(usage).cache_write == usage.get_u64(
            "cacheWrite"@,
        )->0,
        usage.get_u64("reasoning"@) is Some ==> usage_in(usage).reasoning == usage.get_u64(
            "reasoning"@,
        )->0,
        usage_in(usage).cache_creation == 0,
        usage.get_u64("input"@) is None ==> usage_in(usage).input == 0,
        usage.get_u64("output"@) is None ==> usage_in(usage).output == 0,
        usage.get_u64("cacheRead"@) is None ==> usage_in(usage).cache_read == 0,
        usage.get_u64("cacheWrite"@) is None ==> usage_in(usage).cache_write == 0,
        usage.get_u64("reasoning"@) is None ==> usage_in(usage).reasoning == 0,
{
}

/// A message of a session is what its entry says: by whom, when, by which model of which
/// service, and, for an answer, at what usage. Only what the user and the assistant say is
/// a message.
pub proof fn messages_are_what_their_entries_say(entry: JsonView, session_id: Seq<char>)
    ensures
        entry_message(entry, session_id) is Some <==> {
            &&& entry.get_str("type"@) == Some("message"@)
            &&& entry.get("message"@) matches Some(m) && (m.get_str("role"@) == Some("user"@)
                || m.get_str("role"@) == Some("assistant"@))
            &&& entry_time(entry) is Some
        },
        entry_message(entry, session_id) matches Some(r) ==> {
            let m = entry.get("message"@)->0;
            &&& Some(r.role) == m.get_str("role"@)
            &&& Some(r.timestamp) == entry_time(entry)
            &&& r.session_id == session_id
            &&& r.provider == Provider::Pi
            &&& r.provider_id == m.get_str("provider"@)
            &&& m.get_str("model"@) is Some ==> r.model == m.get_str("model"@)
            &&& m.get_str("model"@) is None ==> r.model == m.get_str("modelID"@)
            &&& r.agent is None && r.mode is None
            &&& r.role == "user"@ ==> r.tokens is None
            &&& r.role == "assistant"@ && m.get("usage"@) is Some ==> r.tokens == Some(
                usage_in(m.get("usage"@)->0),
            )
            &&& m.get("usage"@) is None ==> r.tokens is None
            &&& (entry.get_str("id"@) matches Some(id) ==> (id.len() > 0 ==> r.message_id == id))
        },
{
    reveal_strlit("user");
    reveal_strlit("assistant");
    assert("user"@.len() == 4);
    assert("assistant"@.len() == 9);
}

/// Every message of a session stems from an entry of its file. Gives which.
pub proof fn messages_stem_from_entries(entries: Seq<JsonView>, session_id: Seq<char>, k: int) -> (i:
    int)
    requires
        0 <= k < messages_in(entries, session_id).len(),
    ensures
        0 <= i < entries.len(),
        entry_message(entries[i], session_id) == Some(messages_in(entries, session_id)[k]),
    decreases entries.len(),
{
    let rest = entries.drop_last();
    if k < messages_in(rest, session_id).len() {
        messages_stem_from_entries(rest, session_id, k)
    } else {
        entries.len() - 1
    }
}

/// An entry that is a message and is not named like one before it is added behind the
/// others.
pub proof fn new_entries_are_new_messages(
    entries: Seq<JsonView>,
    entry: JsonView,
    session_id: Seq<char>,
)
    requires
        entry_message(entry, session_id) is Some,
        entry.get_str("id"@) is Some ==> forall|i: int|
            0 <= i < entries.len() ==> (#[trigger] entries[i]).get_str("id"@) != entry.get_str(
                "id"@,
            ),
    ensures
        messages_in(entries.push(entry), session_id) == messages_in(entries, session_id).push(
            entry_message(entry, session_id)->0,
        ),
{
    assert(entries.push(entry).drop_last() =~= entries);
    assert(forall|i: int|
        0 <= i < entries.len() ==> message_entry_id(#[trigger] entries[i]) is Some
            ==> message_entry_id(entries[i]) == entries[i].get_str("id"@));
}

/// Only the last messages are searched where a bound is given: a text is found there exactly
/// where one of them holds it, and a line counts as a message only where it holds one.
pub proof fn the_last_messages_are_searched(
    text: Seq<char>,
    needle: Seq<char>,
    last_n: nat,
) -> (i: int)
    ensures
        ({
            let messages = lines_of(text).filter(|l: Seq<char>| is_message_line(l));
            &&& tail_has(text, needle, last_n) ==> 0 <= i < messages.len() && i + last_n
                >= messages.len() && line_has(messages[i], needle)
            &&& messages.len() > 0 && last_n > 0 && line_has(messages.last(), needle) ==> tail_has(
                text,
                needle,
                last_n,
            )
        }),
        forall|l: Seq<char>| #[trigger]
            is_message_line(l) ==> json_in(l) is Some && json_in(l)->0.get_str("type"@) == Some(
                "message"@,
            ),
{
    let messages = message_lines(lines_of(text));
    let start: int = if messages.len() > last_n {
        messages.len() - last_n
    } else {
        0
    };
    if messages.len() > 0 && last_n > 0 && line_has(messages.last(), needle) {
        assert(messages[messages.len() - 1] == messages.last());
    }
    choose|i: int| start <= i < messages.len() && line_has(#[trigger] messages[i], needle)
}

/// A file is edited in a session exactly where a message of it holds a block that edits the
/// file. Gives the line and the block.
pub proof fn edits_are_found_in_messages(text: Seq<char>, target: Seq<char>) -> (at: (int, int))
    ensures
        file_edits(text, target) ==> {
            &&& 0 <= at.0 < lines_of(text).len()
            &&& json_in(lines_of(text)[at.0]) is Some
            &&& message_in(json_in(lines_of(text)[at.0])->0) is Some
            &&& {
                let content = message_in(json_in(lines_of(text)[at.0])->0)->0.get_array(
                    "content"@,
                );
                content is Some && 0 <= at.1 < content->0.len() && block_edits(
                    content->0[at.1],
                    target,
                )
            }
        },
{
    if file_edits(text, target) {
        let i = choose|i: int|
            0 <= i < lines_of(text).len() && line_edits(#[trigger] lines_of(text)[i], target);
        let m = message_in(json_in(lines_of(text)[i])->0)->0;
        let k = choose|k: int|
            0 <= k < blocks_in(m).len() && block_edits(#[trigger] blocks_in(m)[k], target);
        (i, k)
    } else {
        (0, 0)
    }
}

/// A session is read from the header on the first line that holds anything, and from the
/// lines behind the first.
pub proof fn sessions_are_read_from_header_and_rest(
    text: Seq<char>,
    path: Seq<char>,
    base: Seq<char>,
)
    ensures
        info_in(text, path, base) is Some ==> (first_filled(lines_of(text)) matches Some(line)
            && json_in(line) is Some),
        first_filled(lines_of(text)) matches Some(line) ==> (json_in(line) matches Some(header)
            ==> info_in(text, path, base) == info_of(
            header,
            entry_time(header),
            entries_in(lines_of(text).skip(1)),
            parent_session(path, base),
        )),
        info_in(text, path, base) matches Some(info) ==> info.parent_id == parent_session(
            path,
            base,
        ),
{
}

} // verus!
