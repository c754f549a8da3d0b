//! The conversation in a session file of Pi.

use crate::json::{Json, JsonView};
use crate::opencode::parts::is_kind;
use crate::opencode::transcript::{outcome, push_spoken, spoken, text_or};
use crate::pi::jsonl::{
    block_texts, entries_in, entry_time, entry_timestamp, message_in, message_of, parse_entries,
    texts_of_blocks,
};
use crate::text::{join, joined, str_eq, trimmed};
use crate::time::{Timestamp, rfc3339_instant};
use crate::transcript::{EntryType, EntryView, Role, TranscriptEntry};
use vstd::prelude::*;

verus! {

/// The text that a tool gave back: a text, or its blocks of text, one a line.
pub open spec fn result_text(content: Option<JsonView>) -> Seq<char> {
    match content {
        Some(JsonView::Str(s)) => s,
        Some(JsonView::Array(blocks)) => joined(block_texts(blocks), "\n"@),
        _ => Seq::empty(),
    }
}

/// The text that a tool gave back.
pub fn collect_tool_result_text(content: Option<&Json>) -> (r: String)
    ensures
        r@ == result_text(content.deep_view()),
{
    match content {
        Some(Json::Str(s)) => s.clone(),
        Some(Json::Array(blocks)) => {
            assert(content->0@->Array_0 =~= blocks.deep_view());
            join(&texts_of_blocks(blocks), "\n")
        },
        _ => String::new(),
    }
}

/// The entries of a block: of a text or a thought that says something one, and of
/// a tool call one.
pub open spec fn block_entries(block: JsonView, at: Timestamp, role: Role) -> Seq<EntryView> {
    let kind = block.get_str("type"@);
    if kind == Some("text"@) {
        spoken(block.get_str("text"@), at, role, EntryType::Text)
    } else if kind == Some("thinking"@) {
        spoken(block.get_str("thinking"@), at, role, EntryType::Thinking)
    } else if kind == Some("toolCall"@) {
        seq![
            EntryView {
                timestamp: at,
                role,
                entry_type: EntryType::ToolUse,
                content: Seq::empty(),
                tool_name: Some(text_or(block.get_str("name"@), "unknown"@)),
                tool_input: block.get("arguments"@),
            },
        ]
    } else {
        Seq::empty()
    }
}

/// The entries of blocks, in order.
pub open spec fn blocks_entries(blocks: Seq<JsonView>, at: Timestamp, role: Role) -> Seq<EntryView>
    decreases blocks.len(),
{
    if blocks.len() == 0 {
        Seq::empty()
    } else {
        blocks_entries(blocks.drop_last(), at, role) + block_entries(blocks.last(), at, role)
    }
}

/// The entries of a message of a user, of the assistant, or of a tool.
pub open spec fn message_entries(message: JsonView, at: Timestamp) -> Seq<EntryView> {
    let role = message.get_str("role"@);
    let content = message.get("content"@);
    if role == Some("toolResult"@) {
        seq![
            EntryView {
                timestamp: at,
                role: Role::User,
                entry_type: EntryType::ToolResult,
                content: result_text(content),
                tool_name: message.get_str("toolName"@),
                tool_input: None,
            },
        ]
    } else if role == Some("user"@) || role == Some("assistant"@) {
        let speaker = if role == Some("user"@) {
            Role::User
        } else {
            Role::Assistant
        };
        match content {
            Some(JsonView::Str(s)) => spoken(Some(s), at, speaker, EntryType::Text),
            Some(JsonView::Array(blocks)) => blocks_entries(blocks, at, speaker),
            _ => Seq::empty(),
        }
    } else {
        Seq::empty()
    }
}

/// The conversation entries of an entry of a session file.
pub open spec fn conversation_entries(entry: JsonView) -> Seq<EntryView> {
    match (message_in(entry), entry_time(entry)) {
        (Some(m), Some(at)) => message_entries(m, at),
        _ => Seq::empty(),
    }
}

/// The conversation in entries of a session file, in order.
pub open spec fn conversation(entries: Seq<JsonView>) -> Seq<EntryView>
    decreases entries.len(),
{
    if entries.len() == 0 {
        Seq::empty()
    } else {
        conversation(entries.drop_last()) + conversation_entries(entries.last())
    }
}

fn push_block(block: &Json, at: Timestamp, role: Role, entries: &mut Vec<TranscriptEntry>)
    ensures
        final(entries).deep_view() == old(entries).deep_view() + block_entries(block@, at, role),
{
    let ghost before = entries.deep_view();
    if is_kind(block, "text") {
        push_spoken(block.get_str("text"), at, role, EntryType::Text, entries);
    } else if is_kind(block, "thinking") {
        push_spoken(block.get_str("thinking"), at, role, EntryType::Thinking, entries);
    } else if is_kind(block, "toolCall") {
        let name = match block.get_str("name") {
            Some(n) => n.to_string(),
            None => "unknown".to_string(),
        };
        let input = match block.get("arguments") {
            Some(a) => Some(a.duplicate()),
            None => None,
        };
        let e = TranscriptEntry {
            timestamp: at,
            role,
            entry_type: EntryType::ToolUse,
            content: String::new(),
            tool_name: Some(name),
            tool_input: input,
        };
        let ghost view = e@;
        assert(block_entries(block@, at, role) =~= seq![view]);
        entries.push(e);
        assert(entries.deep_view() =~= before + seq![view]);
    } else {
        assert(before + Seq::<EntryView>::empty() =~= before);
    }
}

fn push_blocks(blocks: &Vec<Json>, at: Timestamp, role: Role, entries: &mut Vec<TranscriptEntry>)
    ensures
        final(entries).deep_view() == old(entries).deep_view() + blocks_entries(
            blocks.deep_view(),
            at,
            role,
        ),
{
    let ghost before = entries.deep_view();
    let ghost all = blocks.deep_view();
    let mut i: usize = 0;
    assert(all.take(0) =~= Seq::<JsonView>::empty());
    assert(before + Seq::<EntryView>::empty() =~= before);
    while i < blocks.len()
        invariant
            i <= blocks.len(),
            all == blocks.deep_view(),
            entries.deep_view() == before + blocks_entries(all.take(i as int), at, role),
        decreases blocks.len() - i,
    {
        assert(all.take(i + 1).drop_last() =~= all.take(i as int));
        assert(all.take(i + 1).last() == blocks@[i as int]@);
        let ghost known = blocks_entries(all.take(i as int), at, role);
        let ghost more = block_entries(all[i as int], at, role);
        push_block(&blocks[i], at, role, entries);
        assert(before + known + more =~= before + (known + more));
        i += 1;
    }
    assert(all.take(i as int) =~= all);
}

fn push_message(message: &Json, at: Timestamp, entries: &mut Vec<TranscriptEntry>)
    ensures
        final(entries).deep_view() == old(entries).deep_view() + message_entries(message@, at),
{
    let ghost before = entries.deep_view();
    assert(before + Seq::<EntryView>::empty() =~= before);
    let role = match message.get_str("role") {
        Some(r) => r,
        None => return,
    };
    if str_eq(role, "toolResult") {
        let tool_name = match message.get_str("toolName") {
            Some(n) => Some(n.to_string()),
            None => None,
        };
        let e = TranscriptEntry {
            timestamp: at,
            role: Role::User,
            entry_type: EntryType::ToolResult,
            content: collect_tool_result_text(message.get("content")),
            tool_name,
            tool_input: None,
        };
        let ghost view = e@;
        assert(message_entries(message@, at) =~= seq![view]);
        entries.push(e);
        assert(entries.deep_view() =~= before + seq![view]);
        return;
    }
    let speaker = if str_eq(role, "user") {
        Role::User
    } else if str_eq(role, "assistant") {
        Role::Assistant
    } else {
        return;
    };
    match message.get("content") {
        Some(Json::Str(s)) => push_spoken(Some(s.as_str()), at, speaker, EntryType::Text, entries),
        Some(Json::Array(blocks)) => {
            assert(message@.get("content"@)->0->Array_0 =~= blocks.deep_view());
            push_blocks(blocks, at, speaker, entries);
        },
        _ => {},
    }
}

/// The conversation in entries of a session file, in order.
pub fn transcript_of(entries: &Vec<Json>) -> (r: Vec<TranscriptEntry>)
    ensures
        r.deep_view() == conversation(entries.deep_view()),
{
    let ghost all = entries.deep_view();
    let mut out: Vec<TranscriptEntry> = Vec::new();
    let mut i: usize = 0;
    assert(all.take(0) =~= Seq::<JsonView>::empty());
    assert(out.deep_view() =~= Seq::<EntryView>::empty());
    while i < entries.len()
        invariant
            i <= entries.len(),
            all == entries.deep_view(),
            out.deep_view() == conversation(all.take(i as int)),
        decreases entries.len() - i,
    {
        assert(all.take(i + 1).drop_last() =~= all.take(i as int));
        assert(all.take(i + 1).last() == entries@[i as int]@);
        let ghost known = out.deep_view();
        assert(known + Seq::<EntryView>::empty() =~= known);
        let entry = &entries[i];
        match (message_of(entry), entry_timestamp(entry)) {
            (Some(m), Some(at)) => push_message(m, at, &mut out),
            _ => {},
        }
        i += 1;
    }
    assert(all.take(i as int) =~= all);
    out
}

/// The conversation in the lines of a session file, in order. A line that is
/// blank or holds no JSON is passed over.
pub fn parse_transcript_from_file(lines: &Vec<String>) -> (r: Vec<TranscriptEntry>)
    ensures
        r.deep_view() == conversation(entries_in(lines.deep_view())),
{
    transcript_of(&parse_entries(lines))
}

/// The conversation of a session, given the lines of its file, where it has one.
pub fn parse_transcript(session_id: &str, lines: Option<&Vec<String>>) -> (r: Result<
    Vec<TranscriptEntry>,
    String,
>)
    ensures
        outcome(r) == (match lines {
            Some(lines) => Ok::<Seq<EntryView>, Seq<char>>(
                conversation(entries_in(lines.deep_view())),
            ),
            None => Err("Session file not found for: "@ + session_id@),
        }),
{
    match lines {
        Some(lines) => Ok(parse_transcript_from_file(lines)),
        None => {
            let mut e = "Session file not found for: ".to_string();
            e.append(session_id);
            Err(e)
        },
    }
}

/// Reading on in a session file adds entries to the conversation and changes none.
pub proof fn reading_on_adds_entries(entries: Seq<JsonView>, more: Seq<JsonView>)
    ensures
        conversation(entries + more) == conversation(entries) + conversation(more),
    decreases more.len(),
{
    if more.len() == 0 {
        assert(entries + more =~= entries);
        assert(conversation(entries) + conversation(more) =~= conversation(entries));
    } else {
        reading_on_adds_entries(entries, more.drop_last());
        assert((entries + more).drop_last() =~= entries + more.drop_last());
        assert((entries + more).last() == more.last());
        assert(conversation(entries + more) =~= conversation(entries) + conversation(more));
    }
}

/// The entry of a tool call carries what the call was given and the name of the tool.
pub proof fn tool_calls_carry_their_arguments(block: JsonView, at: Timestamp, role: Role)
    requires
        block.get_str("type"@) == Some("toolCall"@),
    ensures
        block_entries(block, at, role).len() == 1,
        block_entries(block, at, role)[0].entry_type == EntryType::ToolUse,
        block_entries(block, at, role)[0].tool_input == block.get("arguments"@),
        block.get_str("name"@) is Some ==> block_entries(block, at, role)[0].tool_name
            == block.get_str("name"@),
        block.get_str("name"@) is None ==> block_entries(block, at, role)[0].tool_name == Some(
            "unknown"@,
        ),
        block_entries(block, at, role)[0].content.len() == 0,
        block_entries(block, at, role)[0].role == role,
        block_entries(block, at, role)[0].timestamp == at,
{
    kinds_of_blocks_differ();
}

/// Of a tool call nothing counts but the name of the tool and what it was given.
pub proof fn only_name_and_arguments_of_a_call_count(
    a: JsonView,
    b: JsonView,
    at: Timestamp,
    role: Role,
)
    requires
        a.get_str("type"@) == Some("toolCall"@),
        b.get_str("type"@) == Some("toolCall"@),
        a.get("name"@) == b.get("name"@),
        a.get("arguments"@) == b.get("arguments"@),
    ensures
        block_entries(a, at, role) == block_entries(b, at, role),
{
    kinds_of_blocks_differ();
}

/// Calls with different arguments give different entries.
pub proof fn arguments_tell_calls_apart(a: JsonView, b: JsonView, at: Timestamp, role: Role)
    requires
        a.get_str("type"@) == Some("toolCall"@),
        b.get_str("type"@) == Some("toolCall"@),
        a.get("arguments"@) != b.get("arguments"@),
    ensures
        block_entries(a, at, role) != block_entries(b, at, role),
{
    tool_calls_carry_their_arguments(a, at, role);
    tool_calls_carry_their_arguments(b, at, role);
}

proof fn kinds_of_blocks_differ()
    ensures
        "text"@ != "thinking"@,
        "text"@ != "toolCall"@,
        "thinking"@ != "toolCall"@,
        "user"@ != "assistant"@,
        "user"@ != "toolResult"@,
        "assistant"@ != "toolResult"@,
{
    reveal_strlit("text");
    reveal_strlit("thinking");
    reveal_strlit("toolCall");
    reveal_strlit("user");
    reveal_strlit("assistant");
    reveal_strlit("toolResult");
    assert("text"@.len() == 4);
    assert("thinking"@.len() == 8);
    assert("toolCall"@.len() == 8);
    assert("thinking"@[1] == 'h');
    assert("toolCall"@[1] == 'o');
    assert("user"@.len() == 4);
    assert("assistant"@.len() == 9);
    assert("toolResult"@.len() == 10);
}

/// What is said and what is thought is read from the member of its own name, whole, unless
/// it is blank; a block of any other kind than these and a tool call says nothing.
pub proof fn blocks_say_what_they_hold(block: JsonView, at: Timestamp, role: Role)
    ensures
        block.get_str("type"@) == Some("text"@) && (block.get_str("text"@) matches Some(t)
            && trimmed(t).len() > 0) ==> block_entries(block, at, role) == seq![
            EntryView {
                timestamp: at,
                role,
                entry_type: EntryType::Text,
                content: block.get_str("text"@)->0,
                tool_name: None,
                tool_input: None,
            },
        ],
        block.get_str("type"@) == Some("thinking"@) && (block.get_str("thinking"@) matches Some(t)
            && trimmed(t).len() > 0) ==> block_entries(block, at, role) == seq![
            EntryView {
                timestamp: at,
                role,
                entry_type: EntryType::Thinking,
                content: block.get_str("thinking"@)->0,
                tool_name: None,
                tool_input: None,
            },
        ],
        block_entries(block, at, role).len() == 1 <==> {
            ||| block.get_str("type"@) == Some("toolCall"@)
            ||| block.get_str("type"@) == Some("text"@) && (block.get_str("text"@) matches Some(t)
                && trimmed(t).len() > 0)
            ||| block.get_str("type"@) == Some("thinking"@) && (block.get_str(
                "thinking"@,
            ) matches Some(t) && trimmed(t).len() > 0)
        },
        block_entries(block, at, role).len() <= 1,
{
    kinds_of_blocks_differ();
}

/// The blocks of a message are read one after the other.
pub proof fn blocks_are_read_in_order(
    some: Seq<JsonView>,
    block: JsonView,
    more: Seq<JsonView>,
    at: Timestamp,
    role: Role,
)
    ensures
        blocks_entries(some + seq![block] + more, at, role) == blocks_entries(some, at, role)
            + block_entries(block, at, role) + blocks_entries(more, at, role),
    decreases more.len(),
{
    let all = some + seq![block] + more;
    if more.len() == 0 {
        assert(all.drop_last() =~= some);
        assert(blocks_entries(more, at, role) =~= Seq::<EntryView>::empty());
    } else {
        blocks_are_read_in_order(some, block, more.drop_last(), at, role);
        assert(all.drop_last() =~= some + seq![block] + more.drop_last());
    }
}

/// What is said is said by whom the message names, and the result of a tool is told to
/// the assistant; the rest of the roles say nothing.
pub proof fn messages_are_of_their_role(message: JsonView, at: Timestamp)
    ensures
        forall|i: int|
            0 <= i < message_entries(message, at).len() ==> (#[trigger] message_entries(
                message,
                at,
            )[i]).timestamp == at,
        message.get_str("role"@) == Some("user"@) ==> forall|i: int|
            0 <= i < message_entries(message, at).len() ==> (#[trigger] message_entries(
                message,
                at,
            )[i]).role == Role::User,
        message.get_str("role"@) == Some("assistant"@) ==> forall|i: int|
            0 <= i < message_entries(message, at).len() ==> (#[trigger] message_entries(
                message,
                at,
            )[i]).role == Role::Assistant,
        message.get_str("role"@) == Some("toolResult"@) ==> {
            let r = message_entries(message, at);
            &&& r.len() == 1
            &&& r[0].role == Role::User
            &&& r[0].entry_type == EntryType::ToolResult
            &&& r[0].tool_name == message.get_str("toolName"@)
            &&& r[0].tool_input is None
            &&& (message.get_str("content"@) matches Some(text) ==> r[0].content == text)
        },
        (message.get_str("role"@) == Some("user"@) || message.get_str("role"@) == Some(
            "assistant"@,
        )) && (message.get_str("content"@) matches Some(text) && trimmed(text).len() > 0)
            ==> message_entries(message, at).len() == 1 && message_entries(message, at)[0].content
            == message.get_str("content"@)->0 && message_entries(message, at)[0].entry_type
            == EntryType::Text,
        message.get_str("role"@) != Some("user"@) && message.get_str("role"@) != Some("assistant"@)
            && message.get_str("role"@) != Some("toolResult"@) ==> message_entries(
            message,
            at,
        ).len() == 0,
{
    kinds_of_blocks_differ();
    match message.get("content"@) {
        Some(JsonView::Array(blocks)) => {
            blocks_are_of_one_role(blocks, at, Role::User);
            blocks_are_of_one_role(blocks, at, Role::Assistant);
        },
        _ => {},
    }
}

proof fn blocks_are_of_one_role(blocks: Seq<JsonView>, at: Timestamp, role: Role)
    ensures
        forall|i: int|
            0 <= i < blocks_entries(blocks, at, role).len() ==> (#[trigger] blocks_entries(
                blocks,
                at,
                role,
            )[i]).role == role && blocks_entries(blocks, at, role)[i].timestamp == at,
    decreases blocks.len(),
{
    if blocks.len() > 0 {
        blocks_are_of_one_role(blocks.drop_last(), at, role);
    }
}

/// The result of a tool that comes in blocks is the texts of its blocks, one to a line.
pub proof fn results_are_joined_by_line(first: JsonView, more: Seq<JsonView>, last: JsonView)
    requires
        first.get_str("type"@) == Some("text"@),
        last.get_str("type"@) == Some("text"@),
        first.get_str("text"@) is Some,
        last.get_str("text"@) is Some,
    ensures
        result_text(None).len() == 0,
        result_text(Some(JsonView::Array(seq![first]))) == first.get_str("text"@)->0,
        result_text(Some(JsonView::Array((seq![first] + more).push(last)))) == result_text(
            Some(JsonView::Array(seq![first] + more)),
        ) + seq!['\n'] + last.get_str("text"@)->0,
{
    reveal_strlit("\n");
    assert("\n"@ =~= seq!['\n']);
    assert(seq![first].drop_last() =~= Seq::<JsonView>::empty());
    assert(block_texts(seq![first].drop_last()) =~= Seq::<Seq<char>>::empty());
    assert(block_texts(seq![first]) =~= seq![first.get_str("text"@)->0]);
    let all = (seq![first] + more).push(last);
    assert(all.drop_last() =~= seq![first] + more);
    some_texts(first, more);
    let texts = block_texts(seq![first] + more);
    assert(block_texts(all) =~= texts.push(last.get_str("text"@)->0));
    assert(block_texts(all).drop_last() =~= texts);
}

proof fn some_texts(first: JsonView, more: Seq<JsonView>)
    requires
        first.get_str("type"@) == Some("text"@),
        first.get_str("text"@) is Some,
    ensures
        block_texts(seq![first] + more).len() > 0,
    decreases more.len(),
{
    let all = seq![first] + more;
    if more.len() == 0 {
        assert(all.last() == first);
    } else {
        some_texts(first, more.drop_last());
        assert(all.drop_last() =~= seq![first] + more.drop_last());
    }
}

/// A line of the file is told of only where it holds a message and says when; a message is
/// read as of that time.
pub proof fn lines_tell_dated_messages(entry: JsonView)
    ensures
        conversation_entries(entry).len() > 0 ==> entry.get_str("type"@) == Some("message"@)
            && entry.get("message"@) is Some && entry.get_str("timestamp"@) is Some
            && rfc3339_instant(entry.get_str("timestamp"@)->0) is Some,
        entry.get_str("type"@) == Some("message"@) && (entry.get("message"@) matches Some(m) && (
        entry.get_str("timestamp"@) matches Some(t) && rfc3339_instant(t) is Some))
            ==> conversation_entries(entry) == message_entries(
            entry.get("message"@)->0,
            rfc3339_instant(entry.get_str("timestamp"@)->0)->0,
        ),
        conversation(seq![entry]) == conversation_entries(entry),
{
    assert(seq![entry].drop_last() =~= Seq::<JsonView>::empty());
    assert(conversation(seq![entry].drop_last()) =~= Seq::<EntryView>::empty());
    assert(conversation(seq![entry]) =~= conversation_entries(entry));
}

} // verus!
