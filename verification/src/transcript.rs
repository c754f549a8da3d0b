//! The entries of a conversation.

use crate::json::{Json, JsonView};
use crate::order::{Ranking, sorted_by, sorting_by_sorts, sorting_commutes, stable_sort};
use crate::time::Timestamp;
use vstd::prelude::*;

verus! {

/// Who speaks in an entry.
#[derive(Clone, Copy, PartialEq, Eq, Structural, Debug)]
pub enum Role {
    User,
    Assistant,
    System,
}

/// The name of a role in records.
pub open spec fn role_name(r: Role) -> Seq<char> {
    match r {
        Role::User => "user"@,
        Role::Assistant => "assistant"@,
        Role::System => "system"@,
    }
}

impl Role {
    /// The name of the role in records.
    pub fn as_str(&self) -> (r: &'static str)
        ensures
            r@ == role_name(*self),
    {
        match self {
            Role::User => "user",
            Role::Assistant => "assistant",
            Role::System => "system",
        }
    }
}

/// What kind of thing an entry holds.
#[derive(Clone, Copy, PartialEq, Eq, Structural, Debug)]
pub enum EntryType {
    Text,
    ToolUse,
    ToolResult,
    Thinking,
    Error,
}

/// The name of an entry type in records.
pub open spec fn entry_type_name(t: EntryType) -> Seq<char> {
    match t {
        EntryType::Text => "text"@,
        EntryType::ToolUse => "tool_use"@,
        EntryType::ToolResult => "tool_result"@,
        EntryType::Thinking => "thinking"@,
        EntryType::Error => "error"@,
    }
}

impl EntryType {
    /// The name of the entry type in records.
    pub fn as_str(&self) -> (r: &'static str)
        ensures
            r@ == entry_type_name(*self),
    {
        match self {
            EntryType::Text => "text",
            EntryType::ToolUse => "tool_use",
            EntryType::ToolResult => "tool_result",
            EntryType::Thinking => "thinking",
            EntryType::Error => "error",
        }
    }
}

/// One entry of a conversation.
pub struct TranscriptEntry {
    pub timestamp: Timestamp,
    pub role: Role,
    pub entry_type: EntryType,
    pub content: String,
    pub tool_name: Option<String>,
    pub tool_input: Option<Json>,
}

/// The content of an entry.
pub ghost struct EntryView {
    pub timestamp: Timestamp,
    pub role: Role,
    pub entry_type: EntryType,
    pub content: Seq<char>,
    pub tool_name: Option<Seq<char>>,
    pub tool_input: Option<JsonView>,
}

impl View for TranscriptEntry {
    type V = EntryView;

    open spec fn view(&self) -> EntryView {
        EntryView {
            timestamp: self.timestamp,
            role: self.role,
            entry_type: self.entry_type,
            content: self.content@,
            tool_name: self.tool_name.deep_view(),
            tool_input: self.tool_input.deep_view(),
        }
    }
}

impl DeepView for TranscriptEntry {
    type V = EntryView;

    open spec fn deep_view(&self) -> EntryView {
        self.view()
    }
}

/// An entry that is text and belongs to no tool.
pub open spec fn plain_entry(
    at: Timestamp,
    role: Role,
    entry_type: EntryType,
    content: Seq<char>,
) -> EntryView {
    EntryView { timestamp: at, role, entry_type, content, tool_name: None, tool_input: None }
}

/// Whether an entry is no later than another.
pub open spec fn no_later() -> spec_fn(EntryView, EntryView) -> bool {
    |a: EntryView, b: EntryView| a.timestamp.spec_le(b.timestamp)
}

/// Entries in time order; those of one instant keep their order.
pub open spec fn in_time_order(s: Seq<EntryView>) -> Seq<EntryView> {
    sorted_by(s, no_later())
}

/// Whether no entry is earlier than one before it.
pub open spec fn runs_forward(s: Seq<EntryView>) -> bool {
    forall|i: int, j: int|
        0 <= i < j < s.len() ==> (#[trigger] s[i]).timestamp.spec_le((#[trigger] s[j]).timestamp)
}

/// Putting entries in time order neither loses nor adds any, and none is then
/// earlier than one before it.
pub proof fn time_order_runs_forward(s: Seq<EntryView>)
    ensures
        runs_forward(in_time_order(s)),
        in_time_order(s).to_multiset() == s.to_multiset(),
        in_time_order(s).len() == s.len(),
{
    sorting_by_sorts(s, no_later());
    let r = in_time_order(s);
    assert forall|i: int, j: int| 0 <= i < j < r.len() implies (
    #[trigger] r[i]).timestamp.spec_le((#[trigger] r[j]).timestamp) by {
        assert(no_later()(r[i], r[j]));
    }
}

/// Entries by their instants.
pub struct ByTime;

impl Ranking<TranscriptEntry> for ByTime {
    open spec fn le(a: TranscriptEntry, b: TranscriptEntry) -> bool {
        a.timestamp.spec_le(b.timestamp)
    }

    fn leq(a: &TranscriptEntry, b: &TranscriptEntry) -> (r: bool) {
        a.timestamp.le(b.timestamp)
    }

    proof fn total(a: TranscriptEntry, b: TranscriptEntry) {
    }

    proof fn transitive(a: TranscriptEntry, b: TranscriptEntry, c: TranscriptEntry) {
    }
}

/// Puts entries in time order; those of one instant keep their order.
pub fn sort_by_time(entries: Vec<TranscriptEntry>) -> (r: Vec<TranscriptEntry>)
    ensures
        r.deep_view() == in_time_order(entries.deep_view()),
{
    let ghost f = |e: TranscriptEntry| e@;
    let ghost all = entries@;
    let r = stable_sort::<TranscriptEntry, ByTime>(entries);
    proof {
        sorting_commutes::<TranscriptEntry, EntryView, ByTime>(all, f, no_later());
        assert(all.map_values(f) =~= entries.deep_view());
        assert(r@.map_values(f) =~= r.deep_view());
    }
    r
}

/// The names of roles, and of entry types, tell them apart.
pub proof fn transcript_names_are_distinct(a: Role, b: Role, s: EntryType, t: EntryType)
    ensures
        role_name(a) == role_name(b) <==> a == b,
        entry_type_name(s) == entry_type_name(t) <==> s == t,
{
    reveal_strlit("user");
    reveal_strlit("assistant");
    reveal_strlit("system");
    reveal_strlit("text");
    reveal_strlit("tool_use");
    reveal_strlit("tool_result");
    reveal_strlit("thinking");
    reveal_strlit("error");
    assert(role_name(Role::User).len() == 4);
    assert(role_name(Role::Assistant).len() == 9);
    assert(role_name(Role::System).len() == 6);
    assert(entry_type_name(EntryType::Text).len() == 4);
    assert(entry_type_name(EntryType::ToolUse)[1] == 'o');
    assert(entry_type_name(EntryType::ToolUse).len() == 8);
    assert(entry_type_name(EntryType::ToolResult).len() == 11);
    assert(entry_type_name(EntryType::Thinking)[1] == 'h');
    assert(entry_type_name(EntryType::Thinking).len() == 8);
    assert(entry_type_name(EntryType::Error).len() == 5);
}

/// What a name of a role or of a kind of entry stands for.
pub proof fn transcript_names_are_known()
    ensures
        role_name(Role::User) == "user"@,
        role_name(Role::Assistant) == "assistant"@,
        role_name(Role::System) == "system"@,
        entry_type_name(EntryType::Text) == "text"@,
        entry_type_name(EntryType::ToolUse) == "tool_use"@,
        entry_type_name(EntryType::ToolResult) == "tool_result"@,
        entry_type_name(EntryType::Thinking) == "thinking"@,
        entry_type_name(EntryType::Error) == "error"@,
{
}

/// Putting entries in the order of time keeps the order of those of one time.
pub proof fn entries_of_one_time_keep_their_order(s: Seq<EntryView>)
    requires
        forall|i: int, j: int|
            0 <= i < s.len() && 0 <= j < s.len() ==> (#[trigger] s[i]).timestamp == (
            #[trigger] s[j]).timestamp,
    ensures
        in_time_order(s) == s,
    decreases s.len(),
{
    if s.len() > 0 {
        let rest = s.drop_last();
        assert forall|i: int, j: int| 0 <= i < rest.len() && 0 <= j < rest.len() implies (
        #[trigger] rest[i]).timestamp == (#[trigger] rest[j]).timestamp by {
            assert(rest[i] == s[i] && rest[j] == s[j]);
        }
        entries_of_one_time_keep_their_order(rest);
        if rest.len() > 0 {
            assert(s[rest.len() - 1] == rest.last());
            assert(s[s.len() - 1] == s.last());
            assert(s[rest.len() - 1].timestamp == s[s.len() - 1].timestamp);
            assert(no_later()(rest.last(), s.last()));
        }
        assert(rest.push(s.last()) =~= s);
    }
}

} // verus!
