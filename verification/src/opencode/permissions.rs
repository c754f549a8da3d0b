//! The permission decisions on the tool calls of a session.
//!
//! The calls come from the conversation, the decisions from the logs. A call and
//! a decision belong together where the tool and the pattern agree and their
//! times are at most five seconds apart.

use crate::json::{Json, JsonView, json_text, print_json};
use crate::opencode::transcript::text_or;
use crate::order::{Ranking, sorted_by, sorting_by_sorts, sorting_commutes, stable_sort};
use crate::text::{
    between_bytes, boundary_in_range, byte_len, byte_slice, chars_of, contains_text, has_prefix,
    has_suffix, len_bytes, occurs_at, on_boundary, starts_with, str_eq,
};
use crate::time::{
    MIN_MILLIS, Timestamp, date_and_time, elapsed, format_date_and_time, in_calendar, is_instant,
    nanos_between, shift, shifted,
};
use crate::transcript::{EntryType, EntryView, TranscriptEntry};
use vstd::prelude::*;

verus! {

/// Seconds by which a call and its decision may be apart.
pub const JOIN_TOLERANCE_SECS: i64 = 5;

/// Nanoseconds by which a call and its decision may be apart.
pub const JOIN_TOLERANCE_NANOS: i128 = 5_000_000_000;

/// A tool call and what became of it.
#[derive(Clone, Debug)]
pub struct PermissionEvent {
    pub timestamp: Timestamp,
    pub tool: String,
    pub pattern: String,
    pub action: String,
}

/// The content of a tool call and what became of it.
pub ghost struct EventView {
    pub timestamp: Timestamp,
    pub tool: Seq<char>,
    pub pattern: Seq<char>,
    pub action: Seq<char>,
}

impl View for PermissionEvent {
    type V = EventView;

    open spec fn view(&self) -> EventView {
        EventView {
            timestamp: self.timestamp,
            tool: self.tool@,
            pattern: self.pattern@,
            action: self.action@,
        }
    }
}

impl DeepView for PermissionEvent {
    type V = EventView;

    open spec fn deep_view(&self) -> EventView {
        self.view()
    }
}

/// A tool call: when it began, the tool, and the pattern it asks permission for.
#[derive(Debug)]
pub struct ToolCall {
    pub timestamp: Timestamp,
    pub tool: String,
    pub pattern: String,
}

/// The content of a tool call.
pub ghost struct CallView {
    pub timestamp: Timestamp,
    pub tool: Seq<char>,
    pub pattern: Seq<char>,
}

impl View for ToolCall {
    type V = CallView;

    open spec fn view(&self) -> CallView {
        CallView { timestamp: self.timestamp, tool: self.tool@, pattern: self.pattern@ }
    }
}

impl DeepView for ToolCall {
    type V = CallView;

    open spec fn deep_view(&self) -> CallView {
        self.view()
    }
}

/// A decision in a log.
#[derive(Clone, Debug)]
pub struct LogDecision {
    pub timestamp: Timestamp,
    pub permission: String,
    pub pattern: String,
    pub action: String,
}

/// The content of a decision in a log.
pub ghost struct DecisionView {
    pub timestamp: Timestamp,
    pub permission: Seq<char>,
    pub pattern: Seq<char>,
    pub action: Seq<char>,
}

impl View for LogDecision {
    type V = DecisionView;

    open spec fn view(&self) -> DecisionView {
        DecisionView {
            timestamp: self.timestamp,
            permission: self.permission@,
            pattern: self.pattern@,
            action: self.action@,
        }
    }
}

impl DeepView for LogDecision {
    type V = DecisionView;

    open spec fn deep_view(&self) -> DecisionView {
        self.view()
    }
}

/// The file that a tool is to work on.
pub open spec fn asked_file(input: JsonView) -> Option<Seq<char>> {
    match input.get("filePath"@) {
        Some(v) => v.as_str(),
        None => input.get_str("file_path"@),
    }
}

/// The pattern that a tool call asks permission for: the command, the file or the
/// search pattern, and for other tools the whole input as it is printed.
pub open spec fn pattern_of(tool: Seq<char>, input: Option<JsonView>) -> Seq<char> {
    match input {
        None => Seq::empty(),
        Some(input) => if tool == "bash"@ {
            text_or(input.get_str("command"@), Seq::empty())
        } else if tool == "read"@ || tool == "write"@ || tool == "edit"@ {
            text_or(asked_file(input), Seq::empty())
        } else if tool == "glob"@ || tool == "grep"@ {
            text_or(input.get_str("pattern"@), Seq::empty())
        } else {
            json_text(input)
        },
    }
}

fn owned_or_empty(s: Option<&str>) -> (r: String)
    ensures
        r@ == text_or(s.deep_view(), Seq::empty()),
{
    match s {
        Some(t) => t.to_string(),
        None => String::new(),
    }
}

/// The pattern that a tool call asks permission for.
pub fn extract_pattern(tool: &str, input: Option<&Json>) -> (r: String)
    ensures
        r@ == pattern_of(tool@, input.deep_view()),
{
    match input {
        None => String::new(),
        Some(input) => if str_eq(tool, "bash") {
            owned_or_empty(input.get_str("command"))
        } else if str_eq(tool, "read") || str_eq(tool, "write") || str_eq(tool, "edit") {
            let file = match input.get("filePath") {
                Some(v) => v.as_str(),
                None => input.get_str("file_path"),
            };
            owned_or_empty(file)
        } else if str_eq(tool, "glob") || str_eq(tool, "grep") {
            owned_or_empty(input.get_str("pattern"))
        } else {
            print_json(input)
        },
    }
}

/// The tool calls of a conversation, in order.
pub open spec fn calls_in(entries: Seq<EntryView>) -> Seq<CallView>
    decreases entries.len(),
{
    if entries.len() == 0 {
        Seq::empty()
    } else {
        let e = entries.last();
        let before = calls_in(entries.drop_last());
        match e.tool_name {
            Some(tool) => if e.entry_type == EntryType::ToolUse {
                before.push(
                    CallView {
                        timestamp: e.timestamp,
                        tool,
                        pattern: pattern_of(tool, e.tool_input),
                    },
                )
            } else {
                before
            },
            None => before,
        }
    }
}

/// The tool calls of a conversation, in order.
pub fn tool_calls(entries: &Vec<TranscriptEntry>) -> (r: Vec<ToolCall>)
    ensures
        r.deep_view() == calls_in(entries.deep_view()),
{
    let ghost all = entries.deep_view();
    let mut out: Vec<ToolCall> = Vec::new();
    let mut i: usize = 0;
    assert(all.take(0) =~= Seq::<EntryView>::empty());
    assert(out.deep_view() =~= Seq::<CallView>::empty());
    while i < entries.len()
        invariant
            i <= entries.len(),
            all == entries.deep_view(),
            out.deep_view() == calls_in(all.take(i as int)),
        decreases entries.len() - i,
    {
        assert(all.take(i + 1).drop_last() =~= all.take(i as int));
        assert(all.take(i + 1).last() == entries@[i as int]@);
        let ghost before = out.deep_view();
        let e = &entries[i];
        match &e.tool_name {
            Some(tool) => {
                if e.entry_type == EntryType::ToolUse {
                    let input = match &e.tool_input {
                        Some(v) => Some(v),
                        None => None,
                    };
                    let pattern = extract_pattern(tool.as_str(), input);
                    let call = ToolCall { timestamp: e.timestamp, tool: tool.clone(), pattern };
                    let ghost view = call@;
                    out.push(call);
                    assert(out.deep_view() =~= before.push(view));
                }
            },
            None => {},
        }
        i += 1;
    }
    assert(all.take(i as int) =~= all);
    out
}

/// A span of time, open where it has no bound.
#[derive(Clone, Copy, PartialEq, Eq, Structural, Debug)]
pub struct Window {
    pub from: Option<Timestamp>,
    pub to: Option<Timestamp>,
}

/// Whether an instant lies in a span of time.
pub open spec fn in_window(t: Timestamp, w: Window) -> bool {
    &&& w.from matches Some(from) ==> from.spec_le(t)
    &&& w.to matches Some(to) ==> t.spec_le(to)
}

/// Whether an instant is the earliest of calls.
pub open spec fn is_first(calls: Seq<CallView>, t: Timestamp) -> bool {
    &&& exists|i: int| 0 <= i < calls.len() && (#[trigger] calls[i]).timestamp == t
    &&& forall|i: int| 0 <= i < calls.len() ==> t.spec_le((#[trigger] calls[i]).timestamp)
}

/// Whether an instant is the latest of calls.
pub open spec fn is_last(calls: Seq<CallView>, t: Timestamp) -> bool {
    &&& exists|i: int| 0 <= i < calls.len() && (#[trigger] calls[i]).timestamp == t
    &&& forall|i: int| 0 <= i < calls.len() ==> (#[trigger] calls[i]).timestamp.spec_le(t)
}

/// Whether a span of time reaches from five seconds before the first call to five
/// seconds behind the last.
pub open spec fn spans_calls(calls: Seq<CallView>, w: Window) -> bool {
    exists|first: Timestamp, last: Timestamp|
        #![trigger is_first(calls, first), is_last(calls, last)]
        is_first(calls, first) && is_last(calls, last) && w.from == shifted(
            first,
            -JOIN_TOLERANCE_SECS as int,
        ) && w.to == shifted(last, JOIN_TOLERANCE_SECS as int)
}

/// The span of time in which the decisions on calls are looked for.
pub fn tool_call_window(calls: &Vec<ToolCall>) -> (r: Window)
    requires
        calls@.len() > 0,
    ensures
        spans_calls(calls.deep_view(), r),
{
    let ghost all = calls.deep_view();
    let mut first = calls[0].timestamp;
    let mut last = calls[0].timestamp;
    let mut i: usize = 1;
    assert(all[0].timestamp == first);
    while i < calls.len()
        invariant
            1 <= i <= calls.len(),
            all == calls.deep_view(),
            exists|j: int| 0 <= j < i && (#[trigger] all[j]).timestamp == first,
            exists|j: int| 0 <= j < i && (#[trigger] all[j]).timestamp == last,
            forall|j: int| 0 <= j < i ==> first.spec_le((#[trigger] all[j]).timestamp),
            forall|j: int| 0 <= j < i ==> (#[trigger] all[j]).timestamp.spec_le(last),
        decreases calls.len() - i,
    {
        let t = calls[i].timestamp;
        assert(all[i as int].timestamp == t);
        if t.before(first) {
            first = t;
        }
        if last.before(t) {
            last = t;
        }
        i += 1;
    }
    assert(is_first(all, first));
    assert(is_last(all, last));
    Window { from: shift(first, -JOIN_TOLERANCE_SECS), to: shift(last, JOIN_TOLERANCE_SECS) }
}

/// How far apart two instants are, in nanoseconds.
pub open spec fn apart(a: Timestamp, b: Timestamp) -> int {
    if b.spec_before(a) {
        elapsed(a, b)
    } else {
        elapsed(b, a)
    }
}

/// Whether a decision is one on a call: the tool is the same, the times are at
/// most five seconds apart, and one pattern begins with the other.
pub open spec fn decides(d: DecisionView, tool: Seq<char>, pattern: Seq<char>, at: Timestamp) -> bool {
    &&& d.permission == tool
    &&& apart(d.timestamp, at) <= JOIN_TOLERANCE_NANOS
    &&& has_prefix(pattern, d.pattern) || has_prefix(d.pattern, pattern)
}

/// What the first decision on a call says.
pub open spec fn decided(
    decisions: Seq<DecisionView>,
    tool: Seq<char>,
    pattern: Seq<char>,
    at: Timestamp,
) -> Option<Seq<char>>
    decreases decisions.len(),
{
    if decisions.len() == 0 {
        None
    } else {
        match decided(decisions.drop_last(), tool, pattern, at) {
            Some(action) => Some(action),
            None => if decides(decisions.last(), tool, pattern, at) {
                Some(decisions.last().action)
            } else {
                None
            },
        }
    }
}

/// What the first decision on a call says.
pub fn find_permission_decision(
    decisions: &Vec<LogDecision>,
    tool: &str,
    pattern: &str,
    timestamp: Timestamp,
) -> (r: Option<String>)
    ensures
        r.deep_view() == decided(decisions.deep_view(), tool@, pattern@, timestamp),
{
    let ghost all = decisions.deep_view();
    let mut found: Option<String> = None;
    let mut i: usize = 0;
    assert(all.take(0) =~= Seq::<DecisionView>::empty());
    while i < decisions.len()
        invariant
            i <= decisions.len(),
            all == decisions.deep_view(),
            found.deep_view() == decided(all.take(i as int), tool@, pattern@, timestamp),
        decreases decisions.len() - i,
    {
        assert(all.take(i + 1).drop_last() =~= all.take(i as int));
        assert(all.take(i + 1).last() == decisions@[i as int]@);
        let d = &decisions[i];
        if found.is_none() && str_eq(d.permission.as_str(), tool) {
            let gap: i128 = if timestamp.before(d.timestamp) {
                nanos_between(d.timestamp, timestamp)
            } else {
                nanos_between(timestamp, d.timestamp)
            };
            if gap <= JOIN_TOLERANCE_NANOS && (starts_with(pattern, d.pattern.as_str())
                || starts_with(d.pattern.as_str(), pattern)) {
                found = Some(d.action.clone());
            }
        }
        i += 1;
    }
    assert(all.take(i as int) =~= all);
    found
}

/// The decision that is found is one on the call, and none before it is; where
/// none is found there is none.
pub proof fn the_first_decision_counts(
    decisions: Seq<DecisionView>,
    tool: Seq<char>,
    pattern: Seq<char>,
    at: Timestamp,
)
    ensures
        match decided(decisions, tool, pattern, at) {
            Some(action) => exists|i: int|
                #![trigger decisions[i]]
                0 <= i < decisions.len() && decisions[i].action == action && decides(
                    decisions[i],
                    tool,
                    pattern,
                    at,
                ) && forall|j: int|
                    0 <= j < i ==> !decides(#[trigger] decisions[j], tool, pattern, at),
            None => forall|j: int|
                0 <= j < decisions.len() ==> !decides(
                    #[trigger] decisions[j],
                    tool,
                    pattern,
                    at,
                ),
        },
    decreases decisions.len(),
{
    if decisions.len() > 0 {
        let init = decisions.drop_last();
        the_first_decision_counts(init, tool, pattern, at);
        match decided(init, tool, pattern, at) {
            Some(action) => {
                let i = choose|i: int|
                    #![trigger init[i]]
                    0 <= i < init.len() && init[i].action == action && decides(
                        init[i],
                        tool,
                        pattern,
                        at,
                    ) && forall|j: int|
                        0 <= j < i ==> !decides(#[trigger] init[j], tool, pattern, at);
                assert(decisions[i] == init[i]);
                assert forall|j: int| 0 <= j < i implies !decides(
                    #[trigger] decisions[j],
                    tool,
                    pattern,
                    at,
                ) by {
                    assert(decisions[j] == init[j]);
                }
            },
            None => {
                assert forall|j: int| 0 <= j < init.len() implies !decides(
                    #[trigger] decisions[j],
                    tool,
                    pattern,
                    at,
                ) by {
                    assert(decisions[j] == init[j]);
                }
                let i = decisions.len() - 1;
                assert(decisions[i] == decisions.last());
            },
        }
    }
}

/// No decision on any of the calls lies outside the span of time in which
/// decisions are looked for. Leap seconds are left out.
pub proof fn the_window_misses_nothing(calls: Seq<CallView>, w: Window, d: DecisionView, i: int)
    requires
        spans_calls(calls, w),
        forall|k: int| 0 <= k < calls.len() ==> (#[trigger] calls[k]).timestamp.nanos < 1_000_000_000,
        d.timestamp.nanos < 1_000_000_000,
        0 <= i < calls.len(),
        decides(d, calls[i].tool, calls[i].pattern, calls[i].timestamp),
    ensures
        in_window(d.timestamp, w),
{
    let (first, last) = choose|first: Timestamp, last: Timestamp|
        #![trigger is_first(calls, first), is_last(calls, last)]
        is_first(calls, first) && is_last(calls, last) && w.from == shifted(
            first,
            -JOIN_TOLERANCE_SECS as int,
        ) && w.to == shifted(last, JOIN_TOLERANCE_SECS as int);
    let t = calls[i].timestamp;
    assert(first.spec_le(t) && t.spec_le(last));
    assert(first.nanos < 1_000_000_000 && last.nanos < 1_000_000_000);
}

/// The event of a call.
pub open spec fn event_of(call: CallView, decisions: Seq<DecisionView>) -> EventView {
    EventView {
        timestamp: call.timestamp,
        tool: call.tool,
        pattern: call.pattern,
        action: text_or(
            decided(decisions, call.tool, call.pattern, call.timestamp),
            "unknown"@,
        ),
    }
}

/// The events of calls, in order.
pub open spec fn events_of(calls: Seq<CallView>, decisions: Seq<DecisionView>) -> Seq<EventView> {
    calls.map_values(|c: CallView| event_of(c, decisions))
}

/// Whether an event is no later than another.
pub open spec fn event_no_later() -> spec_fn(EventView, EventView) -> bool {
    |a: EventView, b: EventView| a.timestamp.spec_le(b.timestamp)
}

/// Events by their instants.
pub struct ByEventTime;

impl Ranking<PermissionEvent> for ByEventTime {
    open spec fn le(a: PermissionEvent, b: PermissionEvent) -> bool {
        a.timestamp.spec_le(b.timestamp)
    }

    fn leq(a: &PermissionEvent, b: &PermissionEvent) -> (r: bool) {
        a.timestamp.le(b.timestamp)
    }

    proof fn total(a: PermissionEvent, b: PermissionEvent) {
    }

    proof fn transitive(a: PermissionEvent, b: PermissionEvent, c: PermissionEvent) {
    }
}

/// Joins calls with decisions, in time order. A call on which nothing was decided
/// is of the action `unknown`.
pub fn join_decisions(calls: &Vec<ToolCall>, decisions: &Vec<LogDecision>) -> (r: Vec<
    PermissionEvent,
>)
    ensures
        r.deep_view() == sorted_by(
            events_of(calls.deep_view(), decisions.deep_view()),
            event_no_later(),
        ),
{
    let ghost all = calls.deep_view();
    let ghost known = decisions.deep_view();
    let mut events: Vec<PermissionEvent> = Vec::new();
    let mut i: usize = 0;
    while i < calls.len()
        invariant
            i <= calls.len(),
            all == calls.deep_view(),
            known == decisions.deep_view(),
            events.deep_view() == events_of(all.take(i as int), known),
        decreases calls.len() - i,
    {
        let ghost before = events.deep_view();
        let c = &calls[i];
        let action = match find_permission_decision(
            decisions,
            c.tool.as_str(),
            c.pattern.as_str(),
            c.timestamp,
        ) {
            Some(a) => a,
            None => "unknown".to_string(),
        };
        let e = PermissionEvent {
            timestamp: c.timestamp,
            tool: c.tool.clone(),
            pattern: c.pattern.clone(),
            action,
        };
        let ghost view = e@;
        assert(view == event_of(all[i as int], known));
        events.push(e);
        assert(events.deep_view() =~= before.push(view));
        assert(events_of(all.take(i + 1), known) =~= before.push(view));
        i += 1;
    }
    assert(all.take(i as int) =~= all);
    let ghost f = |e: PermissionEvent| e@;
    let ghost unsorted = events@;
    let r = stable_sort::<PermissionEvent, ByEventTime>(events);
    proof {
        sorting_commutes::<PermissionEvent, EventView, ByEventTime>(unsorted, f, event_no_later());
        assert(unsorted.map_values(f) =~= events_of(all, known));
        assert(r@.map_values(f) =~= r.deep_view());
    }
    r
}

/// Whether these may be the decisions that the logs hold for a span of time.
pub open spec fn may_hold<L: Fn(Window) -> Result<Vec<LogDecision>, String>>(
    load: L,
    w: Window,
    reply: Result<Seq<DecisionView>, Seq<char>>,
) -> bool {
    exists|r: Result<Vec<LogDecision>, String>| #[trigger]
        call_ensures(load, (w,), r) && decisions_view(r) == reply
}

/// Decisions, or why they could not be read.
pub open spec fn decisions_view(r: Result<Vec<LogDecision>, String>) -> Result<
    Seq<DecisionView>,
    Seq<char>,
> {
    match r {
        Ok(d) => Ok(d.deep_view()),
        Err(e) => Err(e@),
    }
}

/// Events, or why there are none.
pub open spec fn events_view(r: Result<Vec<PermissionEvent>, String>) -> Result<
    Seq<EventView>,
    Seq<char>,
> {
    match r {
        Ok(e) => Ok(e.deep_view()),
        Err(e) => Err(e@),
    }
}

/// Whether events are those of calls: none for no calls; else the calls joined
/// with what the logs hold for the span of time around them.
pub open spec fn events_follow<L: Fn(Window) -> Result<Vec<LogDecision>, String>>(
    calls: Seq<CallView>,
    load: L,
    w: Window,
    reply: Result<Seq<DecisionView>, Seq<char>>,
    events: Result<Seq<EventView>, Seq<char>>,
) -> bool {
    if calls.len() == 0 {
        events == Ok::<Seq<EventView>, Seq<char>>(Seq::empty())
    } else {
        &&& spans_calls(calls, w)
        &&& may_hold(load, w, reply)
        &&& events == (match reply {
            Ok(decisions) => Ok::<Seq<EventView>, Seq<char>>(
                sorted_by(events_of(calls, decisions), event_no_later()),
            ),
            Err(e) => Err(e),
        })
    }
}

/// The permission events of a conversation; a conversation that cannot be read
/// has none. `load` gives the decisions that the logs hold for a span of time.
pub fn parse_events<L: Fn(Window) -> Result<Vec<LogDecision>, String>>(
    transcript: Option<Vec<TranscriptEntry>>,
    load: L,
) -> (r: Result<Vec<PermissionEvent>, String>)
    requires
        forall|w: Window| call_requires(load, (w,)),
    ensures
        match transcript {
            Some(entries) => exists|w: Window, reply: Result<Seq<DecisionView>, Seq<char>>|
                #[trigger] events_follow(
                    calls_in(entries.deep_view()),
                    load,
                    w,
                    reply,
                    events_view(r),
                ),
            None => events_view(r) == Ok::<Seq<EventView>, Seq<char>>(Seq::empty()),
        },
{
    let entries = match transcript {
        Some(entries) => entries,
        None => {
            let none: Vec<PermissionEvent> = Vec::new();
            assert(none.deep_view() =~= Seq::<EventView>::empty());
            return Ok(none);
        },
    };
    let calls = tool_calls(&entries);
    let ghost all = calls.deep_view();
    if calls.len() == 0 {
        let none: Vec<PermissionEvent> = Vec::new();
        assert(none.deep_view() =~= Seq::<EventView>::empty());
        let r: Result<Vec<PermissionEvent>, String> = Ok(none);
        let ghost w = Window { from: None, to: None };
        assert(events_follow(all, load, w, Err(Seq::empty()), events_view(r)));
        return r;
    }
    let w = tool_call_window(&calls);
    let reply = load(w);
    let ghost told = decisions_view(reply);
    assert(may_hold(load, w, told));
    match reply {
        Ok(decisions) => {
            let events = join_decisions(&calls, &decisions);
            let r: Result<Vec<PermissionEvent>, String> = Ok(events);
            assert(events_follow(all, load, w, told, events_view(r)));
            r
        },
        Err(e) => {
            let r: Result<Vec<PermissionEvent>, String> = Err(e);
            assert(events_follow(all, load, w, told, events_view(r)));
            r
        },
    }
}

/// An action as it is shown: the known ones in capitals.
pub open spec fn shown_action(action: Seq<char>) -> Seq<char> {
    if action == "allow"@ {
        "ALLOW"@
    } else if action == "ask"@ {
        "ASK"@
    } else if action == "deny"@ {
        "DENY"@
    } else {
        action
    }
}

fn show_action(action: &str) -> (r: String)
    ensures
        r@ == shown_action(action@),
{
    if str_eq(action, "allow") {
        "ALLOW".to_string()
    } else if str_eq(action, "ask") {
        "ASK".to_string()
    } else if str_eq(action, "deny") {
        "DENY".to_string()
    } else {
        action.to_string()
    }
}

/// A pattern as it is shown: the beginning of a long one.
pub open spec fn shown_pattern(pattern: Seq<char>) -> Seq<char> {
    if byte_len(pattern) > 60 {
        between_bytes(pattern, 0, 57) + "..."@
    } else {
        pattern
    }
}

fn show_pattern(pattern: &str) -> (r: String)
    requires
        byte_len(pattern@) > 60 ==> on_boundary(pattern@, 57),
    ensures
        r@ == shown_pattern(pattern@),
{
    if len_bytes(pattern) > 60 {
        proof {
            boundary_in_range(pattern@, 0);
        }
        let mut s = byte_slice(pattern, 0, 57).to_string();
        s.append("...");
        s
    } else {
        pattern.to_string()
    }
}

/// A text filled up with spaces to a number of characters.
pub open spec fn padded(s: Seq<char>, width: nat) -> Seq<char>
    decreases width - s.len(),
{
    if s.len() >= width {
        s
    } else {
        padded(s.push(' '), width)
    }
}

fn pad(s: String, width: usize) -> (r: String)
    ensures
        r@ == padded(s@, width as nat),
{
    let ghost whole = s@;
    let mut n: usize = chars_of(s.as_str()).len();
    let mut s = s;
    while n < width
        invariant
            n == s@.len(),
            padded(s@, width as nat) == padded(whole, width as nat),
        decreases width - n,
    {
        s.push(' ');
        n += 1;
    }
    s
}

/// The line that shows an event.
pub open spec fn human_line(e: EventView) -> Seq<char> {
    padded(date_and_time(e.timestamp), 24) + " "@ + padded(shown_action(e.action), 8) + " "@
        + padded(e.tool, 12) + " "@ + shown_pattern(e.pattern)
}

/// The line that shows an event.
pub fn display_human(e: &PermissionEvent) -> (r: String)
    requires
        is_instant(e.timestamp),
        byte_len(e.pattern@) > 60 ==> on_boundary(e.pattern@, 57),
    ensures
        r@ == human_line(e@),
{
    let mut s = pad(format_date_and_time(e.timestamp), 24);
    s.append(" ");
    s.append(pad(show_action(e.action.as_str()), 8).as_str());
    s.append(" ");
    s.append(pad(e.tool.clone(), 12).as_str());
    s.append(" ");
    s.append(show_pattern(e.pattern.as_str()).as_str());
    s
}

/// A text with a backslash before each backslash and each quote.
pub open spec fn escaped(s: Seq<char>) -> Seq<char>
    decreases s.len(),
{
    if s.len() == 0 {
        Seq::empty()
    } else if s.last() == '\\' || s.last() == '"' {
        escaped(s.drop_last()).push('\\').push(s.last())
    } else {
        escaped(s.drop_last()).push(s.last())
    }
}

fn escape(s: &str) -> (r: String)
    ensures
        r@ == escaped(s@),
{
    let chars = chars_of(s);
    let mut out = String::new();
    let mut i: usize = 0;
    assert(s@.take(0) =~= Seq::<char>::empty());
    while i < chars.len()
        invariant
            i <= chars.len(),
            chars@ == s@,
            out@ == escaped(s@.take(i as int)),
        decreases chars.len() - i,
    {
        assert(s@.take(i + 1).drop_last() =~= s@.take(i as int));
        let c: char = chars[i];
        if c == '\\' || c == '"' {
            out.push('\\');
        }
        out.push(c);
        i += 1;
    }
    assert(s@.take(i as int) =~= s@);
    out
}

/// The line of JSON for an event, given its time as a number.
pub open spec fn json_line(time: Seq<char>, e: EventView) -> Seq<char> {
    "{\"timestamp\":"@ + time + ",\"tool\":\""@ + e.tool + "\",\"pattern\":\""@ + escaped(e.pattern)
        + "\",\"action\":\""@ + e.action + "\"}"@
}

/// The line of JSON for an event, given its time as a number.
pub fn display_json(time: &str, e: &PermissionEvent) -> (r: String)
    ensures
        r@ == json_line(time@, e@),
{
    let mut s = "{\"timestamp\":".to_string();
    s.append(time);
    s.append(",\"tool\":\"");
    s.append(e.tool.as_str());
    s.append("\",\"pattern\":\"");
    s.append(escape(e.pattern.as_str()).as_str());
    s.append("\",\"action\":\"");
    s.append(e.action.as_str());
    s.append("\"}");
    s
}

/// The record for an event that a zero character ends, given its time as a number.
pub open spec fn nul_record(time: Seq<char>, e: EventView) -> Seq<char> {
    time + "\t"@ + e.tool + "\t"@ + e.pattern + "\t"@ + e.action + "\0"@
}

/// The record for an event that a zero character ends, given its time as a number.
pub fn display_nul(time: &str, e: &PermissionEvent) -> (r: String)
    ensures
        r@ == nul_record(time@, e@),
{
    let mut s = time.to_string();
    s.append("\t");
    s.append(e.tool.as_str());
    s.append("\t");
    s.append(e.pattern.as_str());
    s.append("\t");
    s.append(e.action.as_str());
    s.append("\0");
    s
}

/// A decision is on a call where it was made on the call's tool, no more than five
/// seconds from the call, and on a pattern of which one is the start of the other.
pub proof fn decisions_match_tool_time_and_pattern(
    d: DecisionView,
    tool: Seq<char>,
    pattern: Seq<char>,
    at: Timestamp,
)
    requires
        d.timestamp.nanos < 1_000_000_000,
        at.nanos < 1_000_000_000,
    ensures
        decides(d, tool, pattern, at) <==> {
            &&& tool == d.permission
            &&& -5_000_000_000 <= (d.timestamp.secs - at.secs) * 1_000_000_000 + d.timestamp.nanos
                - at.nanos <= 5_000_000_000
            &&& pattern.len() <= d.pattern.len() ==> d.pattern.take(pattern.len() as int) == pattern
            &&& pattern.len() >= d.pattern.len() ==> pattern.take(d.pattern.len() as int)
                == d.pattern
        },
{
    assert(pattern.len() == d.pattern.len() ==> pattern.take(pattern.len() as int) =~= pattern);
    assert(pattern.len() == d.pattern.len() ==> d.pattern.take(pattern.len() as int) =~= d.pattern);
}

/// A decision that is reported for a call was made on the tool of that call, and on a
/// pattern that begins with the call's or that the call's begins with; no decision before
/// it was on the call. Gives which decision it is.
pub proof fn reported_decisions_are_on_the_tool(call: CallView, decisions: Seq<DecisionView>) -> (i:
    int)
    ensures
        event_of(call, decisions).timestamp == call.timestamp,
        event_of(call, decisions).tool == call.tool,
        event_of(call, decisions).pattern == call.pattern,
        0 <= i < decisions.len() ==> {
            &&& decisions[i].permission == call.tool
            &&& decisions[i].action == event_of(call, decisions).action
            &&& (call.pattern.len() <= decisions[i].pattern.len() ==> decisions[i].pattern.take(
                call.pattern.len() as int,
            ) == call.pattern)
            &&& (call.pattern.len() >= decisions[i].pattern.len() ==> call.pattern.take(
                decisions[i].pattern.len() as int,
            ) == decisions[i].pattern)
        },
        !(0 <= i < decisions.len()) ==> event_of(call, decisions).action == "unknown"@,
        forall|j: int|
            0 <= j < decisions.len() && (0 <= i < decisions.len() ==> j < i) ==> !decides(
                #[trigger] decisions[j],
                call.tool,
                call.pattern,
                call.timestamp,
            ),
    decreases decisions.len(),
{
    let p = call.pattern;
    if decisions.len() == 0 {
        -1
    } else {
        let init = decisions.drop_last();
        let d = decisions.last();
        let k = reported_decisions_are_on_the_tool(call, init);
        the_first_decision_counts(init, call.tool, p, call.timestamp);
        assert forall|j: int| 0 <= j < init.len() && (0 <= k < init.len() ==> j < k) implies !decides(
            #[trigger] decisions[j],
            call.tool,
            p,
            call.timestamp,
        ) by {
            assert(decisions[j] == init[j]);
        }
        if decided(init, call.tool, p, call.timestamp) is Some {
            let i = choose|i: int|
                #![trigger init[i]]
                0 <= i < init.len() && init[i].action == decided(
                    init,
                    call.tool,
                    p,
                    call.timestamp,
                )->0 && decides(init[i], call.tool, p, call.timestamp) && forall|j: int|
                    0 <= j < i ==> !decides(#[trigger] init[j], call.tool, p, call.timestamp);
            assert(decisions[i] == init[i]);
            let q = init[i].pattern;
            assert(p.len() == q.len() ==> p.take(p.len() as int) =~= p);
            assert(p.len() == q.len() ==> q.take(p.len() as int) =~= q);
            assert forall|j: int| 0 <= j < i implies !decides(
                #[trigger] decisions[j],
                call.tool,
                p,
                call.timestamp,
            ) by {
                assert(decisions[j] == init[j]);
            }
            i
        } else if decides(d, call.tool, p, call.timestamp) {
            let q = d.pattern;
            assert(p.len() == q.len() ==> p.take(p.len() as int) =~= p);
            assert(p.len() == q.len() ==> q.take(p.len() as int) =~= q);
            assert forall|j: int| 0 <= j < init.len() implies !decides(
                #[trigger] decisions[j],
                call.tool,
                p,
                call.timestamp,
            ) by {
                assert(decisions[j] == init[j]);
            }
            decisions.len() - 1
        } else {
            assert forall|j: int| 0 <= j < decisions.len() implies !decides(
                #[trigger] decisions[j],
                call.tool,
                p,
                call.timestamp,
            ) by {
                if j < init.len() {
                    assert(decisions[j] == init[j]);
                }
            }
            -1
        }
    }
}

/// A call for whose tool the log has no decision at all is reported as unknown.
pub proof fn tools_without_a_decision_are_unknown(call: CallView, decisions: Seq<DecisionView>)
    requires
        forall|i: int| 0 <= i < decisions.len() ==> (#[trigger] decisions[i]).permission
            != call.tool,
    ensures
        event_of(call, decisions).action == "unknown"@,
{
    let i = reported_decisions_are_on_the_tool(call, decisions);
}

/// Decisions on other tools change nothing of what is reported for a call, wherever in
/// the log they stand.
pub proof fn decisions_on_other_tools_do_not_count(
    call: CallView,
    before: Seq<DecisionView>,
    other: DecisionView,
    after: Seq<DecisionView>,
)
    requires
        other.permission != call.tool,
    ensures
        event_of(call, before + seq![other] + after) == event_of(call, before + after),
{
    other_decisions_do_not_decide(call, before, other, after);
}

proof fn other_decisions_do_not_decide(
    call: CallView,
    before: Seq<DecisionView>,
    other: DecisionView,
    after: Seq<DecisionView>,
)
    requires
        other.permission != call.tool,
    ensures
        decided(before + seq![other] + after, call.tool, call.pattern, call.timestamp) == decided(
            before + after,
            call.tool,
            call.pattern,
            call.timestamp,
        ),
    decreases after.len(),
{
    let with = before + seq![other] + after;
    let without = before + after;
    if after.len() == 0 {
        assert(with.drop_last() =~= before);
        assert(without =~= before);
    } else {
        other_decisions_do_not_decide(call, before, other, after.drop_last());
        assert(with.drop_last() =~= before + seq![other] + after.drop_last());
        assert(without.drop_last() =~= before + after.drop_last());
    }
}

/// Every call is reported once, in the order of time, with its own time, tool and
/// pattern. Gives the call of a report.
pub proof fn every_report_is_of_a_call(
    calls: Seq<CallView>,
    decisions: Seq<DecisionView>,
    k: int,
) -> (i: int)
    requires
        0 <= k < calls.len(),
    ensures
        ({
            let reports = sorted_by(events_of(calls, decisions), event_no_later());
            &&& reports.len() == calls.len()
            &&& 0 <= i < calls.len()
            &&& reports[k].timestamp == calls[i].timestamp
            &&& reports[k].tool == calls[i].tool
            &&& reports[k].pattern == calls[i].pattern
            &&& reports[k] == event_of(calls[i], decisions)
            &&& forall|j: int|
                k < j < reports.len() ==> reports[k].timestamp.spec_le(
                    (#[trigger] reports[j]).timestamp,
                )
        }),
{
    let events = events_of(calls, decisions);
    let reports = sorted_by(events, event_no_later());
    sorting_by_sorts(events, event_no_later());
    events.to_multiset_ensures();
    reports.to_multiset_ensures();
    assert(reports.contains(reports[k]));
    assert(events.to_multiset().count(reports[k]) > 0);
    assert(events.contains(reports[k]));
    assert forall|j: int| k < j < reports.len() implies reports[k].timestamp.spec_le(
        (#[trigger] reports[j]).timestamp,
    ) by {
        assert(event_no_later()(reports[k], reports[j]));
    }
    choose|i: int| 0 <= i < events.len() && events[i] == reports[k]
}

/// No call goes unreported. Gives where it is reported.
pub proof fn every_call_is_reported(
    calls: Seq<CallView>,
    decisions: Seq<DecisionView>,
    i: int,
) -> (k: int)
    requires
        0 <= i < calls.len(),
    ensures
        0 <= k < sorted_by(events_of(calls, decisions), event_no_later()).len(),
        sorted_by(events_of(calls, decisions), event_no_later())[k] == event_of(
            calls[i],
            decisions,
        ),
{
    let events = events_of(calls, decisions);
    let reports = sorted_by(events, event_no_later());
    sorting_by_sorts(events, event_no_later());
    events.to_multiset_ensures();
    reports.to_multiset_ensures();
    assert(events.contains(events[i]));
    assert(reports.to_multiset().count(events[i]) > 0);
    assert(reports.contains(events[i]));
    choose|k: int| 0 <= k < reports.len() && reports[k] == events[i]
}

/// What a call asks to do is its command, its file or its pattern, by its tool.
pub proof fn patterns_are_what_the_tool_is_asked(tool: Seq<char>, input: JsonView)
    ensures
        pattern_of(tool, None).len() == 0,
        tool == "bash"@ && input.get_str("command"@) is Some ==> pattern_of(tool, Some(input))
            == input.get_str("command"@)->0,
        (tool == "read"@ || tool == "write"@ || tool == "edit"@) && input.get_str("filePath"@)
            is Some ==> pattern_of(tool, Some(input)) == input.get_str("filePath"@)->0,
        (tool == "read"@ || tool == "write"@ || tool == "edit"@) && input.get("filePath"@) is None
            && input.get_str("file_path"@) is Some ==> pattern_of(tool, Some(input))
            == input.get_str("file_path"@)->0,
        (tool == "glob"@ || tool == "grep"@) && input.get_str("pattern"@) is Some ==> pattern_of(
            tool,
            Some(input),
        ) == input.get_str("pattern"@)->0,
        tool == "bash"@ && input.get_str("command"@) is None ==> pattern_of(
            tool,
            Some(input),
        ).len() == 0,
        (tool == "glob"@ || tool == "grep"@) && input.get_str("pattern"@) is None ==> pattern_of(
            tool,
            Some(input),
        ).len() == 0,
        tool != "bash"@ && tool != "read"@ && tool != "write"@ && tool != "edit"@ && tool
            != "glob"@ && tool != "grep"@ ==> pattern_of(tool, Some(input)) == json_text(input),
{
    reveal_strlit("bash");
    reveal_strlit("read");
    reveal_strlit("write");
    reveal_strlit("edit");
    reveal_strlit("glob");
    reveal_strlit("grep");
    let t = tool;
    assert(t == "bash"@ ==> t[0] == 'b');
    assert(t == "read"@ ==> t[0] == 'r');
    assert(t == "write"@ ==> t[0] == 'w');
    assert(t == "edit"@ ==> t[0] == 'e');
    assert(t == "glob"@ ==> t[0] == 'g');
    assert(t == "grep"@ ==> t[0] == 'g');
}

/// The calls of a session are its uses of named tools. Gives the entry of a call.
pub proof fn calls_are_uses_of_tools(entries: Seq<EntryView>, k: int) -> (i: int)
    requires
        0 <= k < calls_in(entries).len(),
    ensures
        0 <= i < entries.len(),
        entries[i].entry_type == EntryType::ToolUse,
        entries[i].tool_name == Some(calls_in(entries)[k].tool),
        entries[i].timestamp == calls_in(entries)[k].timestamp,
        calls_in(entries)[k].pattern == pattern_of(
            calls_in(entries)[k].tool,
            entries[i].tool_input,
        ),
    decreases entries.len(),
{
    let rest = entries.drop_last();
    if k < calls_in(rest).len() {
        calls_are_uses_of_tools(rest, k)
    } else {
        entries.len() - 1
    }
}

/// Every use of a named tool is a call. Gives which.
pub proof fn uses_of_tools_are_calls(entries: Seq<EntryView>, i: int) -> (k: int)
    requires
        0 <= i < entries.len(),
        entries[i].entry_type == EntryType::ToolUse,
        entries[i].tool_name is Some,
    ensures
        0 <= k < calls_in(entries).len(),
        calls_in(entries)[k].tool == entries[i].tool_name->0,
        calls_in(entries)[k].timestamp == entries[i].timestamp,
    decreases entries.len(),
{
    let rest = entries.drop_last();
    if i < rest.len() {
        uses_of_tools_are_calls(rest, i)
    } else {
        calls_in(rest).len() as int
    }
}

/// The log is asked from five seconds before the first call to five seconds after the
/// last. Leap seconds are left out.
pub proof fn the_window_is_five_seconds_wider(calls: Seq<CallView>, w: Window, i: int)
    requires
        spans_calls(calls, w),
        0 <= i < calls.len(),
        forall|k: int| 0 <= k < calls.len() ==> (#[trigger] calls[k]).timestamp.nanos < 1_000_000_000,
    ensures
        w.from matches Some(from) ==> from.secs <= calls[i].timestamp.secs - 5 && exists|k: int|
            0 <= k < calls.len() && from.secs == (#[trigger] calls[k]).timestamp.secs - 5
                && from.nanos == calls[k].timestamp.nanos,
        w.to matches Some(to) ==> to.secs >= calls[i].timestamp.secs + 5 && exists|k: int|
            0 <= k < calls.len() && to.secs == (#[trigger] calls[k]).timestamp.secs + 5 && to.nanos
                == calls[k].timestamp.nanos,
        calls.len() == 1 && in_calendar(calls[0].timestamp) && MIN_MILLIS
            <= (calls[0].timestamp.secs - 5) * 1000 ==> w.from is Some,
{
}

/// A decision that was allowed, asked about or denied is shown in capitals, any other as
/// it is.
pub proof fn actions_are_shown_in_capitals()
    ensures
        shown_action("allow"@) == "ALLOW"@,
        shown_action("ask"@) == "ASK"@,
        shown_action("deny"@) == "DENY"@,
        forall|a: Seq<char>|
            a != "allow"@ && a != "ask"@ && a != "deny"@ ==> #[trigger] shown_action(a) == a,
{
    reveal_strlit("allow");
    reveal_strlit("ask");
    reveal_strlit("deny");
    assert("allow"@.len() == 5);
    assert("ask"@.len() == 3);
    assert("deny"@.len() == 4);
}

/// A pattern of up to sixty bytes is shown whole; of a longer one the first fifty-seven
/// bytes are shown, and that there is more.
pub proof fn long_patterns_are_cut(pattern: Seq<char>)
    ensures
        byte_len(pattern) <= 60 ==> shown_pattern(pattern) == pattern,
        byte_len(pattern) > 60 ==> shown_pattern(pattern) == between_bytes(pattern, 0, 57) + seq![
            '.',
            '.',
            '.',
        ],
{
    reveal_strlit("...");
    assert("..."@ =~= seq!['.', '.', '.']);
}

/// Padding puts blanks behind a text until it has the width; a text that has it stays as
/// it is.
pub proof fn padding_puts_blanks_behind(s: Seq<char>, width: nat)
    ensures
        padded(s, width).len() == if s.len() < width {
            width
        } else {
            s.len()
        },
        padded(s, width).take(s.len() as int) == s,
        forall|i: int|
            s.len() <= i < padded(s, width).len() ==> #[trigger] padded(s, width)[i] == ' ',
    decreases width - s.len(),
{
    if s.len() < width {
        padding_puts_blanks_behind(s.push(' '), width);
        let r = padded(s, width);
        assert(r == padded(s.push(' '), width));
        assert(r.take(s.len() as int + 1) == s.push(' '));
        assert(r.take(s.len() as int) =~= r.take(s.len() as int + 1).take(s.len() as int));
        assert(s.push(' ').take(s.len() as int) =~= s);
        assert(r[s.len() as int] == r.take(s.len() as int + 1)[s.len() as int]);
    } else {
        assert(s.take(s.len() as int) =~= s);
    }
}

/// Escaping works sign by sign: a quotation mark or a backslash gets a backslash in front
/// and every other sign stays.
pub proof fn escaping_works_sign_by_sign(s: Seq<char>, c: char)
    ensures
        escaped(Seq::empty()) == Seq::<char>::empty(),
        c == '"' || c == '\\' ==> escaped(s.push(c)) == escaped(s) + seq!['\\', c],
        c != '"' && c != '\\' ==> escaped(s.push(c)) == escaped(s) + seq![c],
{
    assert(s.push(c).drop_last() =~= s);
}

/// A line for people holds the time, the action, the tool and the pattern, in that order.
pub proof fn lines_hold_time_action_tool_and_pattern(e: EventView)
    ensures
        ({
            let time = padded(date_and_time(e.timestamp), 24);
            let action = padded(shown_action(e.action), 8);
            let tool = padded(e.tool, 12);
            let line = human_line(e);
            let a: int = time.len() as int + 1;
            let t: int = a + action.len() + 1;
            let p: int = t + tool.len() + 1;
            &&& line.len() == p + shown_pattern(e.pattern).len()
            &&& line.subrange(0, time.len() as int) == time
            &&& line.subrange(a, a + action.len()) == action
            &&& line.subrange(t, t + tool.len()) == tool
            &&& line.skip(p) == shown_pattern(e.pattern)
            &&& line[a - 1] == ' ' && line[t - 1] == ' ' && line[p - 1] == ' '
        }),
{
    reveal_strlit(" ");
}

/// A record holds the time, the tool, the pattern and the action, in that order, with tabs
/// between them and a zero sign at the end.
pub proof fn records_hold_time_tool_pattern_and_action(time: Seq<char>, e: EventView)
    ensures
        ({
            let record = nul_record(time, e);
            let t: int = time.len() as int + 1;
            let p: int = t + e.tool.len() + 1;
            let a: int = p + e.pattern.len() + 1;
            &&& record.len() == a + e.action.len() + 1
            &&& record.subrange(0, time.len() as int) == time
            &&& record.subrange(t, t + e.tool.len()) == e.tool
            &&& record.subrange(p, p + e.pattern.len()) == e.pattern
            &&& record.subrange(a, a + e.action.len()) == e.action
            &&& record[t - 1] == '\t' && record[p - 1] == '\t' && record[a - 1] == '\t'
            &&& record.last() == '\0'
        }),
{
    reveal_strlit("\t");
    reveal_strlit("\0");
}

/// What is reported of a session is of its calls: each report is of the tool of a call, and
/// its action is unknown or that of a decision of the log on that tool. Gives the call and
/// the decision.
pub proof fn reports_are_of_calls_and_decisions<L: Fn(Window) -> Result<Vec<LogDecision>, String>>(
    calls: Seq<CallView>,
    load: L,
    w: Window,
    reply: Result<Seq<DecisionView>, Seq<char>>,
    events: Seq<EventView>,
    k: int,
) -> (at: (int, int))
    requires
        events_follow(calls, load, w, reply, Ok(events)),
        0 <= k < events.len(),
    ensures
        events.len() == calls.len(),
        reply is Ok,
        may_hold(load, w, reply),
        0 <= at.0 < calls.len(),
        events[k].tool == calls[at.0].tool,
        events[k].pattern == calls[at.0].pattern,
        events[k].timestamp == calls[at.0].timestamp,
        events[k].action != "unknown"@ ==> 0 <= at.1 < reply->Ok_0.len()
            && reply->Ok_0[at.1].permission == events[k].tool && reply->Ok_0[at.1].action
            == events[k].action,
{
    let decisions = reply->Ok_0;
    sorting_by_sorts(events_of(calls, decisions), event_no_later());
    let i = every_report_is_of_a_call(calls, decisions, k);
    let j = reported_decisions_are_on_the_tool(calls[i], decisions);
    (i, j)
}

/// A session without calls has nothing to report, and a log that cannot be read is told.
pub proof fn sessions_without_calls_report_nothing<
    L: Fn(Window) -> Result<Vec<LogDecision>, String>,
>(
    calls: Seq<CallView>,
    load: L,
    w: Window,
    reply: Result<Seq<DecisionView>, Seq<char>>,
    events: Result<Seq<EventView>, Seq<char>>,
)
    requires
        events_follow(calls, load, w, reply, events),
    ensures
        calls.len() == 0 ==> events is Ok && events->Ok_0.len() == 0,
        calls.len() > 0 ==> (events is Ok <==> reply is Ok),
        calls.len() > 0 && reply is Err ==> events->Err_0 == reply->Err_0,
        calls.len() > 0 ==> spans_calls(calls, w),
{
}

/// A line for programs holds the time, the tool, the pattern and the action under their
/// names.
pub proof fn lines_name_what_they_hold(time: Seq<char>, e: EventView)
    ensures
        has_prefix(json_line(time, e), "{\"timestamp\":"@ + time),
        contains_text(json_line(time, e), ",\"tool\":\""@ + e.tool),
        contains_text(json_line(time, e), "\",\"pattern\":\""@ + escaped(e.pattern)),
        has_suffix(json_line(time, e), "\",\"action\":\""@ + e.action + "\"}"@),
{
    let line = json_line(time, e);
    let a = "{\"timestamp\":"@ + time;
    let b = ",\"tool\":\""@ + e.tool;
    let c = "\",\"pattern\":\""@ + escaped(e.pattern);
    let d = "\",\"action\":\""@ + e.action + "\"}"@;
    assert(line =~= a + b + c + d);
    let n = a.len() as int;
    let m = n + b.len();
    assert(line.subrange(0, n) =~= a);
    assert(line.subrange(n, n + b.len()) =~= b);
    assert(occurs_at(line, b, n));
    assert(line.subrange(m, m + c.len()) =~= c);
    assert(occurs_at(line, c, m));
    assert(line.subrange(line.len() - d.len(), line.len() as int) =~= d);
}

/// The log is asked for the span of time and no other: where it always says the same of that
/// span, that is what the reports are made of.
pub proof fn the_log_is_asked_for_the_span<L: Fn(Window) -> Result<Vec<LogDecision>, String>>(
    load: L,
    w: Window,
    reply: Result<Seq<DecisionView>, Seq<char>>,
    says: Result<Seq<DecisionView>, Seq<char>>,
)
    requires
        forall|r: Result<Vec<LogDecision>, String>| #[trigger]
            call_ensures(load, (w,), r) ==> decisions_view(r) == says,
        may_hold(load, w, reply),
    ensures
        reply == says,
{
}

} // verus!
