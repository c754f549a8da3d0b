//! The messages that a screen shows.

use crate::session_detect::ansi::{
    leading_fg, leading_fg_color, line_starts_with_fg_color, stripped,
};
use crate::session_detect::lines::{
    LineKind, ParsedToolCall, ToolCallView, TuiLineKind, classify_tui_line, kinds_have_their_marks,
    line_kind, parse_tool_line, tool_line,
};
use crate::text::{lines, lines_of, reversed};
use vstd::prelude::*;

verus! {

/// A message that the screen shows; depth 0 is the one closest to the footer.
#[derive(Clone, Debug)]
pub struct PaneMessage {
    pub text_lines: Vec<String>,
    pub tool_calls: Vec<ParsedToolCall>,
    pub depth: usize,
}

/// A message that the screen shows.
#[verifier::ext_equal]
pub ghost struct MessageView {
    pub text_lines: Seq<Seq<char>>,
    pub tool_calls: Seq<ToolCallView>,
    pub depth: int,
}

impl View for PaneMessage {
    type V = MessageView;

    open spec fn view(&self) -> MessageView {
        MessageView {
            text_lines: self.text_lines.deep_view(),
            tool_calls: self.tool_calls.deep_view(),
            depth: self.depth as int,
        }
    }
}

impl DeepView for PaneMessage {
    type V = MessageView;

    open spec fn deep_view(&self) -> MessageView {
        self.view()
    }
}

/// Reading the screen upwards: the messages found, and the lines and tool calls
/// of the message at hand, last line first.
pub ghost struct Walk {
    pub messages: Seq<MessageView>,
    pub text: Seq<Seq<char>>,
    pub tools: Seq<ToolCallView>,
    pub completions: int,
    pub stopped: bool,
}

/// Before any line is read.
pub open spec fn walk_start() -> Walk {
    Walk {
        messages: Seq::empty(),
        text: Seq::empty(),
        tools: Seq::empty(),
        completions: 0,
        stopped: false,
    }
}

/// The message at hand is complete. One that holds nothing is dropped.
pub open spec fn flushed(w: Walk) -> Walk {
    if w.text.len() > 0 || w.tools.len() > 0 {
        Walk {
            messages: w.messages.push(
                MessageView {
                    text_lines: w.text.reverse(),
                    tool_calls: w.tools.reverse(),
                    depth: w.messages.len() as int,
                },
            ),
            text: Seq::empty(),
            tools: Seq::empty(),
            ..w
        }
    } else {
        w
    }
}

/// One more line upwards.
pub open spec fn walked(w: Walk, kind: LineKind) -> Walk {
    match kind {
        LineKind::CompletionMarker => Walk { completions: w.completions + 1, ..flushed(w) },
        LineKind::PanelContent => flushed(w),
        LineKind::AssistantText(line) => Walk { text: w.text.push(line), ..w },
        LineKind::ToolInvocation(line) => match tool_line(line) {
            Some(call) => Walk { tools: w.tools.push(call), ..w },
            None => w,
        },
        LineKind::Footer | LineKind::SessionTitle => Walk { stopped: true, ..w },
        LineKind::Empty | LineKind::Other => w,
    }
}

/// Whether reading is over: at a footer or title, with ten messages, or behind
/// the third completion marker.
pub open spec fn walk_is_over(w: Walk) -> bool {
    w.stopped || w.messages.len() >= 10 || w.completions >= 3
}

/// Reading the lines before the `n`-th upwards.
pub open spec fn walk_up(kinds: Seq<LineKind>, n: int, w: Walk) -> Walk
    decreases n,
{
    if n <= 0 || walk_is_over(w) {
        w
    } else {
        walk_up(kinds, n - 1, walked(w, kinds[n - 1]))
    }
}

/// The first of the lines directly above `n` that begin in colour `fg`.
pub open spec fn same_colour_from(raw: Seq<Seq<char>>, fg: Seq<char>, n: int) -> int
    decreases n,
{
    if n > 0 && leading_fg(raw[n - 1]) == Some(fg) {
        same_colour_from(raw, fg, n - 1)
    } else {
        n
    }
}

/// Where the prompt at the footer begins: the lines in the colour of the footer,
/// and above them a blank line and a completion marker.
pub open spec fn prompt_start(raw: Seq<Seq<char>>, kinds: Seq<LineKind>, footer: int) -> int {
    match leading_fg(raw[footer]) {
        Some(fg) => {
            let n = same_colour_from(raw, fg, footer);
            if n > 0 && kinds[n - 1] is Empty {
                if n > 1 && kinds[n - 2] is CompletionMarker {
                    n - 2
                } else {
                    n - 1
                }
            } else {
                n
            }
        },
        None => footer,
    }
}

/// The last footer among the first `n` lines.
pub open spec fn last_footer(kinds: Seq<LineKind>, n: int) -> Option<int>
    decreases n,
{
    if n <= 0 {
        None
    } else if kinds[n - 1] is Footer {
        Some(n - 1)
    } else {
        last_footer(kinds, n - 1)
    }
}

/// What each line is.
pub open spec fn kinds_of(raw: Seq<Seq<char>>) -> Seq<LineKind> {
    Seq::new(raw.len(), |i: int| line_kind(raw[i]))
}

/// The messages above the last footer, the closest first.
pub open spec fn messages_in(raw: Seq<Seq<char>>) -> Seq<MessageView> {
    let kinds = kinds_of(raw);
    match last_footer(kinds, raw.len() as int) {
        Some(footer) => flushed(
            walk_up(kinds, prompt_start(raw, kinds, footer), walk_start()),
        ).messages,
        None => Seq::empty(),
    }
}

fn find_last_footer(kinds: &Vec<TuiLineKind>) -> (r: Option<usize>)
    ensures
        match r {
            Some(i) => last_footer(kinds.deep_view(), kinds.len() as int) == Some(i as int) && i
                < kinds.len(),
            None => last_footer(kinds.deep_view(), kinds.len() as int) is None,
        },
{
    let mut n: usize = kinds.len();
    while n > 0
        invariant
            n <= kinds.len(),
            last_footer(kinds.deep_view(), kinds.len() as int) == last_footer(
                kinds.deep_view(),
                n as int,
            ),
        decreases n,
    {
        assert(kinds.deep_view()[n - 1] == kinds@[n - 1]@);
        match &kinds[n - 1] {
            TuiLineKind::Footer => {
                return Some(n - 1);
            },
            _ => {},
        }
        n -= 1;
    }
    None
}

fn find_prompt_start(raw: &Vec<String>, kinds: &Vec<TuiLineKind>, footer: usize) -> (r: usize)
    requires
        footer < raw.len(),
        kinds.len() == raw.len(),
    ensures
        r == prompt_start(raw.deep_view(), kinds.deep_view(), footer as int),
        r <= footer,
{
    assert(raw.deep_view()[footer as int] == raw@[footer as int]@);
    let fg = match leading_fg_color(raw[footer].as_str()) {
        Some(fg) => fg,
        None => {
            return footer;
        },
    };
    let mut n: usize = footer;
    while n > 0
        invariant_except_break
            same_colour_from(raw.deep_view(), fg@, n as int) == same_colour_from(
                raw.deep_view(),
                fg@,
                footer as int,
            ),
        invariant
            n <= footer < raw.len(),
        ensures
            n == same_colour_from(raw.deep_view(), fg@, footer as int),
        decreases n,
    {
        assert(raw.deep_view()[n - 1] == raw@[n - 1]@);
        if !line_starts_with_fg_color(raw[n - 1].as_str(), fg.as_str()) {
            break;
        }
        n -= 1;
    }
    if n > 0 {
        assert(kinds.deep_view()[n - 1] == kinds@[n - 1]@);
        match &kinds[n - 1] {
            TuiLineKind::Empty => {
                if n > 1 {
                    assert(kinds.deep_view()[n - 2] == kinds@[n - 2]@);
                    match &kinds[n - 2] {
                        TuiLineKind::CompletionMarker => {
                            return n - 2;
                        },
                        _ => {},
                    }
                }
                return n - 1;
            },
            _ => {},
        }
    }
    n
}

/// The walk in progress.
struct WalkState {
    messages: Vec<PaneMessage>,
    text: Vec<String>,
    tools: Vec<ParsedToolCall>,
    completions: usize,
    stopped: bool,
}

impl View for WalkState {
    type V = Walk;

    closed spec fn view(&self) -> Walk {
        Walk {
            messages: self.messages.deep_view(),
            text: self.text.deep_view(),
            tools: self.tools.deep_view(),
            completions: self.completions as int,
            stopped: self.stopped,
        }
    }
}

fn flush(w: WalkState) -> (r: WalkState)
    ensures
        r@ == flushed(w@),
        r.completions == w.completions,
{
    if w.text.len() == 0 && w.tools.len() == 0 {
        return w;
    }
    let ghost old_messages = w.messages.deep_view();
    let ghost old_text = w.text.deep_view();
    let ghost old_tools = w.tools.deep_view();
    let mut messages = w.messages;
    let message = PaneMessage {
        text_lines: reversed(w.text),
        tool_calls: reversed(w.tools),
        depth: messages.len(),
    };
    assert(message.text_lines.deep_view() == old_text.reverse());
    assert(message.tool_calls.deep_view() == old_tools.reverse());
    messages.push(message);
    assert(messages.deep_view() == old_messages.push(message@));
    let r = WalkState {
        messages,
        text: Vec::new(),
        tools: Vec::new(),
        completions: w.completions,
        stopped: w.stopped,
    };
    assert(r.text.deep_view() == Seq::<Seq<char>>::empty());
    assert(r.tools.deep_view() == Seq::<ToolCallView>::empty());
    r
}

fn walk_line(w: WalkState, kind: &TuiLineKind) -> (r: WalkState)
    requires
        w.completions < 3,
    ensures
        r@ == walked(w@, kind@),
        r.completions <= 3,
{
    match kind {
        TuiLineKind::CompletionMarker => {
            let f = flush(w);
            WalkState { completions: f.completions + 1, ..f }
        },
        TuiLineKind::PanelContent => flush(w),
        TuiLineKind::AssistantText(line) => {
            let mut w = w;
            let ghost before = w.text.deep_view();
            w.text.push(line.clone());
            assert(w.text.deep_view() == before.push(line@));
            w
        },
        TuiLineKind::ToolInvocation(line) => {
            let mut w = w;
            match parse_tool_line(line.as_str()) {
                Some(call) => {
                    let ghost before = w.tools.deep_view();
                    w.tools.push(call);
                    assert(w.tools.deep_view() == before.push(call@));
                },
                None => {},
            }
            w
        },
        TuiLineKind::Footer | TuiLineKind::SessionTitle => WalkState { stopped: true, ..w },
        TuiLineKind::Empty | TuiLineKind::Other => w,
    }
}

/// Reads the screen into messages, from the last footer upwards.
pub fn parse_pane_messages(content: &str) -> (r: Vec<PaneMessage>)
    ensures
        r.deep_view() == messages_in(lines_of(content@)),
{
    let raw = lines(content);
    let mut kinds: Vec<TuiLineKind> = Vec::new();
    let mut i: usize = 0;
    while i < raw.len()
        invariant
            i <= raw.len(),
            kinds.len() == i,
            forall|j: int| 0 <= j < i ==> (#[trigger] kinds@[j])@ == line_kind(raw@[j]@),
        decreases raw.len() - i,
    {
        kinds.push(classify_tui_line(raw[i].as_str()));
        i += 1;
    }
    let ghost kinds_view = kinds_of(raw.deep_view());
    assert(kinds.deep_view() == kinds_view);
    let footer = match find_last_footer(&kinds) {
        Some(f) => f,
        None => {
            let none: Vec<PaneMessage> = Vec::new();
            assert(none.deep_view() == Seq::<MessageView>::empty());
            return none;
        },
    };
    let start = find_prompt_start(&raw, &kinds, footer);
    let mut w = WalkState {
        messages: Vec::new(),
        text: Vec::new(),
        tools: Vec::new(),
        completions: 0,
        stopped: false,
    };
    assert(w.messages.deep_view() == Seq::<MessageView>::empty());
    assert(w.text.deep_view() == Seq::<Seq<char>>::empty());
    assert(w.tools.deep_view() == Seq::<ToolCallView>::empty());
    let ghost end = walk_up(kinds_view, start as int, walk_start());
    let mut n: usize = start;
    while n > 0 && !(w.stopped || w.messages.len() >= 10 || w.completions >= 3)
        invariant
            n <= kinds.len(),
            kinds.deep_view() == kinds_view,
            w.completions <= 3,
            walk_up(kinds_view, n as int, w@) == end,
        decreases n,
    {
        assert(kinds_view[n - 1] == kinds@[n - 1]@);
        w = walk_line(w, &kinds[n - 1]);
        n -= 1;
    }
    flush(w).messages
}

proof fn walk_keeps_messages_sound(kinds: Seq<LineKind>, n: int, w: Walk)
    requires
        messages_are_sound(w),
    ensures
        messages_are_sound(walk_up(kinds, n, w)),
    decreases n,
{
    if n > 0 && !walk_is_over(w) {
        walk_keeps_messages_sound(kinds, n - 1, walked(w, kinds[n - 1]));
    }
}

spec fn messages_are_sound(w: Walk) -> bool {
    &&& w.messages.len() <= 10
    &&& w.messages.len() == 10 ==> w.text.len() == 0 && w.tools.len() == 0
    &&& forall|i: int|
        0 <= i < w.messages.len() ==> (#[trigger] w.messages[i]).depth == i && (
        w.messages[i].text_lines.len() > 0 || w.messages[i].tool_calls.len() > 0)
}

/// A screen gives at most ten messages. Each holds a line or a tool call, and
/// its depth is its place, counted from the footer.
pub proof fn messages_are_few_and_full(raw: Seq<Seq<char>>)
    ensures
        messages_in(raw).len() <= 10,
        forall|i: int|
            0 <= i < messages_in(raw).len() ==> (#[trigger] messages_in(raw)[i]).depth == i && (
            messages_in(raw)[i].text_lines.len() > 0 || messages_in(raw)[i].tool_calls.len() > 0),
{
    let kinds = kinds_of(raw);
    match last_footer(kinds, raw.len() as int) {
        Some(footer) => {
            let n = prompt_start(raw, kinds, footer);
            walk_keeps_messages_sound(kinds, n, walk_start());
            let w = walk_up(kinds, n, walk_start());
            if w.text.len() > 0 || w.tools.len() > 0 {
                assert(flushed(w).messages == w.messages.push(flushed(w).messages.last()));
            }
        },
        None => {},
    }
}

spec fn is_shown_line(raw: Seq<Seq<char>>, from: int, to: int, line: Seq<char>) -> bool {
    exists|i: int| from <= i < to && #[trigger] raw[i] == line && line_kind(line) is AssistantText
}

spec fn shows_call(raw: Seq<char>, call: ToolCallView) -> bool {
    line_kind(raw) matches LineKind::ToolInvocation(line) && tool_line(line) == Some(call)
}

spec fn is_shown_call(raw: Seq<Seq<char>>, from: int, to: int, call: ToolCallView) -> bool {
    exists|i: int| from <= i < to && shows_call(#[trigger] raw[i], call)
}

spec fn shows_lines(raw: Seq<Seq<char>>, from: int, to: int, text: Seq<Seq<char>>) -> bool {
    forall|t: int| 0 <= t < text.len() ==> is_shown_line(raw, from, to, #[trigger] text[t])
}

spec fn shows_calls(raw: Seq<Seq<char>>, from: int, to: int, calls: Seq<ToolCallView>) -> bool {
    forall|c: int| 0 <= c < calls.len() ==> is_shown_call(raw, from, to, #[trigger] calls[c])
}

spec fn walk_shows(raw: Seq<Seq<char>>, from: int, to: int, w: Walk) -> bool {
    &&& shows_lines(raw, from, to, w.text)
    &&& shows_calls(raw, from, to, w.tools)
    &&& forall|m: int|
        0 <= m < w.messages.len() ==> shows_lines(
            raw,
            from,
            to,
            (#[trigger] w.messages[m]).text_lines,
        ) && shows_calls(raw, from, to, w.messages[m].tool_calls)
}

proof fn showing_is_kept(raw: Seq<Seq<char>>, from: int, to: int, w: Walk)
    requires
        walk_shows(raw, from, to, w),
    ensures
        walk_shows(raw, from - 1, to, w),
{
    assert forall|line: Seq<char>| is_shown_line(raw, from, to, line) implies #[trigger] is_shown_line(
        raw,
        from - 1,
        to,
        line,
    ) by {
        let i = choose|i: int|
            from <= i < to && #[trigger] raw[i] == line && line_kind(line) is AssistantText;
        assert(raw[i] == line);
    }
    assert forall|call: ToolCallView|
        is_shown_call(raw, from, to, call) implies #[trigger] is_shown_call(
        raw,
        from - 1,
        to,
        call,
    ) by {
        let i = choose|i: int| from <= i < to && shows_call(#[trigger] raw[i], call);
        assert(shows_call(raw[i], call));
    }
    assert forall|m: int| 0 <= m < w.messages.len() implies shows_lines(
        raw,
        from - 1,
        to,
        (#[trigger] w.messages[m]).text_lines,
    ) && shows_calls(raw, from - 1, to, w.messages[m].tool_calls) by {
        let text = w.messages[m].text_lines;
        let calls = w.messages[m].tool_calls;
        assert(shows_lines(raw, from, to, text));
        assert(shows_calls(raw, from, to, calls));
        assert forall|t: int| 0 <= t < text.len() implies is_shown_line(
            raw,
            from - 1,
            to,
            #[trigger] text[t],
        ) by {
            assert(is_shown_line(raw, from, to, text[t]));
        }
        assert forall|c: int| 0 <= c < calls.len() implies is_shown_call(
            raw,
            from - 1,
            to,
            #[trigger] calls[c],
        ) by {
            assert(is_shown_call(raw, from, to, calls[c]));
        }
    }
}

proof fn flushing_shows(raw: Seq<Seq<char>>, from: int, to: int, w: Walk)
    requires
        walk_shows(raw, from, to, w),
    ensures
        walk_shows(raw, from, to, flushed(w)),
{
    let f = flushed(w);
    assert forall|m: int| 0 <= m < f.messages.len() implies shows_lines(
        raw,
        from,
        to,
        (#[trigger] f.messages[m]).text_lines,
    ) && shows_calls(raw, from, to, f.messages[m].tool_calls) by {
        if m < w.messages.len() {
            assert(f.messages[m] == w.messages[m]);
        } else {
            let text = w.text.reverse();
            let calls = w.tools.reverse();
            assert forall|t: int| 0 <= t < text.len() implies is_shown_line(
                raw,
                from,
                to,
                #[trigger] text[t],
            ) by {
                assert(text[t] == w.text[w.text.len() - 1 - t]);
            }
            assert forall|c: int| 0 <= c < calls.len() implies is_shown_call(
                raw,
                from,
                to,
                #[trigger] calls[c],
            ) by {
                assert(calls[c] == w.tools[w.tools.len() - 1 - c]);
            }
        }
    }
}

proof fn stepping_shows(raw: Seq<Seq<char>>, from: int, to: int, w: Walk)
    requires
        0 < from <= to <= raw.len(),
        walk_shows(raw, from, to, w),
    ensures
        walk_shows(raw, from - 1, to, walked(w, line_kind(raw[from - 1]))),
{
    let own = raw[from - 1];
    let kind = line_kind(own);
    showing_is_kept(raw, from, to, w);
    flushing_shows(raw, from - 1, to, w);
    match kind {
        LineKind::AssistantText(line) => {
            kinds_have_their_marks(own, stripped(own));
            assert(is_shown_line(raw, from - 1, to, own));
        },
        LineKind::ToolInvocation(line) => {
            if let Some(call) = tool_line(line) {
                assert(shows_call(own, call));
                assert(is_shown_call(raw, from - 1, to, call));
            }
        },
        _ => {},
    }
}

proof fn walking_shows(raw: Seq<Seq<char>>, n: int, to: int, w: Walk)
    requires
        0 <= n <= to <= raw.len(),
        walk_shows(raw, n, to, w),
    ensures
        walk_shows(raw, 0, to, walk_up(kinds_of(raw), n, w)),
    decreases n,
{
    if n > 0 {
        let kinds = kinds_of(raw);
        stepping_shows(raw, n, to, w);
        assert(kinds[n - 1] == line_kind(raw[n - 1]));
        if walk_is_over(w) {
            showing_is_kept(raw, n, to, w);
            walk_over_shows(raw, n - 1, to, w);
        } else {
            walking_shows(raw, n - 1, to, walked(w, kinds[n - 1]));
        }
    }
}

proof fn walk_over_shows(raw: Seq<Seq<char>>, n: int, to: int, w: Walk)
    requires
        0 <= n,
        walk_shows(raw, n, to, w),
    ensures
        walk_shows(raw, 0, to, w),
    decreases n,
{
    if n > 0 {
        showing_is_kept(raw, n, to, w);
        walk_over_shows(raw, n - 1, to, w);
    }
}

proof fn footer_is_last(kinds: Seq<LineKind>, n: int)
    requires
        0 <= n <= kinds.len(),
    ensures
        match last_footer(kinds, n) {
            Some(f) => 0 <= f < n && kinds[f] is Footer && forall|i: int|
                f < i < n ==> !(#[trigger] kinds[i] is Footer),
            None => forall|i: int| 0 <= i < n ==> !(#[trigger] kinds[i] is Footer),
        },
    decreases n,
{
    if n > 0 && !(kinds[n - 1] is Footer) {
        footer_is_last(kinds, n - 1);
    }
}

proof fn prompts_stand_above_the_footer(raw: Seq<Seq<char>>, fg: Seq<char>, n: int)
    requires
        0 <= n,
    ensures
        0 <= same_colour_from(raw, fg, n) <= n,
    decreases n,
{
    if n > 0 {
        prompts_stand_above_the_footer(raw, fg, n - 1);
    }
}

proof fn messages_show(raw: Seq<Seq<char>>) -> (f: int)
    requires
        messages_in(raw).len() > 0,
    ensures
        0 <= f < raw.len(),
        line_kind(raw[f]) is Footer,
        forall|i: int| f < i < raw.len() ==> !(line_kind(#[trigger] raw[i]) is Footer),
        forall|m: int|
            0 <= m < messages_in(raw).len() ==> shows_lines(
                raw,
                0,
                f,
                (#[trigger] messages_in(raw)[m]).text_lines,
            ) && shows_calls(raw, 0, f, messages_in(raw)[m].tool_calls),
{
    let kinds = kinds_of(raw);
    footer_is_last(kinds, raw.len() as int);
    let f = last_footer(kinds, raw.len() as int)->0;
    if let Some(fg) = leading_fg(raw[f]) {
        prompts_stand_above_the_footer(raw, fg, f);
    }
    let n = prompt_start(raw, kinds, f);
    walking_shows(raw, n, f, walk_start());
    flushing_shows(raw, 0, f, walk_up(kinds, n, walk_start()));
    assert(kinds[f] == line_kind(raw[f]));
    assert forall|i: int| f < i < raw.len() implies !(line_kind(#[trigger] raw[i]) is Footer) by {
        assert(kinds[i] == line_kind(raw[i]));
    }
    f
}

/// Each line of text in a message of a screen is a line of an answer on the screen,
/// above the last footer. Gives where it stands, and where the footer does.
pub proof fn shown_text_stands_on_the_screen(raw: Seq<Seq<char>>, m: int, t: int) -> (r: (int, int))
    requires
        0 <= m < messages_in(raw).len(),
        0 <= t < messages_in(raw)[m].text_lines.len(),
    ensures
        0 <= r.0 < r.1 < raw.len(),
        raw[r.0] == messages_in(raw)[m].text_lines[t],
        line_kind(raw[r.0]) is AssistantText,
        line_kind(raw[r.1]) is Footer,
        forall|i: int| r.1 < i < raw.len() ==> !(line_kind(#[trigger] raw[i]) is Footer),
{
    let f = messages_show(raw);
    let line = messages_in(raw)[m].text_lines[t];
    assert(is_shown_line(raw, 0, f, line));
    let i = choose|i: int| 0 <= i < f && #[trigger] raw[i] == line && line_kind(line) is AssistantText;
    (i, f)
}

/// Each tool call in a message of a screen is what a tool line on the screen says, above
/// the last footer. Gives where it stands, and where the footer does.
pub proof fn shown_calls_stand_on_the_screen(raw: Seq<Seq<char>>, m: int, c: int) -> (r: (int, int))
    requires
        0 <= m < messages_in(raw).len(),
        0 <= c < messages_in(raw)[m].tool_calls.len(),
    ensures
        0 <= r.0 < r.1 < raw.len(),
        line_kind(raw[r.0]) is ToolInvocation,
        tool_line(line_kind(raw[r.0])->ToolInvocation_0) == Some(messages_in(raw)[m].tool_calls[c]),
        line_kind(raw[r.1]) is Footer,
        forall|i: int| r.1 < i < raw.len() ==> !(line_kind(#[trigger] raw[i]) is Footer),
{
    let f = messages_show(raw);
    let call = messages_in(raw)[m].tool_calls[c];
    assert(is_shown_call(raw, 0, f, call));
    let i = choose|i: int| 0 <= i < f && shows_call(#[trigger] raw[i], call);
    (i, f)
}

/// A screen without a footer has no messages.
pub proof fn without_a_footer_nothing_is_shown(raw: Seq<Seq<char>>)
    requires
        forall|i: int| 0 <= i < raw.len() ==> !(line_kind(#[trigger] raw[i]) is Footer),
    ensures
        messages_in(raw).len() == 0,
{
    if messages_in(raw).len() > 0 {
        messages_show(raw);
    }
}

/// Lines of one answer make up one message, from top to bottom, and it is the nearest to
/// the footer.
pub proof fn an_answer_reads_from_top_to_bottom(kinds: Seq<LineKind>, n: int)
    requires
        0 < n <= kinds.len(),
        forall|i: int| 0 <= i < n ==> #[trigger] kinds[i] is AssistantText,
    ensures
        ({
            let found = flushed(walk_up(kinds, n, walk_start())).messages;
            &&& found.len() == 1
            &&& found[0].depth == 0
            &&& found[0].tool_calls.len() == 0
            &&& found[0].text_lines.len() == n
            &&& forall|i: int|
                0 <= i < n ==> #[trigger] found[0].text_lines[i] == kinds[i]->AssistantText_0
        }),
{
    lines_are_gathered(kinds, n, walk_start());
    let w = walk_up(kinds, n, walk_start());
    assert forall|i: int| 0 <= i < n implies #[trigger] w.text.reverse()[i]
        == kinds[i]->AssistantText_0 by {
        assert(w.text.reverse()[i] == w.text[n - 1 - i]);
    }
}

proof fn lines_are_gathered(kinds: Seq<LineKind>, n: int, w: Walk)
    requires
        0 <= n <= kinds.len(),
        forall|i: int| 0 <= i < n ==> #[trigger] kinds[i] is AssistantText,
        !walk_is_over(w),
    ensures
        ({
            let r = walk_up(kinds, n, w);
            &&& r == (Walk { text: r.text, ..w })
            &&& r.text.len() == w.text.len() + n
            &&& forall|i: int| 0 <= i < w.text.len() ==> #[trigger] r.text[i] == w.text[i]
            &&& forall|i: int|
                0 <= i < n ==> #[trigger] r.text[w.text.len() + n - 1 - i]
                    == kinds[i]->AssistantText_0
        }),
    decreases n,
{
    if n > 0 {
        let next = walked(w, kinds[n - 1]);
        lines_are_gathered(kinds, n - 1, next);
        let r = walk_up(kinds, n, w);
        assert(r.text[w.text.len() as int] == next.text[w.text.len() as int]);
        assert forall|i: int| 0 <= i < n implies #[trigger] r.text[w.text.len() + n - 1 - i]
            == kinds[i]->AssistantText_0 by {
            if i < n - 1 {
                assert(r.text[next.text.len() + (n - 1) - 1 - i] == kinds[i]->AssistantText_0);
            }
        }
    }
}

/// A box or a panel ends a message: what was gathered becomes one, with the lines and
/// calls from top to bottom and the number of messages below it as its depth, and
/// nothing is gathered any more. A title or a footer ends the search, and so do three
/// boxes or ten messages.
pub proof fn marks_end_messages(w: Walk, kind: LineKind)
    ensures
        kind is CompletionMarker || kind is PanelContent ==> {
            let r = walked(w, kind);
            &&& r.text.len() == 0 && r.tools.len() == 0
            &&& r.stopped == w.stopped
            &&& r.completions == w.completions + (if kind is CompletionMarker {
                1int
            } else {
                0
            })
            &&& w.text.len() + w.tools.len() == 0 ==> r.messages == w.messages
            &&& w.text.len() + w.tools.len() > 0 ==> {
                &&& r.messages.len() == w.messages.len() + 1
                &&& r.messages.drop_last() == w.messages
                &&& r.messages.last().depth == w.messages.len()
                &&& r.messages.last().text_lines.len() == w.text.len()
                &&& r.messages.last().tool_calls.len() == w.tools.len()
                &&& forall|i: int|
                    0 <= i < w.tools.len() ==> #[trigger] r.messages.last().tool_calls[i]
                        == w.tools[w.tools.len() - 1 - i]
                &&& forall|i: int|
                    0 <= i < w.text.len() ==> #[trigger] r.messages.last().text_lines[i]
                        == w.text[w.text.len() - 1 - i]
            }
        },
        kind is SessionTitle || kind is Footer ==> walked(w, kind).stopped && walked(
            w,
            kind,
        ).messages == w.messages,
        kind is Empty || kind is Other ==> walked(w, kind) == w,
        walk_is_over(w) <==> w.stopped || w.completions >= 3 || w.messages.len() >= 10,
{
    assert(flushed(w).messages.drop_last() =~= w.messages || w.text.len() + w.tools.len() == 0);
}

} // verus!
