//! Filters that tell the session of a screen from others.

use crate::session_detect::ansi::{
    each_trimmed, longest_ansi_segment, longest_is_longest, longest_of, longest_segment, nonempty,
    segments,
};
use crate::session_detect::lines::{ParsedToolCall, ToolCallView};
use crate::session_detect::messages::{MessageView, PaneMessage};
use crate::text::{
    ascii_positions, byte_len, bytes_add_up, chars_of, has_prefix, len_bytes, starts_with,
    string_of, trimmed,
};
use vstd::prelude::*;
use vstd::slice::slice_subrange;

verus! {

/// What the records of a message must hold.
#[derive(Clone, PartialEq, Debug)]
pub enum FilterCriterion {
    TextContains(String),
    ToolFieldEquals { tool_name: String, field: String, value: String },
}

/// What the records of a message must hold.
pub ghost enum CriterionView {
    TextContains(Seq<char>),
    ToolFieldEquals { tool_name: Seq<char>, field: Seq<char>, value: Seq<char> },
}

impl View for FilterCriterion {
    type V = CriterionView;

    open spec fn view(&self) -> CriterionView {
        match self {
            FilterCriterion::TextContains(needle) => CriterionView::TextContains(needle@),
            FilterCriterion::ToolFieldEquals { tool_name, field, value } =>
                CriterionView::ToolFieldEquals {
                    tool_name: tool_name@,
                    field: field@,
                    value: value@,
                },
        }
    }
}

impl DeepView for FilterCriterion {
    type V = CriterionView;

    open spec fn deep_view(&self) -> CriterionView {
        self.view()
    }
}

/// What the message at a depth must hold.
#[derive(Clone, Debug)]
pub struct SessionFilter {
    pub depth: usize,
    pub criteria: Vec<FilterCriterion>,
}

/// What the message at a depth must hold.
pub ghost struct FilterView {
    pub depth: int,
    pub criteria: Seq<CriterionView>,
}

impl View for SessionFilter {
    type V = FilterView;

    open spec fn view(&self) -> FilterView {
        FilterView { depth: self.depth as int, criteria: self.criteria.deep_view() }
    }
}

impl DeepView for SessionFilter {
    type V = FilterView;

    open spec fn deep_view(&self) -> FilterView {
        self.view()
    }
}

/// A needle has at least this many bytes.
pub const MIN_NEEDLE_LENGTH: usize = 20;

/// The longest segment of each line that has one, of at least `min` bytes.
pub open spec fn line_segments(lines: Seq<Seq<char>>, min: int) -> Seq<Seq<char>>
    decreases lines.len(),
{
    if lines.len() == 0 {
        Seq::empty()
    } else {
        let before = line_segments(lines.drop_last(), min);
        match longest_segment(lines.last()) {
            Some(seg) => if byte_len(seg) >= min {
                before.push(seg)
            } else {
                before
            },
            None => before,
        }
    }
}

/// The longest segment of all lines of at least `min` bytes; of several, the last.
pub open spec fn best_segment(lines: Seq<Seq<char>>, min: int) -> Option<Seq<char>> {
    longest_of(line_segments(lines, min))
}

/// The number of named values in all tool calls.
pub open spec fn field_count(calls: Seq<ToolCallView>) -> int
    decreases calls.len(),
{
    if calls.len() == 0 {
        0
    } else {
        field_count(calls.drop_last()) + calls.last().fields.len()
    }
}

/// How much a message holds: the length of its longest segment, and the number of
/// named values.
pub open spec fn message_score(m: MessageView) -> int {
    field_count(m.tool_calls) + match best_segment(m.text_lines, 0) {
        Some(seg) => byte_len(seg) as int,
        None => 0,
    }
}

/// The text to look for: the longest segment that is long enough, without the
/// prompt of a shell.
pub open spec fn needle_of(lines: Seq<Seq<char>>) -> Option<Seq<char>> {
    match best_segment(lines, MIN_NEEDLE_LENGTH as int) {
        Some(seg) => {
            let needle = if has_prefix(seg, "$ "@) {
                seg.skip(2)
            } else {
                seg
            };
            if byte_len(needle) >= MIN_NEEDLE_LENGTH {
                Some(needle)
            } else {
                None
            }
        },
        None => None,
    }
}

/// Whether a message holds both a text to look for and named values.
pub open spec fn has_both(m: MessageView) -> bool {
    needle_of(m.text_lines) is Some && field_count(m.tool_calls) > 0
}

/// How well a message tells sessions apart: one that holds both text and named
/// values before any other, and then by how much it holds.
pub open spec fn message_rank(m: MessageView) -> (bool, int) {
    (has_both(m), message_score(m))
}

/// Whether a message of one rank comes before a message of another.
pub open spec fn outranks(a: (bool, int), b: (bool, int)) -> bool {
    (a.0 && !b.0) || (a.0 == b.0 && a.1 > b.1)
}

/// The named values of a tool call as criteria.
pub open spec fn call_criteria(call: ToolCallView) -> Seq<CriterionView> {
    Seq::new(
        call.fields.len(),
        |i: int|
            CriterionView::ToolFieldEquals {
                tool_name: call.tool_name,
                field: call.fields[i].0,
                value: call.fields[i].1,
            },
    )
}

/// The named values of all tool calls as criteria.
pub open spec fn calls_criteria(calls: Seq<ToolCallView>) -> Seq<CriterionView>
    decreases calls.len(),
{
    if calls.len() == 0 {
        Seq::empty()
    } else {
        calls_criteria(calls.drop_last()) + call_criteria(calls.last())
    }
}

/// What the records of a message must hold: its needle, and its named values.
pub open spec fn message_criteria(m: MessageView) -> Seq<CriterionView> {
    (match needle_of(m.text_lines) {
        Some(needle) => seq![CriterionView::TextContains(needle)],
        None => Seq::empty(),
    }) + calls_criteria(m.tool_calls)
}

/// The first of the best messages among the first `n`, those in `taken` left out.
pub open spec fn best_message(ranks: Seq<(bool, int)>, taken: Seq<int>, n: int) -> Option<int>
    decreases n,
{
    if n <= 0 {
        None
    } else {
        let before = best_message(ranks, taken, n - 1);
        if taken.contains(n - 1) {
            before
        } else {
            match before {
                Some(k) => if outranks(ranks[n - 1], ranks[k]) {
                    Some(n - 1)
                } else {
                    Some(k)
                },
                None => Some(n - 1),
            }
        }
    }
}

/// The best `k` messages, best first; of equals, the one closest to the footer.
pub open spec fn best_messages(ranks: Seq<(bool, int)>, k: nat) -> Seq<int>
    decreases k,
{
    if k == 0 {
        Seq::empty()
    } else {
        let taken = best_messages(ranks, (k - 1) as nat);
        match best_message(ranks, taken, ranks.len() as int) {
            Some(i) => taken.push(i),
            None => taken,
        }
    }
}

/// How well each message tells sessions apart.
pub open spec fn ranks_of(messages: Seq<MessageView>) -> Seq<(bool, int)> {
    Seq::new(messages.len(), |i: int| message_rank(messages[i]))
}

/// The filters of the chosen messages; one without criteria gives none.
pub open spec fn filters_of(messages: Seq<MessageView>, chosen: Seq<int>) -> Seq<FilterView>
    decreases chosen.len(),
{
    if chosen.len() == 0 {
        Seq::empty()
    } else {
        let before = filters_of(messages, chosen.drop_last());
        let m = messages[chosen.last()];
        let criteria = message_criteria(m);
        if criteria.len() > 0 {
            before.push(FilterView { depth: m.depth, criteria })
        } else {
            before
        }
    }
}

/// The filters of the three best messages.
pub open spec fn filters_for(messages: Seq<MessageView>) -> Seq<FilterView> {
    filters_of(messages, best_messages(ranks_of(messages), 3))
}

fn find_best_segment(lines: &Vec<String>, min: usize) -> (r: Option<String>)
    ensures
        r.deep_view() == best_segment(lines.deep_view(), min as int),
{
    let ghost all = lines.deep_view();
    let mut best: Option<String> = None;
    let mut i: usize = 0;
    while i < lines.len()
        invariant
            i <= lines.len(),
            all == lines.deep_view(),
            best.deep_view() == best_segment(all.take(i as int), min as int),
        decreases lines.len() - i,
    {
        proof {
            assert(all.take(i + 1).drop_last() == all.take(i as int));
            assert(all.take(i + 1).last() == lines@[i as int]@);
            let done = line_segments(all.take(i as int), min as int);
            assert(forall|x: Seq<char>| #[trigger] done.push(x).drop_last() == done);
        }
        match longest_ansi_segment(lines[i].as_str()) {
            Some(seg) => {
                if len_bytes(seg.as_str()) >= min {
                    let longer = match &best {
                        Some(b) => len_bytes(seg.as_str()) >= len_bytes(b.as_str()),
                        None => true,
                    };
                    if longer {
                        best = Some(seg);
                    }
                }
            },
            None => {},
        }
        i += 1;
    }
    assert(all.take(i as int) == all);
    best
}

fn count_fields(calls: &Vec<ParsedToolCall>) -> (r: u128)
    ensures
        r == field_count(calls.deep_view()),
        r <= calls.len() * usize::MAX,
{
    let ghost all = calls.deep_view();
    let mut n: u128 = 0;
    let mut i: usize = 0;
    while i < calls.len()
        invariant
            i <= calls.len(),
            all == calls.deep_view(),
            n == field_count(all.take(i as int)),
            n <= i * usize::MAX,
        decreases calls.len() - i,
    {
        assert(all.take(i + 1).drop_last() == all.take(i as int));
        assert(all.take(i + 1).last() == calls@[i as int]@);
        assert((i + 1) * usize::MAX == i * usize::MAX + usize::MAX) by (nonlinear_arith);
        assert(i * usize::MAX + usize::MAX <= u128::MAX) by (nonlinear_arith)
            requires
                i < usize::MAX,
        ;
        n = n + calls[i].fields.len() as u128;
        i += 1;
    }
    assert(all.take(i as int) == all);
    n
}

fn score_message(m: &PaneMessage) -> (r: u128)
    ensures
        r == message_score(m@),
{
    let longest: usize = match find_best_segment(&m.text_lines, 0) {
        Some(seg) => len_bytes(seg.as_str()),
        None => 0,
    };
    let fields = count_fields(&m.tool_calls);
    let ghost calls = m.tool_calls.len();
    assert(calls * usize::MAX + usize::MAX <= u128::MAX) by (nonlinear_arith)
        requires
            calls <= usize::MAX,
    ;
    longest as u128 + fields
}

fn find_needle(lines: &Vec<String>) -> (r: Option<String>)
    ensures
        r.deep_view() == needle_of(lines.deep_view()),
{
    match find_best_segment(lines, MIN_NEEDLE_LENGTH) {
        Some(seg) => {
            let needle = if starts_with(seg.as_str(), "$ ") {
                proof {
                    reveal_strlit("$ ");
                }
                let v = chars_of(seg.as_str());
                assert(v@.skip(2) == v@.subrange(2, v@.len() as int));
                string_of(slice_subrange(v.as_slice(), 2, v.len()))
            } else {
                seg
            };
            if len_bytes(needle.as_str()) >= MIN_NEEDLE_LENGTH {
                Some(needle)
            } else {
                None
            }
        },
        None => None,
    }
}

fn push_call_criteria(out: Vec<FilterCriterion>, call: &ParsedToolCall) -> (r: Vec<FilterCriterion>)
    ensures
        r.deep_view() == out.deep_view() + call_criteria(call@),
{
    let ghost start = out.deep_view();
    let ghost all = call_criteria(call@);
    let mut r = out;
    let mut i: usize = 0;
    while i < call.fields.len()
        invariant
            i <= call.fields.len(),
            all == call_criteria(call@),
            r.deep_view() == start + all.take(i as int),
        decreases call.fields.len() - i,
    {
        let ghost before = r.deep_view();
        let c = FilterCriterion::ToolFieldEquals {
            tool_name: call.tool_name.clone(),
            field: call.fields[i].0.clone(),
            value: call.fields[i].1.clone(),
        };
        r.push(c);
        assert(c@ == all[i as int]);
        assert(r.deep_view() == before.push(c@));
        assert(all.take(i + 1) == all.take(i as int).push(all[i as int]));
        i += 1;
    }
    assert(all.take(i as int) == all);
    r
}

fn criteria_of(m: &PaneMessage) -> (r: Vec<FilterCriterion>)
    ensures
        r.deep_view() == message_criteria(m@),
{
    let mut r: Vec<FilterCriterion> = Vec::new();
    match find_needle(&m.text_lines) {
        Some(needle) => {
            let ghost view = needle@;
            r.push(FilterCriterion::TextContains(needle));
            assert(r.deep_view() == seq![CriterionView::TextContains(view)]);
        },
        None => {
            assert(r.deep_view() == Seq::<CriterionView>::empty());
        },
    }
    let ghost start = r.deep_view();
    let ghost all = m.tool_calls.deep_view();
    let mut i: usize = 0;
    assert(start + Seq::<CriterionView>::empty() == start);
    while i < m.tool_calls.len()
        invariant
            i <= m.tool_calls.len(),
            all == m.tool_calls.deep_view(),
            r.deep_view() == start + calls_criteria(all.take(i as int)),
        decreases m.tool_calls.len() - i,
    {
        assert(all.take(i + 1).drop_last() == all.take(i as int));
        assert(all.take(i + 1).last() == m.tool_calls@[i as int]@);
        r = push_call_criteria(r, &m.tool_calls[i]);
        i += 1;
    }
    assert(all.take(i as int) == all);
    r
}

fn rank_message(m: &PaneMessage) -> (r: (bool, u128))
    ensures
        (r.0, r.1 as int) == message_rank(m@),
{
    let both = find_needle(&m.text_lines).is_some() && count_fields(&m.tool_calls) > 0;
    (both, score_message(m))
}

fn pick_best(ranks: &Vec<(bool, u128)>, taken: &Vec<usize>) -> (r: Option<usize>)
    ensures
        ({
            let s = Seq::new(ranks@.len(), |i: int| (ranks@[i].0, ranks@[i].1 as int));
            let t = Seq::new(taken@.len(), |i: int| taken@[i] as int);
            match r {
                Some(i) => best_message(s, t, s.len() as int) == Some(i as int) && i < ranks.len(),
                None => best_message(s, t, s.len() as int) is None,
            }
        }),
{
    let ghost s = Seq::new(ranks@.len(), |i: int| (ranks@[i].0, ranks@[i].1 as int));
    let ghost t = Seq::new(taken@.len(), |i: int| taken@[i] as int);
    let mut best: Option<usize> = None;
    let mut n: usize = 0;
    while n < ranks.len()
        invariant
            n <= ranks.len(),
            s == Seq::new(ranks@.len(), |i: int| (ranks@[i].0, ranks@[i].1 as int)),
            t == Seq::new(taken@.len(), |i: int| taken@[i] as int),
            match best {
                Some(i) => best_message(s, t, n as int) == Some(i as int) && i < n,
                None => best_message(s, t, n as int) is None,
            },
        decreases ranks.len() - n,
    {
        let mut is_taken = false;
        let mut k: usize = 0;
        while k < taken.len()
            invariant
                k <= taken.len(),
                t == Seq::new(taken@.len(), |i: int| taken@[i] as int),
                is_taken <==> exists|j: int| 0 <= j < k && #[trigger] t[j] == n,
            decreases taken.len() - k,
        {
            if taken[k] == n {
                assert(t[k as int] == n);
                is_taken = true;
            }
            k += 1;
        }
        assert(is_taken <==> t.contains(n as int));
        if !is_taken {
            let better = match best {
                Some(b) => (ranks[n].0 && !ranks[b].0) || (ranks[n].0 == ranks[b].0 && ranks[n].1
                    > ranks[b].1),
                None => true,
            };
            if better {
                best = Some(n);
            }
        }
        n += 1;
    }
    best
}

/// Builds the filters of the three best messages.
pub fn build_filters(messages: &Vec<PaneMessage>) -> (r: Vec<SessionFilter>)
    ensures
        r.deep_view() == filters_for(messages.deep_view()),
{
    let ghost all = messages.deep_view();
    let mut ranks: Vec<(bool, u128)> = Vec::new();
    let mut i: usize = 0;
    while i < messages.len()
        invariant
            i <= messages.len(),
            ranks.len() == i,
            forall|j: int|
                0 <= j < i ==> (ranks@[j].0, ranks@[j].1 as int) == message_rank(
                    #[trigger] messages@[j]@,
                ),
        decreases messages.len() - i,
    {
        ranks.push(rank_message(&messages[i]));
        i += 1;
    }
    let ghost s = Seq::new(ranks@.len(), |i: int| (ranks@[i].0, ranks@[i].1 as int));
    assert(s == ranks_of(all));
    let mut taken: Vec<usize> = Vec::new();
    let mut out: Vec<SessionFilter> = Vec::new();
    let mut k: usize = 0;
    assert(Seq::new(taken@.len(), |i: int| taken@[i] as int) == Seq::<int>::empty());
    while k < 3
        invariant
            k <= 3,
            all == messages.deep_view(),
            ranks.len() == messages.len(),
            s == Seq::new(ranks@.len(), |i: int| (ranks@[i].0, ranks@[i].1 as int)),
            Seq::new(taken@.len(), |i: int| taken@[i] as int) == best_messages(s, k as nat),
            out.deep_view() == filters_of(all, best_messages(s, k as nat)),
        decreases 3 - k,
    {
        let ghost t = Seq::new(taken@.len(), |i: int| taken@[i] as int);
        match pick_best(&ranks, &taken) {
            Some(n) => {
                taken.push(n);
                assert(Seq::new(taken@.len(), |i: int| taken@[i] as int) == t.push(n as int));
                assert(t.push(n as int).drop_last() == t);
                let criteria = criteria_of(&messages[n]);
                assert(all[n as int] == messages@[n as int]@);
                if criteria.len() > 0 {
                    let ghost before = out.deep_view();
                    let f = SessionFilter { depth: messages[n].depth, criteria };
                    out.push(f);
                    assert(out.deep_view() == before.push(f@));
                }
            },
            None => {},
        }
        k += 1;
    }
    out
}

proof fn best_message_is_best(ranks: Seq<(bool, int)>, taken: Seq<int>, n: int)
    requires
        0 <= n <= ranks.len(),
    ensures
        best_message(ranks, taken, n) matches Some(k) ==> 0 <= k < n && !taken.contains(k)
            && forall|j: int| 0 <= j < n && !taken.contains(j) ==> outranks(ranks[k], ranks[j]) || (
        ranks[j] == ranks[k] && k <= j),
        best_message(ranks, taken, n) is None ==> forall|j: int|
            0 <= j < n ==> taken.contains(j),
    decreases n,
{
    if n > 0 {
        best_message_is_best(ranks, taken, n - 1);
    }
}

/// The chosen messages are distinct, at most as many as asked for, and come best
/// first: by rank, and of equals the one closest to the footer.
pub proof fn best_messages_are_ranked(ranks: Seq<(bool, int)>, k: nat)
    ensures
        best_messages(ranks, k).len() <= k,
        forall|i: int|
            0 <= i < best_messages(ranks, k).len() ==> 0 <= #[trigger] best_messages(ranks, k)[i]
                < ranks.len(),
        forall|i: int, j: int|
            0 <= i < j < best_messages(ranks, k).len() ==> ({
                let a = #[trigger] best_messages(ranks, k)[i];
                let b = #[trigger] best_messages(ranks, k)[j];
                outranks(ranks[a], ranks[b]) || (ranks[b] == ranks[a] && a < b)
            }),
        forall|j: int|
            0 <= j < ranks.len() && !best_messages(ranks, k).contains(j) ==> forall|i: int|
                0 <= i < best_messages(ranks, k).len() ==> ({
                    let a = #[trigger] best_messages(ranks, k)[i];
                    outranks(ranks[a], ranks[j]) || (ranks[j] == ranks[a] && a < j)
                }),
    decreases k,
{
    if k > 0 {
        let taken = best_messages(ranks, (k - 1) as nat);
        best_messages_are_ranked(ranks, (k - 1) as nat);
        best_message_is_best(ranks, taken, ranks.len() as int);
        let now = best_messages(ranks, k);
        match best_message(ranks, taken, ranks.len() as int) {
            Some(b) => {
                assert(now == taken.push(b));
                assert forall|j: int|
                    0 <= j < ranks.len() && !now.contains(j) implies forall|i: int|
                    0 <= i < now.len() ==> ({
                        let a = #[trigger] now[i];
                        outranks(ranks[a], ranks[j]) || (ranks[j] == ranks[a] && a < j)
                    }) by {
                    assert(now[taken.len() as int] == b);
                    assert(j != b);
                    assert(!taken.contains(j)) by {
                        if taken.contains(j) {
                            let x = choose|x: int| 0 <= x < taken.len() && taken[x] == j;
                            assert(now[x] == j);
                        }
                    }
                    assert forall|i: int| 0 <= i < now.len() implies ({
                        let a = #[trigger] now[i];
                        outranks(ranks[a], ranks[j]) || (ranks[j] == ranks[a] && a < j)
                    }) by {
                        if i < taken.len() {
                            assert(now[i] == taken[i]);
                        }
                    }
                }
                assert forall|i: int, j: int| 0 <= i < j < now.len() implies ({
                    let a = #[trigger] now[i];
                    let b = #[trigger] now[j];
                    outranks(ranks[a], ranks[b]) || (ranks[b] == ranks[a] && a < b)
                }) by {
                    assert(now[i] == taken[i]);
                    if j < taken.len() {
                        assert(now[j] == taken[j]);
                    }
                }
            },
            None => {},
        }
    }
}

/// Messages with both text and named values are preferred: where one of them is
/// left out, all that are chosen have both.
pub proof fn messages_with_both_are_preferred(messages: Seq<MessageView>, k: nat, j: int)
    requires
        0 <= j < messages.len(),
        has_both(messages[j]),
        !best_messages(ranks_of(messages), k).contains(j),
    ensures
        forall|i: int|
            0 <= i < best_messages(ranks_of(messages), k).len() ==> has_both(
                messages[#[trigger] best_messages(ranks_of(messages), k)[i]],
            ),
{
    let ranks = ranks_of(messages);
    best_messages_are_ranked(ranks, k);
    assert(ranks[j] == message_rank(messages[j]));
    assert forall|i: int| 0 <= i < best_messages(ranks, k).len() implies has_both(
        messages[#[trigger] best_messages(ranks, k)[i]],
    ) by {
        let a = best_messages(ranks, k)[i];
        assert(ranks[a] == message_rank(messages[a]));
    }
}

proof fn filters_are_no_more(messages: Seq<MessageView>, chosen: Seq<int>)
    ensures
        filters_of(messages, chosen).len() <= chosen.len(),
        forall|i: int|
            0 <= i < filters_of(messages, chosen).len() ==> (#[trigger] filters_of(
                messages,
                chosen,
            )[i]).criteria.len() > 0,
    decreases chosen.len(),
{
    if chosen.len() > 0 {
        filters_are_no_more(messages, chosen.drop_last());
    }
}

/// There are at most three filters, and each asks for something.
pub proof fn filters_are_few_and_full(messages: Seq<MessageView>)
    ensures
        filters_for(messages).len() <= 3,
        forall|i: int|
            0 <= i < filters_for(messages).len() ==> (#[trigger] filters_for(
                messages,
            )[i]).criteria.len() > 0,
{
    let chosen = best_messages(ranks_of(messages), 3);
    best_messages_are_ranked(ranks_of(messages), 3);
    filters_are_no_more(messages, chosen);
}

proof fn calls_criteria_hold_the_fields(calls: Seq<ToolCallView>)
    ensures
        forall|c: int, f: int|
            0 <= c < calls.len() && 0 <= f < calls[c].fields.len() ==> calls_criteria(
                calls,
            ).contains(
                CriterionView::ToolFieldEquals {
                    tool_name: calls[c].tool_name,
                    field: (#[trigger] calls[c].fields[f]).0,
                    value: calls[c].fields[f].1,
                },
            ),
        forall|k: int|
            0 <= k < calls_criteria(calls).len() ==> exists|c: int, f: int|
                0 <= c < calls.len() && 0 <= f < calls[c].fields.len() && #[trigger] calls_criteria(
                    calls,
                )[k] == (CriterionView::ToolFieldEquals {
                    tool_name: calls[c].tool_name,
                    field: (#[trigger] calls[c].fields[f]).0,
                    value: calls[c].fields[f].1,
                }),
    decreases calls.len(),
{
    if calls.len() > 0 {
        let rest = calls.drop_last();
        let before = calls_criteria(rest);
        let own = call_criteria(calls.last());
        let all = calls_criteria(calls);
        calls_criteria_hold_the_fields(rest);
        assert forall|c: int, f: int|
            0 <= c < calls.len() && 0 <= f < calls[c].fields.len() implies all.contains(
            CriterionView::ToolFieldEquals {
                tool_name: calls[c].tool_name,
                field: (#[trigger] calls[c].fields[f]).0,
                value: calls[c].fields[f].1,
            },
        ) by {
            let asked = CriterionView::ToolFieldEquals {
                tool_name: calls[c].tool_name,
                field: calls[c].fields[f].0,
                value: calls[c].fields[f].1,
            };
            if c < rest.len() {
                assert(rest[c].fields[f] == calls[c].fields[f]);
                assert(before.contains(asked));
                let k = choose|k: int| 0 <= k < before.len() && before[k] == asked;
                assert(all[k] == asked);
            } else {
                assert(own[f] == asked);
                assert(all[before.len() + f] == asked);
            }
        }
        assert forall|k: int| 0 <= k < all.len() implies exists|c: int, f: int|
            0 <= c < calls.len() && 0 <= f < calls[c].fields.len() && #[trigger] all[k] == (
            CriterionView::ToolFieldEquals {
                tool_name: calls[c].tool_name,
                field: (#[trigger] calls[c].fields[f]).0,
                value: calls[c].fields[f].1,
            }) by {
            if k < before.len() {
                assert(before[k] == all[k]);
                let (c, f) = choose|c: int, f: int|
                    0 <= c < rest.len() && 0 <= f < rest[c].fields.len() && before[k] == (
                    CriterionView::ToolFieldEquals {
                        tool_name: rest[c].tool_name,
                        field: (#[trigger] rest[c].fields[f]).0,
                        value: rest[c].fields[f].1,
                    });
                assert(calls[c].fields[f] == rest[c].fields[f]);
            } else {
                let f = k - before.len();
                assert(all[k] == own[f]);
                assert(calls[calls.len() - 1].fields[f] == calls.last().fields[f]);
            }
        }
    }
}

proof fn filter_has_a_message(messages: Seq<MessageView>, chosen: Seq<int>, k: int) -> (j: int)
    requires
        0 <= k < filters_of(messages, chosen).len(),
    ensures
        0 <= j < chosen.len(),
        filters_of(messages, chosen)[k].depth == messages[chosen[j]].depth,
        filters_of(messages, chosen)[k].criteria == message_criteria(messages[chosen[j]]),
    decreases chosen.len(),
{
    let rest = chosen.drop_last();
    let before = filters_of(messages, rest);
    if k < before.len() {
        filter_has_a_message(messages, rest, k)
    } else {
        chosen.len() - 1
    }
}

proof fn chosen_message_has_a_filter(messages: Seq<MessageView>, chosen: Seq<int>, j: int) -> (k:
    int)
    requires
        0 <= j < chosen.len(),
        message_criteria(messages[chosen[j]]).len() > 0,
    ensures
        0 <= k < filters_of(messages, chosen).len(),
        filters_of(messages, chosen)[k].depth == messages[chosen[j]].depth,
        filters_of(messages, chosen)[k].criteria == message_criteria(messages[chosen[j]]),
    decreases chosen.len(),
{
    let rest = chosen.drop_last();
    if j < rest.len() {
        chosen_message_has_a_filter(messages, rest, j)
    } else {
        filters_of(messages, rest).len() as int
    }
}

proof fn criteria_of_a_message(m: MessageView)
    ensures
        forall|c: int, f: int|
            0 <= c < m.tool_calls.len() && 0 <= f < m.tool_calls[c].fields.len()
                ==> message_criteria(m).contains(
                CriterionView::ToolFieldEquals {
                    tool_name: m.tool_calls[c].tool_name,
                    field: (#[trigger] m.tool_calls[c].fields[f]).0,
                    value: m.tool_calls[c].fields[f].1,
                },
            ),
        forall|k: int|
            0 <= k < message_criteria(m).len() && (#[trigger] message_criteria(m)[k]
                is ToolFieldEquals) ==> exists|c: int, f: int|
                0 <= c < m.tool_calls.len() && 0 <= f < m.tool_calls[c].fields.len()
                    && message_criteria(m)[k] == (CriterionView::ToolFieldEquals {
                    tool_name: m.tool_calls[c].tool_name,
                    field: (#[trigger] m.tool_calls[c].fields[f]).0,
                    value: m.tool_calls[c].fields[f].1,
                }),
{
    let calls = m.tool_calls;
    calls_criteria_hold_the_fields(calls);
    let tools = calls_criteria(calls);
    let all = message_criteria(m);
    let n = all.len() - tools.len();
    assert forall|c: int, f: int|
        0 <= c < calls.len() && 0 <= f < calls[c].fields.len() implies all.contains(
        CriterionView::ToolFieldEquals {
            tool_name: calls[c].tool_name,
            field: (#[trigger] calls[c].fields[f]).0,
            value: calls[c].fields[f].1,
        },
    ) by {
        let asked = CriterionView::ToolFieldEquals {
            tool_name: calls[c].tool_name,
            field: calls[c].fields[f].0,
            value: calls[c].fields[f].1,
        };
        assert(tools.contains(asked));
        let k = choose|k: int| 0 <= k < tools.len() && tools[k] == asked;
        assert(all[n + k] == asked);
    }
    assert forall|k: int| 0 <= k < all.len() && (#[trigger] all[k] is ToolFieldEquals) implies exists|
        c: int,
        f: int,
    |
        0 <= c < calls.len() && 0 <= f < calls[c].fields.len() && all[k] == (
        CriterionView::ToolFieldEquals {
            tool_name: calls[c].tool_name,
            field: (#[trigger] calls[c].fields[f]).0,
            value: calls[c].fields[f].1,
        }) by {
        assert(all[k] == tools[k - n]);
    }
}

/// A filter is that of one message on the screen: it has its depth, asks of a tool for
/// each field that a call of the message shows, under its name and with its value, and
/// asks of tools for nothing else.
pub proof fn filters_ask_for_what_was_shown(messages: Seq<MessageView>, k: int) -> (i: int)
    requires
        0 <= k < filters_for(messages).len(),
    ensures
        0 <= i < messages.len(),
        filters_for(messages)[k].depth == messages[i].depth,
        forall|c: int, f: int|
            0 <= c < messages[i].tool_calls.len() && 0 <= f < messages[i].tool_calls[c].fields.len()
                ==> filters_for(messages)[k].criteria.contains(
                CriterionView::ToolFieldEquals {
                    tool_name: messages[i].tool_calls[c].tool_name,
                    field: (#[trigger] messages[i].tool_calls[c].fields[f]).0,
                    value: messages[i].tool_calls[c].fields[f].1,
                },
            ),
        forall|n: int|
            0 <= n < filters_for(messages)[k].criteria.len() && (#[trigger] filters_for(
                messages,
            )[k].criteria[n] is ToolFieldEquals) ==> exists|c: int, f: int|
                0 <= c < messages[i].tool_calls.len() && 0 <= f
                    < messages[i].tool_calls[c].fields.len() && filters_for(messages)[k].criteria[n]
                    == (CriterionView::ToolFieldEquals {
                    tool_name: messages[i].tool_calls[c].tool_name,
                    field: (#[trigger] messages[i].tool_calls[c].fields[f]).0,
                    value: messages[i].tool_calls[c].fields[f].1,
                }),
{
    let chosen = best_messages(ranks_of(messages), 3);
    best_messages_are_ranked(ranks_of(messages), 3);
    let j = filter_has_a_message(messages, chosen, k);
    criteria_of_a_message(messages[chosen[j]]);
    chosen[j]
}

proof fn few_messages_are_all_taken(ranks: Seq<(bool, int)>, k: nat, i: int) -> (j: int)
    requires
        ranks.len() <= k,
        0 <= i < ranks.len(),
    ensures
        0 <= j < best_messages(ranks, k).len(),
        best_messages(ranks, k)[j] == i,
    decreases k,
{
    let taken = best_messages(ranks, (k - 1) as nat);
    best_messages_are_ranked(ranks, (k - 1) as nat);
    best_message_is_there(ranks, taken, ranks.len() as int);
    best_messages_are_ranked(ranks, k);
    let all = best_messages(ranks, k);
    if all.contains(i) {
        choose|j: int| 0 <= j < all.len() && all[j] == i
    } else {
        assert(!taken.contains(i)) by {
            if taken.contains(i) {
                let j = choose|j: int| 0 <= j < taken.len() && taken[j] == i;
                assert(all[j] == i);
            }
        }
        taking_goes_on(ranks, k, i);
        different_numbers_are_few(all.push(i), ranks.len() as int);
        0
    }
}

proof fn best_message_is_there(ranks: Seq<(bool, int)>, taken: Seq<int>, n: int)
    ensures
        best_message(ranks, taken, n) matches Some(k) ==> 0 <= k < n && !taken.contains(k),
        best_message(ranks, taken, n) is None ==> forall|k: int|
            0 <= k < n ==> #[trigger] taken.contains(k),
    decreases n,
{
    if n > 0 {
        best_message_is_there(ranks, taken, n - 1);
    }
}

proof fn taking_goes_on(ranks: Seq<(bool, int)>, k: nat, i: int)
    requires
        0 <= i < ranks.len(),
        !best_messages(ranks, k).contains(i),
    ensures
        best_messages(ranks, k).len() == k,
        best_messages(ranks, k).no_duplicates(),
    decreases k,
{
    if k > 0 {
        let taken = best_messages(ranks, (k - 1) as nat);
        let all = best_messages(ranks, k);
        best_message_is_there(ranks, taken, ranks.len() as int);
        assert(!taken.contains(i)) by {
            if taken.contains(i) {
                let j = choose|j: int| 0 <= j < taken.len() && taken[j] == i;
                assert(all[j] == i);
            }
        }
        taking_goes_on(ranks, (k - 1) as nat, i);
        assert forall|a: int, b: int| 0 <= a < b < all.len() implies all[a] != all[b] by {
            if b == taken.len() {
                assert(taken.contains(taken[a]));
            }
        }
    }
}

proof fn different_numbers_are_few(s: Seq<int>, n: int)
    requires
        s.no_duplicates(),
        0 <= n,
        forall|i: int| 0 <= i < s.len() ==> 0 <= #[trigger] s[i] < n,
    ensures
        s.len() <= n,
{
    let all = vstd::set_lib::set_int_range(0, n);
    vstd::set_lib::lemma_int_range(0, n);
    s.unique_seq_to_set();
    assert(s.to_set().subset_of(all));
    vstd::set_lib::lemma_len_subset(s.to_set(), all);
}

/// Where there are no more than three messages, each that shows a field of a tool call
/// has a filter, which asks for that field.
pub proof fn shown_calls_are_asked_for(messages: Seq<MessageView>, i: int, c: int, f: int) -> (k:
    int)
    requires
        messages.len() <= 3,
        0 <= i < messages.len(),
        0 <= c < messages[i].tool_calls.len(),
        0 <= f < messages[i].tool_calls[c].fields.len(),
    ensures
        0 <= k < filters_for(messages).len(),
        filters_for(messages)[k].depth == messages[i].depth,
        filters_for(messages)[k].criteria.contains(
            CriterionView::ToolFieldEquals {
                tool_name: messages[i].tool_calls[c].tool_name,
                field: messages[i].tool_calls[c].fields[f].0,
                value: messages[i].tool_calls[c].fields[f].1,
            },
        ),
{
    let j = few_messages_are_all_taken(ranks_of(messages), 3, i);
    criteria_of_a_message(messages[i]);
    assert(messages[i].tool_calls[c].fields[f] == messages[i].tool_calls[c].fields[f]);
    chosen_message_has_a_filter(messages, best_messages(ranks_of(messages), 3), j)
}

/// A message that is not taken is not better than one that is: it does not have both a
/// needle and a field where the other lacks one, and of two alike in this the other
/// scores no less, and stands first where they score the same.
pub proof fn the_best_three_are_taken(messages: Seq<MessageView>, i: int, j: int)
    requires
        0 <= i < best_messages(ranks_of(messages), 3).len(),
        0 <= j < messages.len(),
        !best_messages(ranks_of(messages), 3).contains(j),
    ensures
        best_messages(ranks_of(messages), 3).len() == 3,
        ({
            let a = ranks_of(messages)[best_messages(ranks_of(messages), 3)[i]];
            let b = ranks_of(messages)[j];
            &&& b.0 ==> a.0
            &&& a.0 == b.0 ==> a.1 >= b.1
            &&& a == b ==> best_messages(ranks_of(messages), 3)[i] < j
        }),
{
    let ranks = ranks_of(messages);
    taking_goes_on(ranks, 3, j);
    best_messages_are_ranked(ranks, 3);
}

proof fn segments_of_lines(lines: Seq<Seq<char>>, min: int)
    ensures
        forall|k: int|
            0 <= k < line_segments(lines, min).len() ==> exists|i: int|
                0 <= i < lines.len() && longest_segment(#[trigger] lines[i]) == Some(
                    #[trigger] line_segments(lines, min)[k],
                ) && byte_len(line_segments(lines, min)[k]) >= min,
        forall|i: int|
            0 <= i < lines.len() && (longest_segment(#[trigger] lines[i]) matches Some(seg)
                && byte_len(seg) >= min) ==> line_segments(lines, min).contains(
                longest_segment(lines[i])->0,
            ),
    decreases lines.len(),
{
    if lines.len() > 0 {
        let rest = lines.drop_last();
        let before = line_segments(rest, min);
        let all = line_segments(lines, min);
        segments_of_lines(rest, min);
        assert forall|k: int| 0 <= k < all.len() implies exists|i: int|
            0 <= i < lines.len() && longest_segment(#[trigger] lines[i]) == Some(#[trigger] all[k])
                && byte_len(all[k]) >= min by {
            if k < before.len() {
                assert(before[k] == all[k]);
                let i = choose|i: int|
                    0 <= i < rest.len() && longest_segment(#[trigger] rest[i]) == Some(before[k])
                        && byte_len(before[k]) >= min;
                assert(lines[i] == rest[i]);
            } else {
                assert(lines[lines.len() - 1] == lines.last());
            }
        }
        assert forall|i: int|
            0 <= i < lines.len() && (longest_segment(#[trigger] lines[i]) matches Some(seg)
                && byte_len(seg) >= min) implies all.contains(longest_segment(lines[i])->0) by {
            let seg = longest_segment(lines[i])->0;
            if i < rest.len() {
                assert(rest[i] == lines[i]);
                assert(before.contains(seg));
                let k = choose|k: int| 0 <= k < before.len() && before[k] == seg;
                assert(all[k] == seg);
            } else {
                assert(all[before.len() as int] == seg);
            }
        }
    }
}

proof fn nonempty_keeps_the_filled(parts: Seq<Seq<char>>)
    ensures
        forall|s: Seq<char>| #[trigger]
            nonempty(parts).contains(s) <==> parts.contains(s) && s.len() > 0,
    decreases parts.len(),
{
    if parts.len() > 0 {
        let rest = parts.drop_last();
        nonempty_keeps_the_filled(rest);
        assert(parts =~= rest.push(parts.last()));
        assert forall|s: Seq<char>| #[trigger]
            nonempty(parts).contains(s) <==> parts.contains(s) && s.len() > 0 by {
            vstd::seq_lib::lemma_seq_contains_after_push(rest, parts.last(), s);
            vstd::seq_lib::lemma_seq_contains_after_push(nonempty(rest), parts.last(), s);
        }
    }
}

proof fn longest_segment_is_one(line: Seq<char>)
    ensures
        match longest_segment(line) {
            Some(best) => {
                &&& exists|a: int|
                    0 <= a < segments(line).len() && trimmed(#[trigger] segments(line)[a]) == best
                &&& best.len() > 0
                &&& forall|a: int|
                    0 <= a < segments(line).len() ==> trimmed(#[trigger] segments(line)[a]).len()
                        == 0 || byte_len(trimmed(segments(line)[a])) <= byte_len(best)
            },
            None => forall|a: int|
                0 <= a < segments(line).len() ==> trimmed(#[trigger] segments(line)[a]).len() == 0,
        },
{
    let cut = each_trimmed(segments(line));
    let parts = nonempty(cut);
    nonempty_keeps_the_filled(cut);
    longest_is_longest(parts);
    assert forall|a: int| 0 <= a < segments(line).len() && trimmed(#[trigger] segments(line)[a]).len()
        > 0 implies parts.contains(trimmed(segments(line)[a])) by {
        assert(cut[a] == trimmed(segments(line)[a]));
        assert(cut.contains(cut[a]));
    }
    match longest_segment(line) {
        Some(best) => {
            assert(cut.contains(best));
            let a = choose|a: int| 0 <= a < cut.len() && cut[a] == best;
            assert(trimmed(segments(line)[a]) == best);
            assert forall|a: int| 0 <= a < segments(line).len() implies trimmed(
                #[trigger] segments(line)[a],
            ).len() == 0 || byte_len(trimmed(segments(line)[a])) <= byte_len(best) by {
                let t = trimmed(segments(line)[a]);
                if t.len() > 0 {
                    let k = choose|k: int| 0 <= k < parts.len() && parts[k] == t;
                    assert(byte_len(parts[k]) <= byte_len(best));
                }
            }
        },
        None => {},
    }
}

/// A needle has at least twenty bytes, and is what a line shows in one piece, without a
/// dollar sign and a space in front; no line shows a longer piece.
pub proof fn needles_stand_on_the_screen(lines: Seq<Seq<char>>)
    ensures
        match needle_of(lines) {
            Some(needle) => {
                &&& byte_len(needle) >= 20
                &&& exists|i: int, a: int|
                    0 <= i < lines.len() && 0 <= a < segments(lines[i]).len() && (trimmed(
                        #[trigger] segments(lines[i])[a],
                    ) == needle && !(needle.len() >= 2 && needle[0] == '$' && needle[1] == ' ')
                        || trimmed(segments(lines[i])[a]) == seq!['$', ' '] + needle)
                &&& forall|i: int, a: int|
                    0 <= i < lines.len() && 0 <= a < segments(lines[i]).len() ==> byte_len(
                        trimmed(#[trigger] segments(lines[i])[a]),
                    ) <= byte_len(needle) + 2
            },
            None => forall|i: int, a: int|
                0 <= i < lines.len() && 0 <= a < segments(lines[i]).len() ==> byte_len(
                    trimmed(#[trigger] segments(lines[i])[a]),
                ) < 22,
        },
{
    let parts = line_segments(lines, 20);
    segments_of_lines(lines, 20);
    longest_is_longest(parts);
    reveal_strlit("$ ");
    assert("$ "@ =~= seq!['$', ' ']);
    assert forall|i: int, a: int|
        0 <= i < lines.len() && 0 <= a < segments(lines[i]).len() implies byte_len(
        trimmed(#[trigger] segments(lines[i])[a]),
    ) < 20 || (best_segment(lines, 20) matches Some(best) && byte_len(trimmed(segments(lines[i])[a]))
        <= byte_len(best)) by {
        let t = trimmed(segments(lines[i])[a]);
        longest_segment_is_one(lines[i]);
        if byte_len(t) >= 20 {
            assert(t.len() > 0) by {
                if t.len() == 0 {
                    assert(t =~= Seq::<char>::empty());
                }
            }
            let own = longest_segment(lines[i])->0;
            assert(parts.contains(own));
            let k = choose|k: int| 0 <= k < parts.len() && parts[k] == own;
            assert(byte_len(parts[k]) <= byte_len(best_segment(lines, 20)->0));
        }
    }
    match best_segment(lines, 20) {
        Some(best) => {
            let k = choose|k: int| 0 <= k < parts.len() && parts[k] == best;
            assert(parts[k] == best);
            let i = choose|i: int|
                0 <= i < lines.len() && longest_segment(#[trigger] lines[i]) == Some(parts[k])
                    && byte_len(parts[k]) >= 20;
            longest_segment_is_one(lines[i]);
            let a = choose|a: int|
                0 <= a < segments(lines[i]).len() && trimmed(#[trigger] segments(lines[i])[a])
                    == best;
            assert(trimmed(segments(lines[i])[a]) == best);
            if has_prefix(best, "$ "@) {
                assert(best =~= seq!['$', ' '] + best.skip(2));
                bytes_add_up(seq!['$', ' '], best.skip(2));
                assert(vstd::utf8::is_ascii_chars(seq!['$', ' ']));
                ascii_positions(seq!['$', ' '], 0);
                assert(byte_len(best) == byte_len(best.skip(2)) + 2);
            } else if best.len() >= 2 && best[0] == '$' && best[1] == ' ' {
                assert(best.subrange(0, 2) =~= "$ "@);
            }
        },
        None => {},
    }
}

/// One more tool call raises the score of a message by the number of its fields, and
/// no line shows a piece that is longer than the score.
pub proof fn scores_weigh_what_is_shown(m: MessageView, call: ToolCallView)
    ensures
        message_score(MessageView { tool_calls: m.tool_calls.push(call), ..m }) == message_score(m)
            + call.fields.len(),
        m.text_lines.len() == 0 && m.tool_calls.len() == 0 ==> message_score(m) == 0,
        message_rank(m).1 == message_score(m),
        message_rank(m).0 ==> needle_of(m.text_lines) is Some && m.tool_calls.len() > 0,
        needle_of(m.text_lines) is Some && call.fields.len() > 0 ==> message_rank(
            MessageView { tool_calls: m.tool_calls.push(call), ..m },
        ).0,
        forall|i: int, a: int|
            0 <= i < m.text_lines.len() && 0 <= a < segments(m.text_lines[i]).len() ==> byte_len(
                trimmed(#[trigger] segments(m.text_lines[i])[a]),
            ) <= message_score(m),
{
    let calls = m.tool_calls;
    assert(calls.push(call).drop_last() =~= calls);
    counts_are_not_negative(calls);
    let lines = m.text_lines;
    let parts = line_segments(lines, 0);
    segments_of_lines(lines, 0);
    longest_is_longest(parts);
    if lines.len() == 0 {
        assert(parts.len() == 0);
    }
    assert forall|i: int, a: int|
        0 <= i < lines.len() && 0 <= a < segments(lines[i]).len() implies byte_len(
        trimmed(#[trigger] segments(lines[i])[a]),
    ) <= message_score(m) by {
        let t = trimmed(segments(lines[i])[a]);
        longest_segment_is_one(lines[i]);
        if t.len() == 0 {
            assert(t =~= Seq::<char>::empty());
            assert(byte_len(t) == 0);
        } else {
            let own = longest_segment(lines[i])->0;
            assert(parts.contains(own));
            let k = choose|k: int| 0 <= k < parts.len() && parts[k] == own;
            assert(byte_len(parts[k]) <= byte_len(best_segment(lines, 0)->0));
        }
    }
}

proof fn counts_are_not_negative(calls: Seq<ToolCallView>)
    ensures
        field_count(calls) >= 0,
    decreases calls.len(),
{
    if calls.len() > 0 {
        counts_are_not_negative(calls.drop_last());
    }
}

} // verus!
