//! The permission decisions in log files, read on from where the last reading ended.

use crate::opencode::cache::all_hex;
use crate::opencode::nudge::reply_view;
use crate::opencode::parts::ByText;
use crate::opencode::permissions::{DecisionView, LogDecision, Window, decisions_view, in_window};
use crate::order::{stable_sort, stably_sorted};
use crate::paths::{below, join_path, name_parts, split_extension};
use crate::pattern::{DECISION_PATTERN, captured, captures};
use crate::text::{
    ascii_positions, byte_len, bytes_add_up, chars_of, contains, contains_text, has_prefix,
    index_from, last_piece_is_empty, len_bytes, lines, lines_of, pieces, pieces_add_up,
    pieces_are_some, split, str_eq, string_of,
};
use crate::time::{
    MAX_MILLIS, MIN_MILLIS, Timestamp, instant_in, naive_instant_in, parse_instant,
    parse_naive_instant, shift, shifted,
};
use vstd::prelude::*;
use vstd::slice::slice_subrange;

verus! {

/// The version of the form in which readings are kept.
pub const CACHE_SCHEMA_VERSION: u32 = 1;

/// Seconds by which the name of a log file may be later than what is in it.
pub const LOG_FILENAME_SLACK_SECS: i64 = 3600;

/// How a log line writes its time, behind which the offset of UTC is put.
pub const LINE_TIME_FORMAT: &'static str = "%Y-%m-%dT%H:%M:%S%:z";

/// How the name of a log file writes when it was opened.
pub const NAME_TIME_FORMAT: &'static str = "%Y-%m-%dT%H%M%S";

/// Whether a log line may hold a decision.
pub open spec fn is_marked(line: Seq<char>) -> bool {
    contains_text(line, "service=permission"@)
}

/// The four texts of a decision among the groups of a match.
pub open spec fn decision_texts(groups: Seq<Option<Seq<char>>>) -> Option<
    (Seq<char>, Seq<char>, Seq<char>, Seq<char>),
> {
    if groups.len() >= 5 && groups[1] is Some && groups[2] is Some && groups[3] is Some
        && groups[4] is Some {
        Some((groups[1]->0, groups[2]->0, groups[3]->0, groups[4]->0))
    } else {
        None
    }
}

/// The decision that the groups of a match hold, given the time that the first
/// of them names.
pub open spec fn decision_in(groups: Seq<Option<Seq<char>>>, at: Option<Timestamp>) -> Option<
    DecisionView,
> {
    match (decision_texts(groups), at) {
        (Some(texts), Some(timestamp)) => Some(
            DecisionView { timestamp, permission: texts.1, pattern: texts.2, action: texts.3 },
        ),
        _ => None,
    }
}

/// The decision that the groups of a match hold, given the time that the first
/// of them names.
pub fn read_decision(groups: &Vec<Option<String>>, at: Option<Timestamp>) -> (r: Option<
    LogDecision,
>)
    ensures
        r.deep_view() == decision_in(groups.deep_view(), at),
{
    let ghost all = groups.deep_view();
    if groups.len() < 5 {
        return None;
    }
    assert(all[1] == groups@[1].deep_view());
    assert(all[2] == groups@[2].deep_view());
    assert(all[3] == groups@[3].deep_view());
    assert(all[4] == groups@[4].deep_view());
    match (&groups[1], &groups[2], &groups[3], &groups[4], at) {
        (Some(_), Some(permission), Some(pattern), Some(action), Some(timestamp)) => Some(
            LogDecision {
                timestamp,
                permission: permission.clone(),
                pattern: pattern.clone(),
                action: action.clone(),
            },
        ),
        _ => None,
    }
}

/// The time that the first group of a match names.
pub open spec fn group_time(groups: Seq<Option<Seq<char>>>) -> Option<Timestamp> {
    match decision_texts(groups) {
        Some(texts) => instant_in(texts.0 + "+00:00"@, LINE_TIME_FORMAT@),
        None => None,
    }
}

fn time_of_groups(groups: &Vec<Option<String>>) -> (r: Option<Timestamp>)
    ensures
        decision_texts(groups.deep_view()) is Some ==> r == group_time(groups.deep_view()),
{
    let ghost all = groups.deep_view();
    if groups.len() < 5 {
        return None;
    }
    assert(all[1] == groups@[1].deep_view());
    match &groups[1] {
        Some(text) => {
            let mut s = text.clone();
            s.append("+00:00");
            parse_instant(s.as_str(), LINE_TIME_FORMAT)
        },
        None => None,
    }
}

/// The decision that a log line holds.
pub open spec fn line_decision(line: Seq<char>) -> Option<DecisionView> {
    if is_marked(line) {
        match captured(DECISION_PATTERN@, line) {
            Some(groups) => decision_in(groups, group_time(groups)),
            None => None,
        }
    } else {
        None
    }
}

/// The decision that a log line holds.
pub fn parse_line(line: &str) -> (r: Option<LogDecision>)
    ensures
        r.deep_view() == line_decision(line@),
{
    if !contains(line, "service=permission") {
        return None;
    }
    match captures(DECISION_PATTERN, line) {
        Some(groups) => {
            let at = time_of_groups(&groups);
            read_decision(&groups, at)
        },
        None => None,
    }
}

/// The decisions that log lines hold, in order.
pub open spec fn line_decisions(lines: Seq<Seq<char>>) -> Seq<DecisionView>
    decreases lines.len(),
{
    if lines.len() == 0 {
        Seq::empty()
    } else {
        match line_decision(lines.last()) {
            Some(d) => line_decisions(lines.drop_last()).push(d),
            None => line_decisions(lines.drop_last()),
        }
    }
}

/// The decisions in the text of a log file.
pub fn parse_log_file(content: &str) -> (r: Vec<LogDecision>)
    ensures
        r.deep_view() == line_decisions(lines_of(content@)),
{
    let all = lines(content);
    let ghost texts = all.deep_view();
    let mut out: Vec<LogDecision> = Vec::new();
    let mut i: usize = 0;
    assert(texts.take(0) =~= Seq::<Seq<char>>::empty());
    assert(out.deep_view() =~= Seq::<DecisionView>::empty());
    while i < all.len()
        invariant
            i <= all.len(),
            texts == all.deep_view(),
            texts == lines_of(content@),
            out.deep_view() == line_decisions(texts.take(i as int)),
        decreases all.len() - i,
    {
        assert(texts.take(i + 1).drop_last() =~= texts.take(i as int));
        assert(texts.take(i + 1).last() == all@[i as int]@);
        push_decision(all[i].as_str(), &mut out);
        i += 1;
    }
    assert(texts.take(i as int) =~= texts);
    out
}

fn push_decision(line: &str, out: &mut Vec<LogDecision>)
    ensures
        final(out).deep_view() == (match line_decision(line@) {
            Some(d) => old(out).deep_view().push(d),
            None => old(out).deep_view(),
        }),
{
    let ghost before = out.deep_view();
    match parse_line(line) {
        Some(d) => {
            let ghost view = d@;
            out.push(d);
            assert(out.deep_view() =~= before.push(view));
        },
        None => {},
    }
}

/// The lines of a text that are complete: each is followed by a newline.
pub open spec fn complete_lines(text: Seq<char>) -> Seq<Seq<char>> {
    pieces(text, '\n').drop_last()
}

/// The bytes of lines with their newlines.
pub open spec fn bytes_of(lines: Seq<Seq<char>>) -> nat
    decreases lines.len(),
{
    if lines.len() == 0 {
        0
    } else {
        bytes_of(lines.drop_last()) + byte_len(lines.last()) + 1
    }
}

/// How many lines are read from a byte position on: all, but none behind a marked
/// line with which `end` is reached.
pub open spec fn lines_read(lines: Seq<Seq<char>>, at: int, end: int) -> nat
    decreases lines.len(),
{
    if lines.len() == 0 {
        0
    } else {
        let behind = at + byte_len(lines[0]) + 1;
        if is_marked(lines[0]) && behind >= end {
            1
        } else {
            1 + lines_read(lines.skip(1), behind, end)
        }
    }
}

proof fn bytes_of_front(lines: Seq<Seq<char>>)
    requires
        lines.len() > 0,
    ensures
        bytes_of(lines) == byte_len(lines[0]) + 1 + bytes_of(lines.skip(1)),
    decreases lines.len(),
{
    if lines.len() == 1 {
        assert(lines.drop_last() =~= Seq::<Seq<char>>::empty());
        assert(lines.skip(1) =~= Seq::<Seq<char>>::empty());
    } else {
        bytes_of_front(lines.drop_last());
        assert(lines.drop_last().skip(1) =~= lines.skip(1).drop_last());
        assert(lines.skip(1).last() == lines.last());
    }
}

proof fn bytes_of_sum(a: Seq<Seq<char>>, b: Seq<Seq<char>>)
    ensures
        bytes_of(a + b) == bytes_of(a) + bytes_of(b),
    decreases b.len(),
{
    if b.len() == 0 {
        assert(a + b =~= a);
    } else {
        bytes_of_sum(a, b.drop_last());
        assert((a + b).drop_last() =~= a + b.drop_last());
    }
}

proof fn newline_is_a_byte()
    ensures
        byte_len(seq!['\n']) == 1,
{
    let s = seq!['\n'];
    assert(vstd::utf8::is_ascii_chars(s));
    ascii_positions(s, 0);
}

/// The complete lines of a text and the rest behind them make up its bytes.
pub proof fn lines_make_up_the_bytes(text: Seq<char>)
    ensures
        byte_len(text) == bytes_of(complete_lines(text)) + byte_len(pieces(text, '\n').last()),
    decreases text.len(),
{
    pieces_are_some(text, '\n');
    match index_from(text, '\n', 0) {
        Some(i) if 0 <= i < text.len() => {
            let rest = text.skip(i + 1);
            index_is_found(text, '\n', 0);
            lines_make_up_the_bytes(rest);
            pieces_are_some(rest, '\n');
            newline_is_a_byte();
            bytes_add_up(text.take(i), seq!['\n']);
            bytes_add_up(text.take(i) + seq!['\n'], rest);
            assert(text =~= text.take(i) + seq!['\n'] + rest);
            let lines = complete_lines(text);
            assert(lines =~= seq![text.take(i)] + complete_lines(rest));
            bytes_of_front(lines);
            assert(lines.skip(1) =~= complete_lines(rest));
        },
        _ => {
            assert(complete_lines(text) =~= Seq::<Seq<char>>::empty());
        },
    }
}

proof fn index_is_found(s: Seq<char>, c: char, from: int)
    requires
        0 <= from,
    ensures
        index_from(s, c, from) matches Some(i) ==> from <= i < s.len() && s[i] == c,
    decreases s.len() - from,
{
    if from < s.len() && s[from] != c {
        index_is_found(s, c, from + 1);
    }
}

/// What is known of a log file: decisions, and the byte position up to which it was
/// read.
pub type Known = (Seq<DecisionView>, u64);

/// What is known once a text was read that the file holds from the position on. A
/// last line that no newline ends may still grow, and is not read.
pub open spec fn known_after(known: Known, text: Seq<char>, end: u64) -> Known {
    let lines = complete_lines(text);
    let n = lines_read(lines, known.1 as int, end as int) as int;
    (known.0 + line_decisions(lines.take(n)), (known.1 + bytes_of(lines.take(n))) as u64)
}

/// Whether the reading goes on behind a text: lines were read, and the last of them
/// is not a marked one with which `end` is reached.
pub open spec fn reads_on(text: Seq<char>, start: u64, end: u64) -> bool {
    let lines = complete_lines(text);
    let n = lines_read(lines, start as int, end as int) as int;
    n > 0 && !(is_marked(lines[n - 1]) && start + bytes_of(lines.take(n)) >= end)
}

proof fn no_more_lines_than_there_are(lines: Seq<Seq<char>>, at: int, end: int)
    ensures
        lines_read(lines, at, end) <= lines.len(),
        lines.len() > 0 ==> lines_read(lines, at, end) > 0,
    decreases lines.len(),
{
    if lines.len() > 0 {
        no_more_lines_than_there_are(lines.skip(1), at + byte_len(lines[0]) + 1, end);
    }
}

/// Reads a text that a log file holds from a byte position on. Gives the decisions,
/// the position behind the last line read, and whether the reading goes on there;
/// nothing where a position does not fit in 64 bits.
pub fn parse_log_piece(text: &str, start: u64, end_hint: u64) -> (r: Option<
    (Vec<LogDecision>, u64, bool),
>)
    ensures
        match r {
            Some((decisions, parsed_to, more)) => {
                &&& start + byte_len(text@) <= u64::MAX
                &&& (decisions.deep_view(), parsed_to) == known_after(
                    (Seq::empty(), start),
                    text@,
                    end_hint,
                )
                &&& more == reads_on(text@, start, end_hint)
                &&& more ==> parsed_to > start
            },
            None => start + byte_len(text@) > u64::MAX,
        },
{
    let len: u64 = len_bytes(text) as u64;
    if len > 0xffff_ffff_ffff_ffff - start {
        return None;
    }
    let all = split(text, '\n');
    let ghost texts = complete_lines(text@);
    proof {
        pieces_are_some(text@, '\n');
        lines_make_up_the_bytes(text@);
        no_more_lines_than_there_are(texts, start as int, end_hint as int);
        assert(texts.skip(0) =~= texts);
        assert(texts.take(0) =~= Seq::<Seq<char>>::empty());
    }
    let mut decisions: Vec<LogDecision> = Vec::new();
    assert(decisions.deep_view() =~= Seq::<DecisionView>::empty());
    let mut consumed: u64 = start;
    let n: usize = all.len() - 1;
    let mut i: usize = 0;
    while i < n
        invariant
            i <= n < all.len(),
            all.deep_view() == pieces(text@, '\n'),
            texts == complete_lines(text@),
            texts.len() == n,
            start + byte_len(text@) <= u64::MAX,
            start + bytes_of(texts) <= u64::MAX,
            decisions.deep_view() == line_decisions(texts.take(i as int)),
            consumed == start + bytes_of(texts.take(i as int)),
            i > 0 ==> !(is_marked(texts[i - 1]) && consumed >= end_hint),
            lines_read(texts, start as int, end_hint as int) == i + lines_read(
                texts.skip(i as int),
                consumed as int,
                end_hint as int,
            ),
        decreases n - i,
    {
        let line = all[i].as_str();
        proof {
            assert(texts[i as int] == line@);
            assert(texts.skip(i as int)[0] == line@);
            assert(texts.skip(i as int).skip(1) =~= texts.skip(i + 1));
            assert(texts.take(i + 1).drop_last() =~= texts.take(i as int));
            assert(texts.take(i + 1) + texts.skip(i + 1) =~= texts);
            bytes_of_sum(texts.take(i + 1), texts.skip(i + 1));
        }
        consumed = consumed + len_bytes(line) as u64 + 1;
        push_decision(line, &mut decisions);
        i += 1;
        if contains(line, "service=permission") && consumed >= end_hint {
            assert(Seq::<DecisionView>::empty() + decisions.deep_view() =~= decisions.deep_view());
            return Some((decisions, consumed, false));
        }
    }
    assert(Seq::<DecisionView>::empty() + decisions.deep_view() =~= decisions.deep_view());
    proof {
        if n > 0 {
            bytes_of_front(texts);
            assert(texts.take(n as int) =~= texts);
        }
    }
    Some((decisions, consumed, n > 0))
}

/// A reading of a log file that is kept: the decisions up to a byte position.
#[derive(Debug)]
pub struct CachedLogState {
    pub schema_version: u32,
    pub decisions: Vec<LogDecision>,
    pub last_offset: u64,
}

/// The content of a kept reading.
pub ghost struct StateView {
    pub schema_version: u32,
    pub decisions: Seq<DecisionView>,
    pub last_offset: u64,
}

impl View for CachedLogState {
    type V = StateView;

    open spec fn view(&self) -> StateView {
        StateView {
            schema_version: self.schema_version,
            decisions: self.decisions.deep_view(),
            last_offset: self.last_offset,
        }
    }
}

impl DeepView for CachedLogState {
    type V = StateView;

    open spec fn deep_view(&self) -> StateView {
        self.view()
    }
}

/// What is known of a log file that now has `file_len` bytes, and the position to
/// read on from. A kept reading counts where its form is the present one and the
/// file did not become shorter than what was read.
pub open spec fn resumed(kept: Option<StateView>, file_len: u64) -> Known {
    match kept {
        Some(s) => if s.schema_version == CACHE_SCHEMA_VERSION && s.last_offset <= file_len {
            (s.decisions, s.last_offset)
        } else {
            (Seq::empty(), 0)
        },
        None => (Seq::empty(), 0),
    }
}

/// What is known of a log file, and the position to read on from.
pub fn resume_reading(kept: Option<CachedLogState>, file_len: u64) -> (r: (Vec<LogDecision>, u64))
    ensures
        (r.0.deep_view(), r.1) == resumed(kept.deep_view(), file_len),
{
    match kept {
        Some(s) => {
            if s.schema_version == CACHE_SCHEMA_VERSION && s.last_offset <= file_len {
                return (s.decisions, s.last_offset);
            }
        },
        None => {},
    }
    let none: Vec<LogDecision> = Vec::new();
    assert(none.deep_view() =~= Seq::<DecisionView>::empty());
    (none, 0)
}

/// The position to read on from; none where nothing is new.
pub open spec fn reading_asked(known: Known, file_len: u64) -> Option<u64> {
    if known.1 >= file_len {
        None
    } else {
        Some(known.1)
    }
}

/// The position from which a log file of `file_len` bytes is to be read, given what
/// was kept of an earlier reading; none where nothing is new.
pub fn request_reading(kept: &Option<CachedLogState>, file_len: u64) -> (r: Option<u64>)
    ensures
        r == reading_asked(resumed(kept.deep_view(), file_len), file_len),
{
    let start: u64 = match kept {
        Some(s) => if s.schema_version == CACHE_SCHEMA_VERSION && s.last_offset <= file_len {
            s.last_offset
        } else {
            0
        },
        None => 0,
    };
    if start >= file_len {
        None
    } else {
        Some(start)
    }
}

/// Whether a log file was read from a byte position on and held this text, from one
/// state of what the reading acts on to another.
pub open spec fn tail_was_read<W, F: Fn(W, u64) -> (W, Result<String, String>)>(
    read_tail: F,
    before: W,
    start: u64,
    after: W,
    reply: Result<Seq<char>, Seq<char>>,
) -> bool {
    exists|r: Result<String, String>| #[trigger]
        call_ensures(read_tail, (before, start), (after, r)) && reply_view(r) == reply
}

/// Whether a reading was handed over to be kept, from one state of what this acts
/// on to another.
pub open spec fn reading_was_kept<W, K: Fn(W, &CachedLogState) -> W>(
    keep: K,
    before: W,
    state: StateView,
    after: W,
) -> bool {
    exists|s: &CachedLogState| #[trigger]
        call_ensures(keep, (before, s), after) && s@ == state
}

/// The reading that comes of reading a text on.
pub open spec fn read_on(known: Known, text: Seq<char>, file_len: u64) -> StateView {
    state_after(known_after(known, text, file_len))
}

/// The reading that is kept of what is known.
pub open spec fn state_after(known: Known) -> StateView {
    StateView {
        schema_version: CACHE_SCHEMA_VERSION,
        decisions: known.0,
        last_offset: known.1,
    }
}

/// Whether one more text was read, from one state to another. A state is what the
/// reading acts on, and what is known.
pub open spec fn piece_was_read<W, F: Fn(W, u64) -> (W, Result<String, String>)>(
    read: F,
    end: u64,
    before: (W, Known),
    text: Seq<char>,
    after: (W, Known),
) -> bool {
    &&& tail_was_read(read, before.0, before.1.1, after.0, Ok(text))
    &&& before.1.1 + byte_len(text) <= u64::MAX
    &&& after.1 == known_after(before.1, text, end)
}

/// Whether texts, behind each of which the reading goes on, lead from one state over
/// those in `path` to another: each was read from the position up to which the one
/// before it was read.
pub open spec fn pieces_lead<W, F: Fn(W, u64) -> (W, Result<String, String>)>(
    read: F,
    end: u64,
    path: Seq<(W, Known)>,
    texts: Seq<Seq<char>>,
    from: (W, Known),
    to: (W, Known),
) -> bool
    decreases path.len(),
{
    &&& path.len() == texts.len()
    &&& if path.len() == 0 {
        from == to
    } else {
        &&& piece_was_read(read, end, path.last(), texts.last(), to)
        &&& reads_on(texts.last(), path.last().1.1, end)
        &&& pieces_lead(read, end, path.drop_last(), texts.drop_last(), from, path.last())
    }
}

/// Whether the reading of a log file ends so from a state on: with a failure, or with
/// a text behind which it does not go on.
pub open spec fn reading_ends<W, F: Fn(W, u64) -> (W, Result<String, String>)>(
    read: F,
    end: u64,
    last: (W, Known),
    reply: Result<Seq<char>, Seq<char>>,
    after: W,
    outcome: Result<Known, Seq<char>>,
) -> bool {
    &&& tail_was_read(read, last.0, last.1.1, after, reply)
    &&& match reply {
        Err(e) => outcome == Err::<Known, Seq<char>>(e),
        Ok(text) => if last.1.1 + byte_len(text) > u64::MAX {
            outcome == Err::<Known, Seq<char>>("a position in the log does not fit in 64 bits"@)
        } else {
            !reads_on(text, last.1.1, end) && outcome == Ok::<Known, Seq<char>>(
                known_after(last.1, text, end),
            )
        },
    }
}

/// Whether reading a log file on from a byte position came out so, from one state of
/// what the reading acts on to another.
pub open spec fn tail_follows<W, F: Fn(W, u64) -> (W, Result<String, String>)>(
    read: F,
    start: u64,
    end: u64,
    before: W,
    after: W,
    outcome: Result<Known, Seq<char>>,
) -> bool {
    exists|
        path: Seq<(W, Known)>,
        texts: Seq<Seq<char>>,
        last: (W, Known),
        reply: Result<Seq<char>, Seq<char>>,
    |
        #[trigger] pieces_lead(read, end, path, texts, (before, (Seq::empty(), start)), last)
            && #[trigger] reading_ends(read, end, last, reply, after, outcome)
}

/// What came of reading on.
pub open spec fn tail_view(r: Result<(Vec<LogDecision>, u64), String>) -> Result<Known, Seq<char>> {
    match r {
        Ok((decisions, parsed_to)) => Ok((decisions.deep_view(), parsed_to)),
        Err(e) => Err(e@),
    }
}

proof fn known_decisions_stay(known: Known, text: Seq<char>, end: u64)
    ensures
        known_after(known, text, end) == (
            known.0 + known_after((Seq::empty(), known.1), text, end).0,
            known_after((Seq::empty(), known.1), text, end).1,
        ),
{
    let lines = complete_lines(text);
    let n = lines_read(lines, known.1 as int, end as int) as int;
    let more = line_decisions(lines.take(n));
    assert(Seq::<DecisionView>::empty() + more =~= more);
}

/// Reads a log file on from a byte position. `read` gives a text that the file holds
/// from a position on, whole lines or the rest of the file; it is asked again behind
/// the lines of each, until it gives none, or a marked line with which `end_hint` is
/// reached. Gives the decisions, and the position behind the last line read.
pub fn parse_log_tail<W, F: Fn(W, u64) -> (W, Result<String, String>)>(
    start: u64,
    end_hint: u64,
    world: W,
    read: F,
) -> (r: (W, Result<(Vec<LogDecision>, u64), String>))
    requires
        forall|w: W, o: u64| call_requires(read, (w, o)),
    ensures
        tail_follows(read, start, end_hint, world, r.0, tail_view(r.1)),
{
    let mut decisions: Vec<LogDecision> = Vec::new();
    let mut at: u64 = start;
    let mut now = world;
    let ghost mut path: Seq<(W, Known)> = Seq::empty();
    let ghost mut texts: Seq<Seq<char>> = Seq::empty();
    let ghost begin: (W, Known) = (world, (Seq::empty(), start));
    assert(decisions.deep_view() =~= Seq::<DecisionView>::empty());
    loop
        invariant
            forall|w: W, o: u64| call_requires(read, (w, o)),
            begin == (world, (Seq::<DecisionView>::empty(), start)),
            pieces_lead(read, end_hint, path, texts, begin, (now, (decisions.deep_view(), at))),
        decreases u64::MAX - at,
    {
        let ghost last: (W, Known) = (now, (decisions.deep_view(), at));
        let (after, reply) = read(now, at);
        now = after;
        let ghost told = reply_view(reply);
        assert(tail_was_read(read, last.0, at, now, told));
        let text = match reply {
            Ok(text) => text,
            Err(e) => {
                let r: (W, Result<(Vec<LogDecision>, u64), String>) = (now, Err(e));
                assert(reading_ends(read, end_hint, last, told, r.0, tail_view(r.1)));
                return r;
            },
        };
        match parse_log_piece(text.as_str(), at, end_hint) {
            None => {
                let r: (W, Result<(Vec<LogDecision>, u64), String>) = (
                    now,
                    Err("a position in the log does not fit in 64 bits".to_string()),
                );
                assert(reading_ends(read, end_hint, last, told, r.0, tail_view(r.1)));
                return r;
            },
            Some((found, parsed_to, more)) => {
                let mut found = found;
                let ghost before = decisions.deep_view();
                let ghost added = found.deep_view();
                decisions.append(&mut found);
                assert(decisions.deep_view() =~= before + added);
                proof {
                    known_decisions_stay(last.1, text@, end_hint);
                }
                if !more {
                    let r: (W, Result<(Vec<LogDecision>, u64), String>) = (
                        now,
                        Ok((decisions, parsed_to)),
                    );
                    assert(reading_ends(read, end_hint, last, told, r.0, tail_view(r.1)));
                    return r;
                }
                at = parsed_to;
                proof {
                    let to: (W, Known) = (now, (decisions.deep_view(), at));
                    assert(piece_was_read(read, end_hint, last, text@, to));
                    assert(path.push(last).drop_last() =~= path);
                    assert(texts.push(text@).drop_last() =~= texts);
                    path = path.push(last);
                    texts = texts.push(text@);
                }
            },
        }
    }
}

/// Whether decisions come of reading a log file on: those known, where nothing is
/// new, and then nothing is read or kept; else those known and those in what the
/// file holds behind them, and then the new reading was kept. `between` is the
/// state after the reading.
pub open spec fn reading_follows<
    W,
    F: Fn(W, u64) -> (W, Result<String, String>),
    K: Fn(W, &CachedLogState) -> W,
>(
    known: Known,
    file_len: u64,
    doors: (F, K),
    before: W,
    tail: Result<Known, Seq<char>>,
    between: W,
    after: W,
    r: Result<Seq<DecisionView>, Seq<char>>,
) -> bool {
    match reading_asked(known, file_len) {
        None => after == before && r == Ok::<Seq<DecisionView>, Seq<char>>(known.0),
        Some(start) => {
            &&& tail_follows(doors.0, start, file_len, before, between, tail)
            &&& match tail {
                Ok((more, parsed_to)) => {
                    &&& r == Ok::<Seq<DecisionView>, Seq<char>>(known.0 + more)
                    &&& reading_was_kept(
                        doors.1,
                        between,
                        state_after((known.0 + more, parsed_to)),
                        after,
                    )
                },
                Err(e) => after == between && r == Err::<Seq<DecisionView>, Seq<char>>(e),
            }
        },
    }
}

/// A decision as it is.
fn copied(d: &LogDecision) -> (r: LogDecision)
    ensures
        r@ == d@,
{
    LogDecision {
        timestamp: d.timestamp,
        permission: d.permission.clone(),
        pattern: d.pattern.clone(),
        action: d.action.clone(),
    }
}

fn copied_all(v: &Vec<LogDecision>) -> (r: Vec<LogDecision>)
    ensures
        r.deep_view() == v.deep_view(),
{
    let mut out: Vec<LogDecision> = Vec::new();
    let mut i: usize = 0;
    while i < v.len()
        invariant
            i <= v.len(),
            out.len() == i,
            forall|j: int| 0 <= j < i ==> (#[trigger] out@[j])@ == v@[j]@,
        decreases v.len() - i,
    {
        out.push(copied(&v[i]));
        i += 1;
    }
    assert(out.deep_view() =~= v.deep_view());
    out
}

/// The decisions in a log file of `file_len` bytes, given what was kept of an
/// earlier reading. `read` gives a text that the file holds from a byte position
/// on, whole lines or the rest of the file, and `keep` keeps a reading.
///
/// `world` stands for what these act on. Each call takes it over from the one
/// before, so that the contract tells which were made: where nothing is new, none.
pub fn load_log_decisions_incremental<
    W,
    F: Fn(W, u64) -> (W, Result<String, String>),
    K: Fn(W, &CachedLogState) -> W,
>(file_len: u64, kept: Option<CachedLogState>, world: W, read: F, keep: K) -> (r: (
    W,
    Result<Vec<LogDecision>, String>,
))
    requires
        forall|w: W, o: u64| call_requires(read, (w, o)),
        forall|w: W, s: &CachedLogState| call_requires(keep, (w, s)),
    ensures
        exists|tail: Result<Known, Seq<char>>, between: W| #[trigger]
            reading_follows(
                resumed(kept.deep_view(), file_len),
                file_len,
                (read, keep),
                world,
                tail,
                between,
                r.0,
                decisions_view(r.1),
            ),
{
    let ghost known = resumed(kept.deep_view(), file_len);
    let ghost doors = (read, keep);
    let asked = request_reading(&kept, file_len);
    let (mut decisions, _) = resume_reading(kept, file_len);
    let start: u64 = match asked {
        Some(start) => start,
        None => {
            let r: (W, Result<Vec<LogDecision>, String>) = (world, Ok(decisions));
            assert(reading_follows(
                known,
                file_len,
                doors,
                world,
                Err(Seq::empty()),
                r.0,
                r.0,
                decisions_view(r.1),
            ));
            return r;
        },
    };
    let (between, tail) = parse_log_tail(start, file_len, world, read);
    let ghost reached = between;
    let ghost told = tail_view(tail);
    let r: (W, Result<Vec<LogDecision>, String>) = match tail {
        Ok((more, parsed_to)) => {
            let mut more = more;
            let ghost before = decisions.deep_view();
            let ghost added = more.deep_view();
            decisions.append(&mut more);
            assert(decisions.deep_view() =~= before + added);
            let state = CachedLogState {
                schema_version: CACHE_SCHEMA_VERSION,
                decisions: copied_all(&decisions),
                last_offset: parsed_to,
            };
            let after = keep(between, &state);
            assert(state@ == state_after((known.0 + added, parsed_to)));
            assert(reading_was_kept(keep, reached, state@, after));
            (after, Ok(decisions))
        },
        Err(e) => (between, Err(e)),
    };
    assert(reading_follows(known, file_len, doors, world, told, reached, r.0, decisions_view(r.1)));
    r
}

proof fn line_decisions_add_up(a: Seq<Seq<char>>, b: Seq<Seq<char>>)
    ensures
        line_decisions(a + b) == line_decisions(a) + line_decisions(b),
    decreases b.len(),
{
    if b.len() == 0 {
        assert(a + b =~= a);
        assert(line_decisions(a) + line_decisions(b) =~= line_decisions(a));
    } else {
        line_decisions_add_up(a, b.drop_last());
        assert((a + b).drop_last() =~= a + b.drop_last());
        match line_decision(b.last()) {
            Some(d) => {
                assert(line_decisions(a + b) =~= line_decisions(a) + line_decisions(b));
            },
            None => {},
        }
    }
}

proof fn every_line_is_read(lines: Seq<Seq<char>>, at: int, end: int)
    requires
        at + bytes_of(lines) <= end,
    ensures
        lines_read(lines, at, end) == lines.len(),
    decreases lines.len(),
{
    if lines.len() > 0 {
        bytes_of_front(lines);
        let rest = lines.skip(1);
        let behind = at + byte_len(lines[0]) + 1;
        every_line_is_read(rest, behind, end);
        if rest.len() > 0 {
            bytes_of_front(rest);
        }
    }
}

/// The part of a text that its complete lines make up.
pub open spec fn complete_part(text: Seq<char>) -> Seq<char> {
    text.take(text.len() - pieces(text, '\n').last().len())
}

proof fn complete_part_properties(text: Seq<char>)
    ensures
        pieces(text, '\n').last().len() <= text.len(),
        complete_part(text).len() == 0 || complete_part(text).last() == '\n',
        complete_lines(complete_part(text)) == complete_lines(text),
        text == complete_part(text) + pieces(text, '\n').last(),
    decreases text.len(),
{
    match index_from(text, '\n', 0) {
        Some(i) if 0 <= i < text.len() => {
            let rest = text.skip(i + 1);
            index_is_found(text, '\n', 0);
            complete_part_properties(rest);
            pieces_are_some(rest, '\n');
            let head = text.take(i) + seq!['\n'];
            let part = complete_part(rest);
            assert(complete_part(text) =~= head + part);
            assert(text =~= head + rest);
            if part.len() > 0 {
                assert(complete_part(text).last() == part.last());
            } else {
                assert(complete_part(text).last() == '\n');
            }
            pieces_add_up(head, part, '\n');
            pieces_add_up(head, rest, '\n');
            pieces_are_some(part, '\n');
            assert(complete_lines(complete_part(text)) =~= pieces(head, '\n').drop_last()
                + complete_lines(part));
            assert(complete_lines(text) =~= pieces(head, '\n').drop_last() + complete_lines(rest));
        },
        _ => {
            assert(complete_part(text) =~= Seq::<char>::empty());
            assert(pieces(text, '\n') =~= seq![text]);
            assert(complete_lines(Seq::<char>::empty()) =~= complete_lines(text));
        },
    }
}

/// Whether a reading is one of a text: of a part that ends with a newline or is
/// empty, all of whose decisions it has.
pub open spec fn is_reading_of(state: StateView, part: Seq<char>, text: Seq<char>) -> bool {
    &&& state.schema_version == CACHE_SCHEMA_VERSION
    &&& has_prefix(text, part)
    &&& part.len() == 0 || part.last() == '\n'
    &&& state.last_offset == byte_len(part)
    &&& state.decisions == line_decisions(complete_lines(part))
}

/// Reading a log file on from a kept reading gives what reading it all at once
/// gives, and the new reading is again one of the file. The file may have grown
/// since.
pub proof fn reading_on_is_reading_all(state: StateView, part: Seq<char>, text: Seq<char>)
    requires
        is_reading_of(state, part, text),
        byte_len(text) <= u64::MAX,
    ensures
        ({
            let len = byte_len(text) as u64;
            let known = resumed(Some(state), len);
            let next = read_on(known, text.skip(part.len() as int), len);
            &&& known == (state.decisions, state.last_offset)
            &&& next.decisions == line_decisions(complete_lines(text))
            &&& next == read_on((Seq::empty(), 0), text, len)
            &&& is_reading_of(next, complete_part(text), text)
        }),
{
    let len = byte_len(text) as u64;
    let rest = text.skip(part.len() as int);
    assert(text =~= part + rest);
    bytes_add_up(part, rest);
    let known = resumed(Some(state), len);
    let lines = complete_lines(rest);
    lines_make_up_the_bytes(rest);
    lines_make_up_the_bytes(part);
    lines_make_up_the_bytes(text);
    last_piece_is_empty(part, '\n');
    assert(byte_len(Seq::<char>::empty()) == 0);
    every_line_is_read(lines, known.1 as int, len as int);
    assert(lines.take(lines.len() as int) =~= lines);
    pieces_add_up(part, rest, '\n');
    pieces_are_some(rest, '\n');
    assert(complete_lines(text) =~= complete_lines(part) + lines);
    line_decisions_add_up(complete_lines(part), lines);
    bytes_of_sum(complete_lines(part), lines);
    let all = complete_lines(text);
    every_line_is_read(all, 0, len as int);
    assert(all.take(all.len() as int) =~= all);
    assert(Seq::<DecisionView>::empty() + line_decisions(all) =~= line_decisions(all));
    complete_part_properties(text);
    let whole = complete_part(text);
    lines_make_up_the_bytes(whole);
    last_piece_is_empty(whole, '\n');
    assert(has_prefix(text, whole));
}

/// Whether a text is made of whole lines.
pub open spec fn is_whole(text: Seq<char>) -> bool {
    text.len() == 0 || text.last() == '\n'
}

proof fn whole_lines_come_first(part: Seq<char>, rest: Seq<char>)
    requires
        is_whole(part),
    ensures
        complete_lines(part + rest) == complete_lines(part) + complete_lines(rest),
        byte_len(part) == bytes_of(complete_lines(part)),
        byte_len(part + rest) == byte_len(part) + byte_len(rest),
{
    pieces_add_up(part, rest, '\n');
    pieces_are_some(rest, '\n');
    pieces_are_some(part, '\n');
    assert(complete_lines(part + rest) =~= complete_lines(part) + complete_lines(rest));
    lines_make_up_the_bytes(part);
    last_piece_is_empty(part, '\n');
    assert(byte_len(Seq::<char>::empty()) == 0);
    bytes_add_up(part, rest);
}

/// Whether reading all of some lines does not reach its end with the last of them.
spec fn passes(lines: Seq<Seq<char>>, at: int, end: int) -> bool {
    &&& lines_read(lines, at, end) == lines.len()
    &&& lines.len() > 0 ==> !(is_marked(lines.last()) && at + bytes_of(lines) >= end)
}

proof fn passing_is_reading_all(lines: Seq<Seq<char>>, at: int, end: int)
    requires
        ({
            let n = lines_read(lines, at, end) as int;
            n > 0 && !(is_marked(lines[n - 1]) && at + bytes_of(lines.take(n)) >= end)
        }),
    ensures
        passes(lines, at, end),
    decreases lines.len(),
{
    let n = lines_read(lines, at, end) as int;
    let rest = lines.skip(1);
    let behind = at + byte_len(lines[0]) + 1;
    no_more_lines_than_there_are(lines, at, end);
    no_more_lines_than_there_are(rest, behind, end);
    bytes_of_front(lines.take(n));
    assert(lines.take(n)[0] == lines[0]);
    if n == 1 {
        assert(lines.take(1).skip(1) =~= Seq::<Seq<char>>::empty());
        if rest.len() > 0 {
            assert(lines_read(rest, behind, end) > 0);
        }
    } else {
        assert(lines.take(n).skip(1) =~= rest.take(n - 1));
        assert(rest[n - 2] == lines[n - 1]);
        passing_is_reading_all(rest, behind, end);
    }
    assert(lines.take(lines.len() as int) =~= lines);
}

proof fn passed_lines_come_first(a: Seq<Seq<char>>, b: Seq<Seq<char>>, at: int, end: int)
    requires
        passes(a, at, end),
    ensures
        lines_read(a + b, at, end) == a.len() + lines_read(b, at + bytes_of(a), end),
    decreases a.len(),
{
    if a.len() == 0 {
        assert(a + b =~= b);
    } else {
        let rest = a.skip(1);
        let behind = at + byte_len(a[0]) + 1;
        bytes_of_front(a);
        if a.len() == 1 {
            assert(rest =~= Seq::<Seq<char>>::empty());
        } else {
            assert(rest.last() == a.last());
        }
        passed_lines_come_first(rest, b, behind, end);
        assert((a + b)[0] == a[0]);
        assert((a + b).skip(1) =~= rest + b);
    }
}

proof fn lines_behind_the_end_are_not_read(
    a: Seq<Seq<char>>,
    b: Seq<Seq<char>>,
    at: int,
    end: int,
)
    requires
        a.len() > 0,
        !passes(a, at, end),
    ensures
        lines_read(a + b, at, end) == lines_read(a, at, end),
    decreases a.len(),
{
    let rest = a.skip(1);
    let behind = at + byte_len(a[0]) + 1;
    assert((a + b)[0] == a[0]);
    assert((a + b).skip(1) =~= rest + b);
    bytes_of_front(a);
    no_more_lines_than_there_are(rest, behind, end);
    if !(is_marked(a[0]) && behind >= end) {
        if a.len() == 1 {
            assert(rest =~= Seq::<Seq<char>>::empty());
            assert(passes(a, at, end));
        } else {
            assert(rest.last() == a.last());
            lines_behind_the_end_are_not_read(rest, b, behind, end);
        }
    }
}

proof fn going_on_is_passing(text: Seq<char>, start: u64, end: u64)
    ensures
        reads_on(text, start, end) <==> complete_lines(text).len() > 0 && passes(
            complete_lines(text),
            start as int,
            end as int,
        ),
{
    let lines = complete_lines(text);
    no_more_lines_than_there_are(lines, start as int, end as int);
    if reads_on(text, start, end) {
        passing_is_reading_all(lines, start as int, end as int);
    }
    if lines.len() > 0 && passes(lines, start as int, end as int) {
        assert(lines.take(lines.len() as int) =~= lines);
    }
}

/// Reading whole lines, and then the text behind them, is reading both at once,
/// where the reading goes on behind the lines.
pub proof fn texts_are_read_like_the_whole(known: Known, part: Seq<char>, rest: Seq<char>, end: u64)
    requires
        is_whole(part),
        part.len() == 0 || reads_on(part, known.1, end),
        known.1 + byte_len(part + rest) <= u64::MAX,
    ensures
        known_after(known, part + rest, end) == known_after(
            known_after(known, part, end),
            rest,
            end,
        ),
        known_after(known, part, end).1 == known.1 + byte_len(part),
        reads_on(rest, (known.1 + byte_len(part)) as u64, end) ==> reads_on(
            part + rest,
            known.1,
            end,
        ),
{
    let a = complete_lines(part);
    let b = complete_lines(rest);
    let at = known.1 as int;
    whole_lines_come_first(part, rest);
    going_on_is_passing(part, known.1, end);
    if part.len() == 0 {
        assert(pieces(part, '\n') =~= seq![part]);
        assert(a =~= Seq::<Seq<char>>::empty());
    }
    assert(passes(a, at, end as int));
    passed_lines_come_first(a, b, at, end as int);
    let behind = at + bytes_of(a);
    let n = lines_read(b, behind, end as int) as int;
    no_more_lines_than_there_are(b, behind, end as int);
    assert(a.take(a.len() as int) =~= a);
    assert((a + b).take(a.len() + n) =~= a + b.take(n));
    line_decisions_add_up(a, b.take(n));
    bytes_of_sum(a, b.take(n));
    assert(known.0 + (line_decisions(a) + line_decisions(b.take(n))) =~= known.0 + line_decisions(a)
        + line_decisions(b.take(n)));
    going_on_is_passing(rest, behind as u64, end);
    going_on_is_passing(part + rest, known.1, end);
    if reads_on(rest, behind as u64, end) {
        bytes_of_sum(a, b);
        assert((a + b).last() == b.last());
    }
}

/// Whether a text is what lies in front of another: all of it, or whole lines.
pub open spec fn is_front(text: Seq<char>, all: Seq<char>) -> bool {
    has_prefix(all, text) && (text == all || (text.len() > 0 && is_whole(text)))
}

/// Whether a reading of a log file gives what the file holds: `held` from the byte
/// position `start` on.
pub open spec fn gives_file<W, F: Fn(W, u64) -> (W, Result<String, String>)>(
    read: F,
    start: u64,
    held: Seq<char>,
) -> bool {
    forall|w: W, part: Seq<char>, after: W, text: Seq<char>| #[trigger]
        tail_was_read(read, w, (start + byte_len(part)) as u64, after, Ok(text)) && #[trigger]
        has_prefix(held, part) && is_whole(part) ==> is_front(text, held.skip(part.len() as int))
}

proof fn pieces_are_of_the_file<W, F: Fn(W, u64) -> (W, Result<String, String>)>(
    read: F,
    start: u64,
    end: u64,
    held: Seq<char>,
    path: Seq<(W, Known)>,
    texts: Seq<Seq<char>>,
    from: W,
    to: (W, Known),
) -> (part: Seq<char>)
    requires
        gives_file(read, start, held),
        start + byte_len(held) <= u64::MAX,
        pieces_lead(read, end, path, texts, (from, (Seq::empty(), start)), to),
    ensures
        has_prefix(held, part),
        is_whole(part),
        part.len() == 0 || reads_on(part, start, end),
        to.1 == known_after((Seq::empty(), start), part, end),
        to.1.1 == start + byte_len(part),
    decreases path.len(),
{
    let none: Known = (Seq::empty(), start);
    if path.len() == 0 {
        let part = Seq::<char>::empty();
        assert(byte_len(part) == 0);
        texts_are_read_like_the_whole(none, part, part, end);
        assert(pieces(part, '\n') =~= seq![part]);
        assert(complete_lines(part) =~= Seq::<Seq<char>>::empty());
        assert(none.0 + line_decisions(Seq::empty()) =~= none.0);
        assert(Seq::<Seq<char>>::empty().take(0) =~= Seq::<Seq<char>>::empty());
        assert(held.subrange(0, 0) =~= part);
        part
    } else {
        let before = path.last();
        let text = texts.last();
        let part = pieces_are_of_the_file(
            read,
            start,
            end,
            held,
            path.drop_last(),
            texts.drop_last(),
            from,
            before,
        );
        let rest = held.skip(part.len() as int);
        assert(tail_was_read(read, before.0, (start + byte_len(part)) as u64, to.0, Ok(text)));
        assert(is_front(text, rest));
        let lines = complete_part(text);
        complete_part_properties(text);
        let more = part + lines;
        let behind = held.skip(more.len() as int);
        assert(held =~= part + rest);
        assert(rest =~= text + rest.skip(text.len() as int));
        assert(held =~= more + behind);
        assert(held.subrange(0, more.len() as int) =~= more);
        bytes_add_up(more, behind);
        texts_are_read_like_the_whole(none, part, lines, end);
        assert(known_after(before.1, lines, end) == known_after(before.1, text, end));
        assert(reads_on(lines, before.1.1, end) == reads_on(text, before.1.1, end));
        texts_are_read_like_the_whole(none, more, Seq::empty(), end);
        more
    }
}

/// Reading a log file on text by text, whatever texts it is given in, comes to what
/// reading all that it holds from the position on at once comes to.
pub proof fn reading_in_texts_is_reading_at_once<
    W,
    F: Fn(W, u64) -> (W, Result<String, String>),
>(read: F, start: u64, end: u64, held: Seq<char>, before: W, after: W, known: Known)
    requires
        gives_file(read, start, held),
        start + byte_len(held) <= u64::MAX,
        tail_follows(read, start, end, before, after, Ok(known)),
    ensures
        known == known_after((Seq::empty(), start), held, end),
{
    let none: Known = (Seq::empty(), start);
    let (path, texts, last, reply) = choose|
        path: Seq<(W, Known)>,
        texts: Seq<Seq<char>>,
        last: (W, Known),
        reply: Result<Seq<char>, Seq<char>>,
    |
        #[trigger] pieces_lead(read, end, path, texts, (before, none), last)
            && #[trigger] reading_ends(read, end, last, reply, after, Ok(known));
    let part = pieces_are_of_the_file(read, start, end, held, path, texts, before, last);
    let rest = held.skip(part.len() as int);
    let text = reply->Ok_0;
    assert(tail_was_read(read, last.0, (start + byte_len(part)) as u64, after, Ok(text)));
    assert(is_front(text, rest));
    assert(held =~= part + rest);
    texts_are_read_like_the_whole(none, part, rest, end);
    if text != rest {
        let behind = rest.skip(text.len() as int);
        assert(rest =~= text + behind);
        whole_lines_come_first(text, behind);
        let a = complete_lines(text);
        let b = complete_lines(behind);
        let at = last.1.1;
        going_on_is_passing(text, at, end);
        a_text_with_a_newline_has_a_line(text);
        lines_behind_the_end_are_not_read(a, b, at as int, end as int);
        no_more_lines_than_there_are(a, at as int, end as int);
        let n = lines_read(a, at as int, end as int) as int;
        assert((a + b).take(n) =~= a.take(n));
    }
}

proof fn a_text_with_a_newline_has_a_line(text: Seq<char>)
    requires
        text.len() > 0,
        text.last() == '\n',
    ensures
        complete_lines(text).len() > 0,
{
    newline_is_a_byte();
    lines_make_up_the_bytes(text);
    last_piece_is_empty(text, '\n');
    assert(byte_len(Seq::<char>::empty()) == 0);
    bytes_add_up(text.drop_last(), seq!['\n']);
    assert(text =~= text.drop_last() + seq!['\n']);
}

/// The decisions that lie in a span of time, in order.
pub open spec fn within(decisions: Seq<DecisionView>, w: Window) -> Seq<DecisionView> {
    decisions.filter(|d: DecisionView| in_window(d.timestamp, w))
}

/// Adds the decisions that lie in a span of time.
pub fn keep_in_window(decisions: Vec<LogDecision>, w: Window, all: &mut Vec<LogDecision>)
    ensures
        final(all).deep_view() == old(all).deep_view() + within(decisions.deep_view(), w),
{
    let ghost views = decisions.deep_view();
    let ghost before = all.deep_view();
    let ghost inside = |d: DecisionView| in_window(d.timestamp, w);
    let mut i: usize = 0;
    proof {
        reveal(Seq::filter);
        assert(views.take(0) =~= Seq::<DecisionView>::empty());
        assert(before + Seq::<DecisionView>::empty() =~= before);
    }
    while i < decisions.len()
        invariant
            i <= decisions.len(),
            views == decisions.deep_view(),
            inside == (|d: DecisionView| in_window(d.timestamp, w)),
            all.deep_view() == before + views.take(i as int).filter(inside),
        decreases decisions.len() - i,
    {
        let d = &decisions[i];
        let ghost known = all.deep_view();
        proof {
            reveal(Seq::filter);
            assert(views.take(i + 1).drop_last() =~= views.take(i as int));
            assert(views.take(i + 1).last() == d@);
        }
        let from_ok = match w.from {
            Some(from) => from.le(d.timestamp),
            None => true,
        };
        let to_ok = match w.to {
            Some(to) => d.timestamp.le(to),
            None => true,
        };
        if from_ok && to_ok {
            all.push(copied(d));
            assert(all.deep_view() =~= known.push(d@));
            assert(known.push(d@) =~= before + views.take(i as int).filter(inside).push(d@));
        }
        i += 1;
    }
    assert(views.take(i as int) =~= views);
}

/// A log file: its name, and when it was last written, in seconds of Unix time.
#[derive(Debug)]
pub struct LogFile {
    pub name: String,
    pub modified: Option<i64>,
}

/// Whether a log file was last written before an instant, as far as is known.
pub open spec fn ended_before(modified: Option<i64>, from: Option<Timestamp>) -> bool {
    match (modified, from) {
        (Some(secs), Some(from)) => MIN_MILLIS <= secs * 1000 <= MAX_MILLIS && (Timestamp {
            secs,
            nanos: 0,
        }).spec_before(from),
        _ => false,
    }
}

/// When a log file was opened, as its name says.
pub open spec fn opened_at(name: Seq<char>) -> Option<Timestamp> {
    naive_instant_in(name_parts(name).0, NAME_TIME_FORMAT@)
}

/// Whether a file opened at an instant was opened more than an hour behind a
/// span of time.
pub open spec fn opened_behind(opened: Option<Timestamp>, to: Option<Timestamp>) -> bool {
    match (opened, to) {
        (Some(opened), Some(to)) => match shifted(to, LOG_FILENAME_SLACK_SECS as int) {
            Some(limit) => limit.spec_before(opened),
            None => false,
        },
        _ => false,
    }
}

/// Whether a file may hold decisions of a span of time: it is a log, was written
/// to within or behind the span, and was not opened behind it. What is not known
/// of a file does not exclude it.
pub open spec fn is_relevant(
    name: Seq<char>,
    modified: Option<i64>,
    opened: Option<Timestamp>,
    w: Window,
) -> bool {
    &&& name_parts(name).1 == Some("log"@)
    &&& !ended_before(modified, w.from)
    &&& !opened_behind(opened, w.to)
}

/// When a log file was opened, as its name says.
pub fn parse_log_filename_ts(name: &str) -> (r: Option<Timestamp>)
    ensures
        r == opened_at(name@),
{
    let (stem, _) = split_extension(name);
    parse_naive_instant(stem.as_str(), NAME_TIME_FORMAT)
}

/// Whether a file may hold decisions of a span of time, given when it was opened.
pub fn may_hold_decisions(
    name: &str,
    modified: Option<i64>,
    opened: Option<Timestamp>,
    w: Window,
) -> (r: bool)
    ensures
        r == is_relevant(name@, modified, opened, w),
{
    let (_, extension) = split_extension(name);
    let is_log = match extension {
        Some(e) => str_eq(e.as_str(), "log"),
        None => false,
    };
    if !is_log {
        return false;
    }
    match (modified, w.from) {
        (Some(secs), Some(from)) => {
            if MIN_MILLIS / 1000 <= secs && secs <= 8_210_266_876_799 {
                let written = Timestamp { secs, nanos: 0 };
                if written.before(from) {
                    return false;
                }
            }
        },
        _ => {},
    }
    match (opened, w.to) {
        (Some(opened), Some(to)) => match shift(to, LOG_FILENAME_SLACK_SECS) {
            Some(limit) => !limit.before(opened),
            None => true,
        },
        _ => true,
    }
}

/// The names of the files that may hold decisions of a span of time, in the order
/// in which they were listed.
pub open spec fn relevant_names(files: Seq<LogFile>, w: Window) -> Seq<String>
    decreases files.len(),
{
    if files.len() == 0 {
        Seq::empty()
    } else {
        let f = files.last();
        if is_relevant(f.name@, f.modified, opened_at(f.name@), w) {
            relevant_names(files.drop_last(), w).push(f.name)
        } else {
            relevant_names(files.drop_last(), w)
        }
    }
}

/// The names of the files that may hold decisions of a span of time, in order.
pub fn select_log_files(files: Vec<LogFile>, w: Window) -> (r: Vec<String>)
    ensures
        r@ == stably_sorted::<String, ByText>(relevant_names(files@, w)),
{
    let ghost all = files@;
    let mut rest = files;
    let mut out: Vec<String> = Vec::new();
    let ghost mut done: int = 0;
    assert(all.skip(0) =~= all);
    assert(all.take(0) =~= Seq::<LogFile>::empty());
    while rest.len() > 0
        invariant
            0 <= done <= all.len(),
            rest@ == all.skip(done),
            out@ == relevant_names(all.take(done), w),
        decreases rest.len(),
    {
        let f = rest.remove(0);
        assert(f == all[done]);
        assert(rest@ =~= all.skip(done + 1));
        assert(all.take(done + 1).drop_last() =~= all.take(done));
        assert(all.take(done + 1).last() == f);
        let opened = parse_log_filename_ts(f.name.as_str());
        if may_hold_decisions(f.name.as_str(), f.modified, opened, w) {
            out.push(f.name);
        }
        proof {
            done = done + 1;
        }
    }
    assert(all.take(done) =~= all);
    stable_sort::<String, ByText>(out)
}

/// Whether these may be the decisions in the file of a name.
pub open spec fn may_be_in<D: Fn(&String) -> Vec<LogDecision>>(
    decisions_in: D,
    name: String,
    decisions: Seq<DecisionView>,
) -> bool {
    exists|v: Vec<LogDecision>| #[trigger]
        call_ensures(decisions_in, (&name,), v) && v.deep_view() == decisions
}

/// The decisions of several files that lie in a span of time, file by file.
pub open spec fn all_within(answers: Seq<Seq<DecisionView>>, w: Window) -> Seq<DecisionView>
    decreases answers.len(),
{
    if answers.len() == 0 {
        Seq::empty()
    } else {
        all_within(answers.drop_last(), w) + within(answers.last(), w)
    }
}

/// Whether each file was asked for its decisions, and answered so.
pub open spec fn files_answered<D: Fn(&String) -> Vec<LogDecision>>(
    decisions_in: D,
    names: Seq<String>,
    answers: Seq<Seq<DecisionView>>,
) -> bool {
    &&& answers.len() == names.len()
    &&& forall|i: int|
        0 <= i < names.len() ==> may_be_in(decisions_in, names[i], #[trigger] answers[i])
}

/// The decisions of a span of time in the files of a log directory; none where
/// there is no such directory. `decisions_in` gives all decisions in the file of
/// a name.
pub fn load_log_decisions_cached<D: Fn(&String) -> Vec<LogDecision>>(
    files: Option<Vec<LogFile>>,
    w: Window,
    decisions_in: D,
) -> (r: Vec<LogDecision>)
    requires
        forall|name: &String| call_requires(decisions_in, (name,)),
    ensures
        match files {
            Some(files) => exists|answers: Seq<Seq<DecisionView>>| #[trigger]
                files_answered(
                    decisions_in,
                    stably_sorted::<String, ByText>(relevant_names(files@, w)),
                    answers,
                ) && r.deep_view() == all_within(answers, w),
            None => r@.len() == 0,
        },
{
    let mut all: Vec<LogDecision> = Vec::new();
    let files = match files {
        Some(files) => files,
        None => return all,
    };
    let names = select_log_files(files, w);
    let ghost mut answers: Seq<Seq<DecisionView>> = Seq::empty();
    let mut i: usize = 0;
    assert(all.deep_view() =~= Seq::<DecisionView>::empty());
    while i < names.len()
        invariant
            i <= names.len(),
            forall|name: &String| call_requires(decisions_in, (name,)),
            answers.len() == i,
            forall|j: int|
                0 <= j < i ==> may_be_in(decisions_in, names@[j], #[trigger] answers[j]),
            all.deep_view() == all_within(answers, w),
        decreases names.len() - i,
    {
        let found = decisions_in(&names[i]);
        proof {
            let before = answers;
            answers = answers.push(found.deep_view());
            assert(answers.drop_last() =~= before);
            assert(may_be_in(decisions_in, names@[i as int], found.deep_view()));
        }
        keep_in_window(found, w, &mut all);
        i += 1;
    }
    assert(files_answered(decisions_in, names@, answers));
    all
}

/// The hexadecimal digits of the BLAKE3 hash of bytes.
pub uninterp spec fn blake3_digits(bytes: Seq<u8>) -> Seq<char>;

/// `blake3::hash` gives 32 bytes, which `Hash::to_hex` writes as 64 hexadecimal
/// digits. They depend on the bytes alone.
#[verifier::external_body]
fn blake3_hex(bytes: &[u8]) -> (r: String)
    ensures
        r@ == blake3_digits(bytes@),
        r@.len() == 64,
        all_hex(r@),
{
    blake3::hash(bytes).to_hex().to_string()
}

/// The name under which the reading of a log file is kept: the first sixteen
/// digits of the hash of its path.
pub fn cache_key(path: &str) -> (r: String)
    ensures
        r@ == blake3_digits(vstd::utf8::encode_utf8(path@)).take(16) + ".json"@,
{
    let digits = chars_of(blake3_hex(path.as_bytes()).as_str());
    let mut s = string_of(slice_subrange(digits.as_slice(), 0, 16));
    assert(s@ =~= blake3_digits(vstd::utf8::encode_utf8(path@)).take(16));
    s.append(".json");
    s
}

/// The directory of kept readings below a cache directory.
pub fn log_decisions_cache_dir(base: Option<&str>) -> (r: Result<String, String>)
    ensures
        match base {
            Some(b) => r matches Ok(d) && d@ == below(b@, "ai-audit/opencode/log-decisions"@),
            None => r matches Err(e) && e@ == "Could not determine user cache directory"@,
        },
{
    match base {
        Some(b) => Ok(join_path(b, "ai-audit/opencode/log-decisions")),
        None => Err("Could not determine user cache directory".to_string()),
    }
}

/// A decision of the log is made of what its line holds: behind the time stand what was
/// asked for, the pattern and what was decided, in this order.
pub proof fn decisions_are_what_their_lines_hold(
    groups: Seq<Option<Seq<char>>>,
    at: Option<Timestamp>,
)
    ensures
        decision_in(groups, at) matches Some(d) ==> {
            &&& at == Some(d.timestamp)
            &&& groups.len() >= 5
            &&& groups[1] is Some
            &&& groups[2] == Some(d.permission)
            &&& groups[3] == Some(d.pattern)
            &&& groups[4] == Some(d.action)
        },
        at is Some && groups.len() >= 5 && groups[1] is Some && groups[2] is Some && groups[3]
            is Some && groups[4] is Some ==> decision_in(groups, at) is Some,
{
}

/// A line tells a decision only where it is of the permission service, and the time is read
/// as that of the zero meridian.
pub proof fn only_marked_lines_tell_decisions(line: Seq<char>)
    ensures
        line_decision(line) matches Some(d) ==> {
            &&& contains_text(line, "service=permission"@)
            &&& captured(DECISION_PATTERN@, line) matches Some(groups) && groups[1] is Some
                && instant_in(groups[1]->0 + "+00:00"@, "%Y-%m-%dT%H:%M:%S%:z"@) == Some(
                d.timestamp,
            )
        },
        !contains_text(line, "service=permission"@) ==> line_decision(line) is None,
{
}

/// Lines are read one after the other: one that tells a decision adds it.
pub proof fn lines_of_the_log_are_read_in_order(lines: Seq<Seq<char>>, line: Seq<char>)
    ensures
        line_decision(line) matches Some(d) ==> line_decisions(lines.push(line)) == line_decisions(
            lines,
        ).push(d),
        line_decision(line) is None ==> line_decisions(lines.push(line)) == line_decisions(lines),
        bytes_of(lines.push(line)) == bytes_of(lines) + byte_len(line) + 1,
{
    assert(lines.push(line).drop_last() =~= lines);
}

/// What was kept is gone on with only where it has the present form and the file has not
/// become shorter; otherwise reading begins anew.
pub proof fn kept_readings_are_gone_on_with(kept: Option<StateView>, file_len: u64)
    ensures
        kept matches Some(s) ==> (s.schema_version == 1 && s.last_offset <= file_len ==> resumed(
            kept,
            file_len,
        ) == (s.decisions, s.last_offset)),
        kept is None || kept->0.schema_version != 1 || kept->0.last_offset > file_len ==> resumed(
            kept,
            file_len,
        ) == (Seq::<DecisionView>::empty(), 0u64),
        reading_asked(resumed(kept, file_len), file_len) matches Some(start) ==> start < file_len
            && start == resumed(kept, file_len).1,
{
}

/// Reading stops behind the first marked line that reaches the end, and goes through all
/// lines where none does.
pub proof fn reading_stops_at_the_end(lines: Seq<Seq<char>>, at: int, end: int)
    ensures
        ({
            let n = lines_read(lines, at, end) as int;
            &&& n <= lines.len()
            &&& n < lines.len() ==> n > 0 && contains_text(lines[n - 1], "service=permission"@)
                && at + bytes_of(lines.take(n)) >= end
            &&& lines.len() > 0 ==> n > 0
        }),
    decreases lines.len(),
{
    if lines.len() > 0 {
        let behind = at + byte_len(lines[0]) + 1;
        let one = lines.take(1);
        assert(one.drop_last() =~= Seq::<Seq<char>>::empty());
        assert(bytes_of(one.drop_last()) == 0);
        assert(bytes_of(one) == byte_len(lines[0]) + 1);
        if !(is_marked(lines[0]) && behind >= end) {
            let rest = lines.skip(1);
            reading_stops_at_the_end(rest, behind, end);
            let m = lines_read(rest, behind, end) as int;
            if m < rest.len() {
                assert(rest[m - 1] == lines[m]);
                bytes_from_the_front(lines.take(m + 1));
                assert(lines.take(m + 1).skip(1) =~= rest.take(m));
            }
        }
    }
}

proof fn bytes_from_the_front(lines: Seq<Seq<char>>)
    requires
        lines.len() > 0,
    ensures
        bytes_of(lines) == byte_len(lines[0]) + 1 + bytes_of(lines.skip(1)),
    decreases lines.len(),
{
    if lines.len() == 1 {
        assert(lines.drop_last() =~= Seq::<Seq<char>>::empty());
        assert(lines.skip(1) =~= Seq::<Seq<char>>::empty());
        assert(bytes_of(lines.drop_last()) == 0);
        assert(bytes_of(lines.skip(1)) == 0);
    } else {
        bytes_from_the_front(lines.drop_last());
        assert(lines.drop_last().skip(1) =~= lines.skip(1).drop_last());
    }
}

/// A file of the log is asked for where it is one by its name, was not last written before
/// the span of time, and was not opened more than an hour behind it.
pub proof fn files_of_the_span_are_asked_for(
    name: Seq<char>,
    modified: Option<i64>,
    opened: Option<Timestamp>,
    w: Window,
)
    ensures
        is_relevant(name, modified, opened, w) ==> name_parts(name).1 == Some("log"@),
        name_parts(name).1 == Some("log"@) && modified is None && opened is None ==> is_relevant(
            name,
            modified,
            opened,
            w,
        ),
        (modified matches Some(secs) && (w.from matches Some(from) && secs < from.secs
            && -8_334_601_228_800_000 <= secs * 1000 <= 8_210_266_876_799_999)) ==> !is_relevant(
            name,
            modified,
            opened,
            w,
        ),
        (opened matches Some(o) && (w.to matches Some(to) && to.nanos < 1_000_000_000 && o.secs
            > to.secs + 3600 && -8_334_601_228_800_000 <= (to.secs + 3600) * 1000
            <= 8_210_266_876_799_999)) ==> !is_relevant(name, modified, opened, w),
        name_parts(name).1 == Some("log"@) && (modified matches Some(secs) ==> (
        w.from matches Some(from) ==> secs > from.secs)) && (opened matches Some(o) ==> (
        w.to matches Some(to) ==> to.nanos < 1_000_000_000 && o.secs < to.secs + 3600))
            ==> is_relevant(name, modified, opened, w),
{
}

/// The files that are asked for are those of the span, in the order of their names. Gives
/// which file one is.
pub proof fn asked_files_are_of_the_span(files: Seq<LogFile>, w: Window, k: int) -> (i: int)
    requires
        0 <= k < relevant_names(files, w).len(),
    ensures
        0 <= i < files.len(),
        relevant_names(files, w)[k] == files[i].name,
        is_relevant(files[i].name@, files[i].modified, opened_at(files[i].name@), w),
    decreases files.len(),
{
    let rest = files.drop_last();
    if k < relevant_names(rest, w).len() {
        asked_files_are_of_the_span(rest, w, k)
    } else {
        files.len() - 1
    }
}

/// No file of the span is left out. Gives where it stands.
pub proof fn files_of_the_span_are_not_left_out(files: Seq<LogFile>, w: Window, i: int) -> (k: int)
    requires
        0 <= i < files.len(),
        is_relevant(files[i].name@, files[i].modified, opened_at(files[i].name@), w),
    ensures
        0 <= k < relevant_names(files, w).len(),
        relevant_names(files, w)[k] == files[i].name,
    decreases files.len(),
{
    let rest = files.drop_last();
    if i < rest.len() {
        files_of_the_span_are_not_left_out(rest, w, i)
    } else {
        relevant_names(rest, w).len() as int
    }
}

/// Decisions are kept exactly where they were made in the span of time.
pub proof fn decisions_of_the_span_are_kept(
    decisions: Seq<DecisionView>,
    d: DecisionView,
    w: Window,
)
    ensures
        in_window(d.timestamp, w) ==> within(decisions.push(d), w) == within(decisions, w).push(d),
        !in_window(d.timestamp, w) ==> within(decisions.push(d), w) == within(decisions, w),
        in_window(d.timestamp, w) <==> (w.from is Some ==> w.from->0.spec_le(d.timestamp)) && (w.to
            is Some ==> d.timestamp.spec_le(w.to->0)),
{
    reveal(Seq::filter);
    assert(decisions.push(d).drop_last() =~= decisions);
}

/// What the files of a log say is kept file by file, as far as it lies in the span of time.
pub proof fn files_are_gone_through_in_order(
    answers: Seq<Seq<DecisionView>>,
    answer: Seq<DecisionView>,
    w: Window,
)
    ensures
        all_within(Seq::empty(), w).len() == 0,
        all_within(answers.push(answer), w) == all_within(answers, w) + within(answer, w),
{
    assert(answers.push(answer).drop_last() =~= answers);
}

/// What was known of a log is kept, and what is read comes behind it; where nothing is left to
/// read nothing is done.
pub proof fn readings_come_behind_what_is_known<
    W,
    F: Fn(W, u64) -> (W, Result<String, String>),
    K: Fn(W, &CachedLogState) -> W,
>(
    known: Known,
    file_len: u64,
    doors: (F, K),
    before: W,
    tail: Result<Known, Seq<char>>,
    between: W,
    after: W,
    r: Result<Seq<DecisionView>, Seq<char>>,
)
    requires
        reading_follows(known, file_len, doors, before, tail, between, after, r),
    ensures
        known.1 >= file_len ==> after == before && r == Ok::<Seq<DecisionView>, Seq<char>>(known.0),
        r matches Ok(all) ==> all.len() >= known.0.len() && all.take(known.0.len() as int)
            == known.0,
        known.1 < file_len ==> (r is Ok <==> tail is Ok),
        known.1 < file_len ==> (tail matches Ok((more, parsed_to)) ==> r->Ok_0 == known.0 + more
            && reading_was_kept(
            doors.1,
            between,
            (StateView { schema_version: 1, decisions: known.0 + more, last_offset: parsed_to }),
            after,
        )),
{
    match r {
        Ok(all) => {
            assert(all.take(known.0.len() as int) =~= known.0);
        },
        Err(_) => {},
    }
}

} // verus!
