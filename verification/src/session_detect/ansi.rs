//! Terminal escape sequences: texts without them, the segments between them, and colours.

use crate::pattern::{
    ANSI_PATTERN, CONTROL_PATTERN, captured, captures, find_matches, gaps, match_spans, spans_in,
    split_at_spans,
};
use crate::text::{
    between_bytes, boundary_in_range, byte_len, byte_slice, chars_of, has_prefix, is_white_space,
    join, joined, len_bytes, on_boundary, starts_with, str_eq, trim, trimmed, white_space,
};
use vstd::prelude::*;

verus! {

/// The text without its escape sequences.
pub open spec fn stripped(s: Seq<char>) -> Seq<char> {
    joined(gaps(s, match_spans(ANSI_PATTERN@, s)), Seq::empty())
}

/// Removes the escape sequences of a text.
pub fn strip_ansi(s: &str) -> (r: String)
    ensures
        r@ == stripped(s@),
{
    let spans = find_matches(ANSI_PATTERN, s);
    let parts = split_at_spans(s, &spans);
    let none = String::new();
    join(&parts, none.as_str())
}

/// The parts that are not empty.
pub open spec fn nonempty(parts: Seq<Seq<char>>) -> Seq<Seq<char>>
    decreases parts.len(),
{
    if parts.len() == 0 {
        parts
    } else if parts.last().len() > 0 {
        nonempty(parts.drop_last()).push(parts.last())
    } else {
        nonempty(parts.drop_last())
    }
}

/// The pieces of text between the escape sequences, without empty ones.
pub open spec fn segments(s: Seq<char>) -> Seq<Seq<char>> {
    nonempty(gaps(s, match_spans(ANSI_PATTERN@, s)))
}

/// The pieces of text between the escape sequences, without empty ones.
pub fn ansi_segments(s: &str) -> (r: Vec<String>)
    ensures
        r.deep_view() == segments(s@),
{
    let spans = find_matches(ANSI_PATTERN, s);
    let parts = split_at_spans(s, &spans);
    let mut out: Vec<String> = Vec::new();
    let mut i: usize = 0;
    while i < parts.len()
        invariant
            i <= parts.len(),
            out.deep_view() == nonempty(parts.deep_view().take(i as int)),
        decreases parts.len() - i,
    {
        let ghost done = parts.deep_view().take(i as int);
        let ghost next = parts.deep_view().take(i + 1);
        assert(next.drop_last() == done);
        assert(next.last() == parts@[i as int]@);
        let ghost before = out.deep_view();
        if !parts[i].as_str().is_empty() {
            out.push(parts[i].clone());
            assert(out.deep_view() == before.push(parts@[i as int]@));
        }
        i += 1;
    }
    assert(parts.deep_view().take(i as int) == parts.deep_view());
    out
}

proof fn joining_skips_empty_parts(parts: Seq<Seq<char>>)
    ensures
        joined(nonempty(parts), Seq::empty()) == joined(parts, Seq::empty()),
    decreases parts.len(),
{
    let none = Seq::<char>::empty();
    if parts.len() > 0 {
        let init = parts.drop_last();
        joining_skips_empty_parts(init);
        let r = nonempty(init);
        joined_push(init, parts.last());
        joined_push(r, parts.last());
        assert(parts == init.push(parts.last()));
        if parts.last().len() == 0 {
            assert(joined(init, none) + parts.last() == joined(init, none));
        }
    }
}

proof fn joined_push(parts: Seq<Seq<char>>, x: Seq<char>)
    ensures
        joined(parts.push(x), Seq::empty()) == joined(parts, Seq::empty()) + x,
{
    let none = Seq::<char>::empty();
    let all = parts.push(x);
    assert(all.drop_last() == parts);
    if parts.len() == 0 {
        assert(joined(parts, none) + x == x);
    } else {
        assert(joined(parts, none) + none + x == joined(parts, none) + x);
    }
}

/// The segments of a text, put together, are the text without its escape sequences.
pub proof fn segments_make_up_the_stripped_text(s: Seq<char>)
    ensures
        joined(segments(s), Seq::empty()) == stripped(s),
{
    joining_skips_empty_parts(gaps(s, match_spans(ANSI_PATTERN@, s)));
}

/// Whether any character of a text is visible.
pub open spec fn has_visible(s: Seq<char>) -> bool {
    exists|i: int| 0 <= i < s.len() && !white_space(#[trigger] s[i])
}

/// Whether any character of a text is visible.
pub fn any_visible(s: &str) -> (r: bool)
    ensures
        r == has_visible(s@),
{
    let v = chars_of(s);
    let mut i: usize = 0;
    while i < v.len()
        invariant
            i <= v.len(),
            v@ == s@,
            forall|j: int| 0 <= j < i ==> white_space(#[trigger] v@[j]),
        decreases v.len() - i,
    {
        if !is_white_space(v[i]) {
            return true;
        }
        i += 1;
    }
    false
}

/// The foreground colour that a control sequence sets: its parameters, where
/// they begin with `38;`.
pub open spec fn foreground_set(groups: Option<Seq<Option<Seq<char>>>>) -> Option<Seq<char>> {
    match groups {
        Some(g) => if g.len() > 1 {
            match g[1] {
                Some(params) => if has_prefix(params, "38;"@) {
                    Some(params)
                } else {
                    None
                },
                None => None,
            }
        } else {
            None
        },
        None => None,
    }
}

/// The foreground colour at the first visible character, reading the control
/// sequences from the `i`-th on with `last` as the colour so far. At the end of
/// the text it is the colour so far.
pub open spec fn foreground_from(
    s: Seq<char>,
    spans: Seq<(usize, usize)>,
    i: int,
    pos: int,
    last: Option<Seq<char>>,
) -> Option<Seq<char>>
    decreases spans.len() - i,
{
    if i < 0 || i >= spans.len() || has_visible(between_bytes(s, pos, spans[i].0 as int)) {
        last
    } else {
        let code = between_bytes(s, spans[i].0 as int, spans[i].1 as int);
        let set = foreground_set(captured(CONTROL_PATTERN@, code));
        foreground_from(
            s,
            spans,
            i + 1,
            spans[i].1 as int,
            if set is Some {
                set
            } else {
                last
            },
        )
    }
}

/// The foreground colour that is active at the first visible character.
pub open spec fn leading_fg(s: Seq<char>) -> Option<Seq<char>> {
    foreground_from(s, match_spans(CONTROL_PATTERN@, s), 0, 0, None)
}

/// The foreground colour that a control sequence sets.
pub fn foreground_of(groups: &Option<Vec<Option<String>>>) -> (r: Option<String>)
    ensures
        r.deep_view() == foreground_set(groups.deep_view()),
{
    match groups {
        Some(g) => {
            assert(groups.deep_view() == Some(g.deep_view()));
            if g.len() > 1 {
                assert(g.deep_view()[1] == g@[1].deep_view());
                match &g[1] {
                    Some(params) => {
                        if starts_with(params.as_str(), "38;") {
                            Some(params.clone())
                        } else {
                            None
                        }
                    },
                    None => None,
                }
            } else {
                None
            }
        },
        None => None,
    }
}

/// The foreground colour that is active at the first visible character.
pub fn leading_fg_color(raw_line: &str) -> (r: Option<String>)
    ensures
        r.deep_view() == leading_fg(raw_line@),
{
    let spans = find_matches(CONTROL_PATTERN, raw_line);
    let mut last: Option<String> = None;
    let mut pos: usize = 0;
    let mut i: usize = 0;
    proof {
        boundary_in_range(raw_line@, 0);
    }
    while i < spans.len()
        invariant
            i <= spans.len(),
            spans@ == match_spans(CONTROL_PATTERN@, raw_line@),
            spans_in(spans@, raw_line@),
            on_boundary(raw_line@, pos as int),
            i < spans.len() ==> pos <= spans@[i as int].0,
            foreground_from(raw_line@, spans@, i as int, pos as int, last.deep_view())
                == leading_fg(raw_line@),
        decreases spans.len() - i,
    {
        if any_visible(byte_slice(raw_line, pos, spans[i].0)) {
            return last;
        }
        let set = foreground_of(
            &captures(CONTROL_PATTERN, byte_slice(raw_line, spans[i].0, spans[i].1)),
        );
        if set.is_some() {
            last = set;
        }
        pos = spans[i].1;
        i += 1;
    }
    last
}

/// Whether the first visible character of a line has the given foreground colour.
pub fn line_starts_with_fg_color(raw_line: &str, fg_color: &str) -> (r: bool)
    ensures
        r == (leading_fg(raw_line@) == Some(fg_color@)),
{
    match leading_fg_color(raw_line) {
        Some(c) => str_eq(c.as_str(), fg_color),
        None => false,
    }
}

/// The longest of the parts in bytes; of several, the last.
pub open spec fn longest_of(parts: Seq<Seq<char>>) -> Option<Seq<char>>
    decreases parts.len(),
{
    if parts.len() == 0 {
        None
    } else {
        match longest_of(parts.drop_last()) {
            Some(best) => if byte_len(parts.last()) >= byte_len(best) {
                Some(parts.last())
            } else {
                Some(best)
            },
            None => Some(parts.last()),
        }
    }
}

/// No part is longer than the longest, and the longest is one of the parts.
pub proof fn longest_is_longest(parts: Seq<Seq<char>>)
    ensures
        longest_of(parts) is None <==> parts.len() == 0,
        longest_of(parts) matches Some(best) ==> parts.contains(best) && forall|i: int|
            0 <= i < parts.len() ==> byte_len(#[trigger] parts[i]) <= byte_len(best),
    decreases parts.len(),
{
    if parts.len() > 0 {
        longest_is_longest(parts.drop_last());
        assert(parts.contains(parts.last()));
        assert(forall|i: int| 0 <= i < parts.len() - 1 ==> parts.drop_last()[i] == parts[i]);
        if parts.len() > 1 {
            let best = longest_of(parts.drop_last())->0;
            let k = choose|k: int| 0 <= k < parts.len() - 1 && parts.drop_last()[k] == best;
            assert(parts[k] == best);
        }
    }
}

/// The parts, each trimmed.
pub open spec fn each_trimmed(parts: Seq<Seq<char>>) -> Seq<Seq<char>> {
    Seq::new(parts.len(), |i: int| trimmed(parts[i]))
}

/// The longest trimmed segment of a line that is not empty; of several, the last.
pub open spec fn longest_segment(s: Seq<char>) -> Option<Seq<char>> {
    longest_of(nonempty(each_trimmed(segments(s))))
}

/// The longest trimmed segment of a line that is not empty; of several, the last.
pub fn longest_ansi_segment(s: &str) -> (r: Option<String>)
    ensures
        r.deep_view() == longest_segment(s@),
{
    let parts = ansi_segments(s);
    let ghost all = each_trimmed(parts.deep_view());
    let mut best: Option<String> = None;
    let mut i: usize = 0;
    assert(all.take(0) == Seq::<Seq<char>>::empty());
    while i < parts.len()
        invariant
            i <= parts.len(),
            all == each_trimmed(parts.deep_view()),
            best.deep_view() == longest_of(nonempty(all.take(i as int))),
        decreases parts.len() - i,
    {
        let part = trim(parts[i].as_str());
        proof {
            let done = all.take(i as int);
            let next = all.take(i + 1);
            assert(next.drop_last() == done);
            assert(next.last() == part@);
            assert(nonempty(done).push(part@).drop_last() == nonempty(done));
        }
        if !part.as_str().is_empty() {
            let longer = match &best {
                Some(b) => len_bytes(part.as_str()) >= len_bytes(b.as_str()),
                None => true,
            };
            if longer {
                best = Some(part);
            }
        }
        i += 1;
    }
    assert(all.take(i as int) == all);
    best
}

/// What stands between control codes is kept in order; only empty pieces are dropped.
pub proof fn pieces_are_kept_in_order(parts: Seq<Seq<char>>, part: Seq<char>)
    ensures
        part.len() > 0 ==> nonempty(parts.push(part)) == nonempty(parts).push(part),
        part.len() == 0 ==> nonempty(parts.push(part)) == nonempty(parts),
{
    assert(parts.push(part).drop_last() =~= parts);
}

/// Of the longest pieces the last counts. Gives which.
pub proof fn the_last_of_the_longest_counts(parts: Seq<Seq<char>>) -> (i: int)
    ensures
        longest_of(parts) matches Some(best) ==> 0 <= i < parts.len() && parts[i] == best && (
        forall|j: int| 0 <= j < i ==> byte_len(#[trigger] parts[j]) <= byte_len(best)) && (forall|
            j: int,
        |
            i < j < parts.len() ==> byte_len(#[trigger] parts[j]) < byte_len(best)),
        parts.len() > 0 ==> longest_of(parts) is Some,
    decreases parts.len(),
{
    if parts.len() == 0 {
        0
    } else {
        let rest = parts.drop_last();
        let i = the_last_of_the_longest_counts(rest);
        assert(forall|j: int| 0 <= j < rest.len() ==> rest[j] == #[trigger] parts[j]);
        match longest_of(rest) {
            Some(best) => if byte_len(parts.last()) >= byte_len(best) {
                parts.len() - 1
            } else {
                i
            },
            None => parts.len() - 1,
        }
    }
}

/// A colour is set by a code whose parameters begin with the mark of a foreground.
pub proof fn foregrounds_have_their_mark(groups: Seq<Option<Seq<char>>>)
    ensures
        foreground_set(Some(groups)) matches Some(params) ==> groups.len() > 1 && groups[1] == Some(
            params,
        ) && has_prefix(params, "38;"@),
        groups.len() > 1 && (groups[1] matches Some(params) && has_prefix(params, "38;"@))
            ==> foreground_set(Some(groups)) == groups[1],
        foreground_set(None) is None,
{
}

/// The colour that a line begins with is the last that is set before anything can be seen on
/// it; nothing that is set behind that counts.
pub proof fn colours_count_until_something_is_seen(
    s: Seq<char>,
    spans: Seq<(usize, usize)>,
    i: int,
    pos: int,
    last: Option<Seq<char>>,
)
    requires
        0 <= i < spans.len(),
    ensures
        has_visible(between_bytes(s, pos, spans[i].0 as int)) ==> foreground_from(
            s,
            spans,
            i,
            pos,
            last,
        ) == last,
        !has_visible(between_bytes(s, pos, spans[i].0 as int)) ==> ({
            let code = between_bytes(s, spans[i].0 as int, spans[i].1 as int);
            let set = foreground_set(captured(CONTROL_PATTERN@, code));
            foreground_from(s, spans, i, pos, last) == foreground_from(
                s,
                spans,
                i + 1,
                spans[i].1 as int,
                if set is Some {
                    set
                } else {
                    last
                },
            )
        }),
        foreground_from(s, spans, spans.len() as int, pos, last) == last,
{
}

} // verus!
