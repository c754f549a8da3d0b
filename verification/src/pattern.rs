//! Regular expressions, and texts cut where they match.

use crate::text::{between_bytes, boundary_in_range, byte_len, byte_slice, len_bytes, on_boundary};
use vstd::prelude::*;

verus! {

/// Terminal escape sequences: control sequences, and operating system commands
/// that a bell or a string terminator ends.
pub const ANSI_PATTERN: &'static str =
    "\\x1b\\[[0-9;]*[a-zA-Z]|\\x1b\\][^\\x07\\x1b]*(?:\\x1b\\\\|\\x07)";

/// Control sequences, with their parameters as the first group.
pub const CONTROL_PATTERN: &'static str = "\\x1b\\[([0-9;]*)[a-zA-Z]";

/// A permission decision in a log line: its time, permission, pattern and action.
pub const DECISION_PATTERN: &'static str =
    "^INFO\\s+(\\d{4}-\\d{2}-\\d{2}T\\d{2}:\\d{2}:\\d{2}).*service=permission permission=(\\w+) pattern=(.+?) action=\\{[^}]*\"action\":\"(\\w+)\"[^}]*\\} evaluated";

/// The regular expressions in use; each of them is well formed.
pub open spec fn known_pattern(p: Seq<char>) -> bool {
    p == ANSI_PATTERN@ || p == CONTROL_PATTERN@ || p == DECISION_PATTERN@
}

/// Whether spans of byte positions lie in a text one after the other, each
/// between characters of the text.
pub open spec fn spans_in(spans: Seq<(usize, usize)>, text: Seq<char>) -> bool {
    &&& forall|i: int|
        0 <= i < spans.len() ==> (#[trigger] spans[i]).0 <= spans[i].1 && on_boundary(
            text,
            spans[i].0 as int,
        ) && on_boundary(text, spans[i].1 as int)
    &&& forall|i: int, j: int|
        0 <= i < j < spans.len() ==> (#[trigger] spans[i]).1 <= (#[trigger] spans[j]).0
}

/// The spans of a text that `Regex::find_iter` gives for a pattern.
pub uninterp spec fn match_spans(pattern: Seq<char>, text: Seq<char>) -> Seq<(usize, usize)>;

/// `Regex::find_iter` gives the successive matches, none overlapping another, as
/// byte positions at character boundaries. Which spans these are depends on the
/// pattern and the text alone.
#[verifier::external_body]
pub(crate) fn find_matches(pattern: &str, text: &str) -> (r: Vec<(usize, usize)>)
    requires
        known_pattern(pattern@),
    ensures
        r@ == match_spans(pattern@, text@),
        spans_in(r@, text@),
{
    let re = regex::Regex::new(pattern).unwrap();
    re.find_iter(text).map(|m| (m.start(), m.end())).collect()
}

/// The groups that `Regex::captures` gives for a pattern: the whole match first.
pub uninterp spec fn captured(pattern: Seq<char>, text: Seq<char>) -> Option<
    Seq<Option<Seq<char>>>,
>;

/// `Regex::captures` gives the groups of the leftmost match. What they hold
/// depends on the pattern and the text alone.
#[verifier::external_body]
pub(crate) fn captures(pattern: &str, text: &str) -> (r: Option<Vec<Option<String>>>)
    requires
        known_pattern(pattern@),
    ensures
        r.deep_view() == captured(pattern@, text@),
{
    let re = regex::Regex::new(pattern).unwrap();
    re.captures(text).map(|c| c.iter().map(|g| g.map(|m| m.as_str().to_string())).collect())
}

/// What stands in a text outside the spans from the `i`-th on, taken from the
/// byte position `pos`: one piece before each span, and one behind the last.
pub open spec fn gaps_from(
    text: Seq<char>,
    spans: Seq<(usize, usize)>,
    i: int,
    pos: int,
) -> Seq<Seq<char>>
    decreases spans.len() - i,
{
    if i < 0 || i >= spans.len() {
        seq![between_bytes(text, pos, byte_len(text) as int)]
    } else {
        seq![between_bytes(text, pos, spans[i].0 as int)] + gaps_from(
            text,
            spans,
            i + 1,
            spans[i].1 as int,
        )
    }
}

/// What stands in a text outside the spans.
pub open spec fn gaps(text: Seq<char>, spans: Seq<(usize, usize)>) -> Seq<Seq<char>> {
    gaps_from(text, spans, 0, 0)
}

/// What stands in a text outside the spans, piece by piece.
pub fn split_at_spans(text: &str, spans: &Vec<(usize, usize)>) -> (r: Vec<String>)
    requires
        spans_in(spans@, text@),
    ensures
        r.deep_view() == gaps(text@, spans@),
        r.len() == spans.len() + 1,
{
    let mut out: Vec<String> = Vec::new();
    let mut pos: usize = 0;
    let mut i: usize = 0;
    proof {
        boundary_in_range(text@, 0);
    }
    while i < spans.len()
        invariant
            i <= spans.len(),
            out.len() == i,
            spans_in(spans@, text@),
            on_boundary(text@, pos as int),
            i < spans.len() ==> pos <= spans@[i as int].0,
            out.deep_view() + gaps_from(text@, spans@, i as int, pos as int) == gaps(
                text@,
                spans@,
            ),
        decreases spans.len() - i,
    {
        let ghost before = out.deep_view();
        let piece = byte_slice(text, pos, spans[i].0);
        out.push(piece.to_owned());
        assert(out.deep_view() == before.push(piece@));
        pos = spans[i].1;
        i += 1;
        assert(out.deep_view() + gaps_from(text@, spans@, i as int, pos as int) == before + (
        seq![piece@] + gaps_from(text@, spans@, i as int, pos as int)));
    }
    proof {
        boundary_in_range(text@, pos as int);
    }
    let ghost before = out.deep_view();
    let piece = byte_slice(text, pos, len_bytes(text));
    out.push(piece.to_owned());
    assert(out.deep_view() == before.push(piece@));
    assert(before.push(piece@) == before + seq![piece@]);
    out
}

} // verus!
