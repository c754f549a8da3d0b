//! Whether the output of a model looks like what was asked for.
//!
//! The question is put before anything is done with the output, and catches
//! answers that were cut short. It is no parser.

use crate::opencode::transcript::text_or;
use crate::text::{
    byte_len, chars_of, contains_text, decimal, decimal_of, has_prefix, has_suffix, len_bytes,
    occurs_at, string_of,
};
use vstd::prelude::*;
use vstd::slice::slice_subrange;
use vstd::utf8::encode_utf8;

verus! {

/// What a complete answer looks like.
pub struct AiTaskSpec<'a, P: Fn(&str) -> Result<(), String>> {
    /// What a complete answer contains, in words.
    pub shape: &'a str,
    /// Tells whether an output looks complete, or why it does not.
    pub looks_complete: P,
}

/// Characters of an output that are kept from its beginning and from its end.
pub const HEAD_TAIL_LIMIT: usize = 200;

/// An output that does not look complete.
#[derive(Debug)]
pub struct LlmOutputCutShort {
    pub session_id: Option<String>,
    /// What a complete answer contains.
    pub shape: String,
    /// Why the output does not look complete.
    pub reason: String,
    /// The length of the output in bytes.
    pub output_len: usize,
    /// The beginning of the output.
    pub head: String,
    /// The end of the output.
    pub tail: String,
}

/// The first `n` characters of a text.
pub open spec fn first_chars(s: Seq<char>, n: nat) -> Seq<char> {
    if s.len() <= n {
        s
    } else {
        s.take(n as int)
    }
}

/// The last `n` characters of a text.
pub open spec fn last_chars(s: Seq<char>, n: nat) -> Seq<char> {
    if s.len() <= n {
        s
    } else {
        s.skip(s.len() - n)
    }
}

/// The first `n` characters of a text.
pub fn take_chars(s: &str, n: usize) -> (r: String)
    ensures
        r@ == first_chars(s@, n as nat),
{
    let chars = chars_of(s);
    if chars.len() <= n {
        return s.to_string();
    }
    let r = string_of(slice_subrange(chars.as_slice(), 0, n));
    assert(r@ =~= s@.take(n as int));
    r
}

/// The last `n` characters of a text.
pub fn take_chars_end(s: &str, n: usize) -> (r: String)
    ensures
        r@ == last_chars(s@, n as nat),
{
    let chars = chars_of(s);
    let total: usize = chars.len();
    if total <= n {
        return s.to_string();
    }
    let r = string_of(slice_subrange(chars.as_slice(), total - n, total));
    assert(r@ =~= s@.skip(total - n));
    r
}

/// What is kept of the beginning and the end of a text is part of it, and all of
/// it where it is short.
pub proof fn ends_are_parts(s: Seq<char>, n: nat)
    ensures
        has_prefix(s, first_chars(s, n)),
        has_suffix(s, last_chars(s, n)),
        first_chars(s, n).len() == last_chars(s, n).len(),
        first_chars(s, n).len() <= n,
        s.len() <= n ==> first_chars(s, n) == s && last_chars(s, n) == s,
        s.len() >= n ==> first_chars(s, n).len() == n,
{
    assert(s.skip(0) =~= s);
    assert(s.take(s.len() as int) =~= s);
}

/// What is said of an output that does not look complete.
pub open spec fn cut_short_text(
    session_id: Option<Seq<char>>,
    shape: Seq<char>,
    reason: Seq<char>,
    output_len: nat,
    head: Seq<char>,
    tail: Seq<char>,
) -> Seq<char> {
    "LLM output looks cut short (network drop / agent crash / preamble-only?). Expected: "@ + shape
        + ". Reason: "@ + reason + ". Pi session: "@ + text_or(session_id, "<unknown>"@) + " ("@
        + decimal(output_len) + " bytes). Rerun with --recompute once the upstream is healthy.\n--- head ---\n"@
        + head + "\n--- tail ---\n"@ + tail
}

impl LlmOutputCutShort {
    /// What is said of the output.
    pub fn message(&self) -> (r: String)
        ensures
            r@ == cut_short_text(
                self.session_id.deep_view(),
                self.shape@,
                self.reason@,
                self.output_len as nat,
                self.head@,
                self.tail@,
            ),
    {
        let mut s =
            "LLM output looks cut short (network drop / agent crash / preamble-only?). Expected: ".to_string();
        s.append(self.shape.as_str());
        s.append(". Reason: ");
        s.append(self.reason.as_str());
        s.append(". Pi session: ");
        match &self.session_id {
            Some(id) => s.append(id.as_str()),
            None => s.append("<unknown>"),
        }
        s.append(" (");
        s.append(decimal_of(self.output_len as u64).as_str());
        s.append(" bytes). Rerun with --recompute once the upstream is healthy.\n--- head ---\n");
        s.append(self.head.as_str());
        s.append("\n--- tail ---\n");
        s.append(self.tail.as_str());
        s
    }

    /// What is kept of an output that does not look complete.
    pub fn from_output(
        shape: &str,
        reason: String,
        session_id: Option<&str>,
        output: &str,
    ) -> (r: LlmOutputCutShort)
        ensures
            r.session_id.deep_view() == session_id.deep_view(),
            r.shape@ == shape@,
            r.reason@ == reason@,
            r.output_len == byte_len(output@),
            r.head@ == first_chars(output@, HEAD_TAIL_LIMIT as nat),
            r.tail@ == last_chars(output@, HEAD_TAIL_LIMIT as nat),
    {
        let session_id = match session_id {
            Some(s) => Some(s.to_string()),
            None => None,
        };
        LlmOutputCutShort {
            session_id,
            shape: shape.to_string(),
            reason,
            output_len: len_bytes(output),
            head: take_chars(output, HEAD_TAIL_LIMIT),
            tail: take_chars_end(output, HEAD_TAIL_LIMIT),
        }
    }
}

/// Whether an error tells of an output, and of the reason why it does not look
/// complete.
pub open spec fn tells_of(
    e: LlmOutputCutShort,
    shape: Seq<char>,
    reason: Seq<char>,
    session_id: Option<Seq<char>>,
    output: Seq<char>,
) -> bool {
    &&& e.session_id.deep_view() == session_id
    &&& e.shape@ == shape
    &&& e.reason@ == reason
    &&& e.output_len == byte_len(output)
    &&& e.head@ == first_chars(output, HEAD_TAIL_LIMIT as nat)
    &&& e.tail@ == last_chars(output, HEAD_TAIL_LIMIT as nat)
}

/// Whether an output looks complete.
pub fn check<P: Fn(&str) -> Result<(), String>>(
    spec_of_task: &AiTaskSpec<'_, P>,
    session_id: Option<&str>,
    output: &str,
) -> (r: Result<(), Box<LlmOutputCutShort>>)
    requires
        call_requires(spec_of_task.looks_complete, (output,)),
    ensures
        exists|verdict: Result<(), String>| #[trigger]
            call_ensures(spec_of_task.looks_complete, (output,), verdict) && match (verdict, r) {
                (Ok(_), Ok(_)) => true,
                (Err(reason), Err(e)) => tells_of(
                    *e,
                    spec_of_task.shape@,
                    reason@,
                    session_id.deep_view(),
                    output@,
                ),
                _ => false,
            },
{
    match (spec_of_task.looks_complete)(output) {
        Ok(()) => Ok(()),
        Err(reason) => Err(
            Box::new(
                LlmOutputCutShort::from_output(spec_of_task.shape, reason, session_id, output),
            ),
        ),
    }
}

/// What is told of an output that was cut short is of that output: its length, its first and
/// its last signs, up to two hundred of each.
pub proof fn short_outputs_are_told_of(
    e: LlmOutputCutShort,
    shape: Seq<char>,
    reason: Seq<char>,
    session_id: Option<Seq<char>>,
    output: Seq<char>,
)
    requires
        tells_of(e, shape, reason, session_id, output),
    ensures
        e.output_len == encode_utf8(output).len(),
        output.len() <= 200 ==> e.head@ == output && e.tail@ == output,
        output.len() > 200 ==> e.head@ == output.take(200) && e.tail@ == output.skip(
            output.len() - 200,
        ),
        e.reason@ == reason,
        e.shape@ == shape,
        e.session_id is Some <==> session_id is Some,
        e.session_id is Some ==> e.session_id->0@ == session_id->0,
{
}

/// The message about an output that was cut short holds what was expected and why the output
/// is not that, in this order, and ends with the end of the output.
pub proof fn messages_end_with_the_tail(
    session_id: Option<Seq<char>>,
    shape: Seq<char>,
    reason: Seq<char>,
    output_len: nat,
    head: Seq<char>,
    tail: Seq<char>,
)
    ensures
        has_suffix(cut_short_text(session_id, shape, reason, output_len, head, tail), tail),
        contains_text(cut_short_text(session_id, shape, reason, output_len, head, tail), head),
        has_prefix(
            cut_short_text(session_id, shape, reason, output_len, head, tail),
            "LLM output looks cut short (network drop / agent crash / preamble-only?). Expected: "@
                + shape + ". Reason: "@ + reason,
        ),
{
    let text = cut_short_text(session_id, shape, reason, output_len, head, tail);
    let front =
        "LLM output looks cut short (network drop / agent crash / preamble-only?). Expected: "@
        + shape + ". Reason: "@ + reason;
    assert(text.subrange(text.len() - tail.len(), text.len() as int) =~= tail);
    assert(text.subrange(0, front.len() as int) =~= front);
    let end = "\n--- tail ---\n"@ + tail;
    let at = text.len() - end.len() - head.len();
    assert(text.subrange(at, at + head.len()) =~= head);
    assert(occurs_at(text, head, at));
}

} // verus!
