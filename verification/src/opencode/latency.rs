//! How long the parts of a message took.

use crate::json::{Json, JsonView};
use crate::opencode::parts::is_kind;
use crate::text::str_eq;
use crate::time::{
    Timestamp, instant_of_millis, millis_in_calendar, millis_round_trip, timestamp_millis_opt,
};
use vstd::prelude::*;

verus! {

/// The milliseconds from the start to the end of a part, where both are recorded.
pub open spec fn duration(part: JsonView) -> Option<int> {
    match part.get("time"@) {
        Some(time) => match (time.get_i64("start"@), time.get_i64("end"@)) {
            (Some(start), Some(end)) => Some(end - start),
            _ => None,
        },
        None => None,
    }
}

/// The milliseconds from the start to the end of a part, where both are recorded.
pub fn part_duration_ms(part: &Json) -> (r: Option<i128>)
    ensures
        match r {
            Some(d) => duration(part@) == Some(d as int) && -0x1_0000_0000_0000_0000 < d
                < 0x1_0000_0000_0000_0000,
            None => duration(part@) is None,
        },
{
    match part.get("time") {
        Some(time) => match (time.get_i64("start"), time.get_i64("end")) {
            (Some(start), Some(end)) => Some(end as i128 - start as i128),
            _ => None,
        },
        None => None,
    }
}

/// Whether a part is one in which the model wrote.
pub open spec fn is_generation(part: JsonView) -> bool {
    part.get_str("type"@) == Some("text"@) || part.get_str("type"@) == Some("reasoning"@)
}

/// Whether a part is one in which a tool ran.
pub open spec fn is_tool(part: JsonView) -> bool {
    part.get_str("type"@) == Some("tool"@)
}

/// Whether a part counts: it did not end before it began.
pub open spec fn counts(part: JsonView) -> bool {
    duration(part) matches Some(d) && d >= 0
}

/// The milliseconds of the parts that count and are of a kind: nothing where
/// there is no such part.
pub open spec fn total_of(parts: Seq<JsonView>, kind: spec_fn(JsonView) -> bool) -> Option<nat>
    decreases parts.len(),
{
    if parts.len() == 0 {
        None
    } else {
        let before = total_of(parts.drop_last(), kind);
        if counts(parts.last()) && kind(parts.last()) {
            let d = duration(parts.last())->0 as nat;
            Some(
                match before {
                    Some(t) => t + d,
                    None => d,
                },
            )
        } else {
            before
        }
    }
}

/// The milliseconds that the model wrote, and that tools ran, in one message.
#[derive(Clone, Copy, PartialEq, Eq, Structural, Debug)]
pub struct MessageLatency {
    pub generation_ms: Option<u128>,
    pub tool_ms: Option<u128>,
}

/// A number of milliseconds.
pub open spec fn as_total(t: Option<u128>) -> Option<nat> {
    match t {
        Some(ms) => Some(ms as nat),
        None => None,
    }
}

fn added(t: Option<u128>, d: u128) -> (r: Option<u128>)
    requires
        t matches Some(ms) ==> ms + d <= u128::MAX,
    ensures
        r == (match t {
            Some(ms) => Some((ms + d) as u128),
            None => Some(d),
        }),
{
    match t {
        Some(ms) => Some(ms + d),
        None => Some(d),
    }
}

/// The milliseconds that the model wrote, and that tools ran, in the parts of one
/// message. A part without both times, or that ended before it began, does not count.
pub fn sum_part_latencies(parts: &Vec<Json>) -> (r: MessageLatency)
    ensures
        as_total(r.generation_ms) == total_of(parts.deep_view(), |p: JsonView| is_generation(p)),
        as_total(r.tool_ms) == total_of(parts.deep_view(), |p: JsonView| is_tool(p)),
{
    let ghost all = parts.deep_view();
    let ghost generation = |p: JsonView| is_generation(p);
    let ghost tool = |p: JsonView| is_tool(p);
    let mut generation_ms: Option<u128> = None;
    let mut tool_ms: Option<u128> = None;
    let mut i: usize = 0;
    assert(all.take(0) =~= Seq::<JsonView>::empty());
    proof {
        reveal_strlit("text");
        reveal_strlit("reasoning");
        reveal_strlit("tool");
        assert("text"@[1] == 'e' && "tool"@[1] == 'o' && "reasoning"@.len() == 9);
    }
    while i < parts.len()
        invariant
            i <= parts.len(),
            all == parts.deep_view(),
            generation == (|p: JsonView| is_generation(p)),
            tool == (|p: JsonView| is_tool(p)),
            as_total(generation_ms) == total_of(all.take(i as int), generation),
            as_total(tool_ms) == total_of(all.take(i as int), tool),
            generation_ms matches Some(t) ==> t <= i * 0xffff_ffff_ffff_ffff,
            tool_ms matches Some(t) ==> t <= i * 0xffff_ffff_ffff_ffff,
            "text"@ != "tool"@,
            "reasoning"@ != "tool"@,
        decreases parts.len() - i,
    {
        proof {
            assert(all.take(i + 1).drop_last() =~= all.take(i as int));
            assert(all.take(i + 1).last() == parts@[i as int]@);
            assert((i + 1) * 0xffff_ffff_ffff_ffff == i * 0xffff_ffff_ffff_ffff
                + 0xffff_ffff_ffff_ffff);
            assert((i + 1) * 0xffff_ffff_ffff_ffff <= u128::MAX) by (nonlinear_arith)
                requires
                    i < usize::MAX,
            ;
        }
        match part_duration_ms(&parts[i]) {
            Some(d) => {
                if d >= 0 {
                    let d: u128 = d as u128;
                    if is_kind(&parts[i], "text") || is_kind(&parts[i], "reasoning") {
                        generation_ms = added(generation_ms, d);
                    } else if is_kind(&parts[i], "tool") {
                        tool_ms = added(tool_ms, d);
                    }
                }
            },
            None => {},
        }
        i += 1;
    }
    assert(all.take(i as int) =~= all);
    MessageLatency { generation_ms, tool_ms }
}

/// When a message was created, where it says so and the calendar has it.
pub open spec fn created_at(message: JsonView) -> Option<Timestamp> {
    match message.get("time"@) {
        Some(time) => match time.get_i64("created"@) {
            Some(ms) => if millis_in_calendar(ms as int) {
                Some(instant_of_millis(ms as int))
            } else {
                None
            },
            None => None,
        },
        None => None,
    }
}

/// When a message was created.
pub fn message_timestamp(message: &Json) -> (r: Option<Timestamp>)
    ensures
        r == created_at(message@),
{
    match message.get("time") {
        Some(time) => match time.get_i64("created") {
            Some(ms) => timestamp_millis_opt(ms),
            None => None,
        },
        None => None,
    }
}

/// The times of an answer, where it has any: when it was created, and how long
/// the model and the tools took.
pub open spec fn latency_entry(
    message: JsonView,
    generation: Option<nat>,
    tool: Option<nat>,
) -> Option<(Timestamp, Option<nat>, Option<nat>)> {
    match created_at(message) {
        Some(at) => if message.get_str("role"@) == Some("assistant"@) && (generation is Some
            || tool is Some) {
            Some((at, generation, tool))
        } else {
            None
        },
        None => None,
    }
}

/// The times of all answers that have any, by when they were created. Of answers
/// that were created at the same time, the last counts.
pub open spec fn latencies(messages: Seq<JsonView>, parts: Seq<Seq<JsonView>>) -> Map<
    Timestamp,
    (Option<nat>, Option<nat>),
>
    decreases messages.len(),
{
    if messages.len() == 0 || messages.len() != parts.len() {
        Map::empty()
    } else {
        let before = latencies(messages.drop_last(), parts.drop_last());
        match latency_entry(
            messages.last(),
            total_of(parts.last(), |p: JsonView| is_generation(p)),
            total_of(parts.last(), |p: JsonView| is_tool(p)),
        ) {
            Some((at, generation, tool)) => before.insert(at, (generation, tool)),
            None => before,
        }
    }
}

/// Whether a list has an entry of a time.
pub open spec fn has_time(list: Seq<(Timestamp, MessageLatency)>, t: Timestamp) -> bool {
    exists|i: int| 0 <= i < list.len() && (#[trigger] list[i]).0 == t
}

/// Whether a list has one entry for each time of a table, and no others.
pub open spec fn lists(
    list: Seq<(Timestamp, MessageLatency)>,
    table: Map<Timestamp, (Option<nat>, Option<nat>)>,
) -> bool {
    &&& forall|i: int, j: int|
        0 <= i < j < list.len() ==> (#[trigger] list[i]).0 != (#[trigger] list[j]).0
    &&& forall|t: Timestamp| #[trigger] table.dom().contains(t) <==> has_time(list, t)
    &&& forall|i: int|
        0 <= i < list.len() ==> table[(#[trigger] list[i]).0] == (
            as_total(list[i].1.generation_ms),
            as_total(list[i].1.tool_ms),
        )
}

/// Puts an entry into a list, in place of one of the same time.
fn put_entry(list: &mut Vec<(Timestamp, MessageLatency)>, at: Timestamp, latency: MessageLatency)
    ensures
        forall|table: Map<Timestamp, (Option<nat>, Option<nat>)>| #[trigger]
            lists(old(list)@, table) ==> lists(
                final(list)@,
                table.insert(at, (as_total(latency.generation_ms), as_total(latency.tool_ms))),
            ),
{
    let ghost before = list@;
    let mut i: usize = 0;
    while i < list.len()
        invariant
            i <= list.len(),
            list@ == before,
            before == old(list)@,
            forall|j: int| 0 <= j < i ==> (#[trigger] before[j]).0 != at,
        decreases list.len() - i,
    {
        if list[i].0 == at {
            list.set(i, (at, latency));
            assert forall|table: Map<Timestamp, (Option<nat>, Option<nat>)>| #[trigger]
                lists(before, table) implies lists(
                list@,
                table.insert(at, (as_total(latency.generation_ms), as_total(latency.tool_ms))),
            ) by {
                entry_is_put(before, list@, i as int, at, latency, table);
            }
            return;
        }
        i += 1;
    }
    list.push((at, latency));
    assert forall|table: Map<Timestamp, (Option<nat>, Option<nat>)>| #[trigger]
        lists(before, table) implies lists(
        list@,
        table.insert(at, (as_total(latency.generation_ms), as_total(latency.tool_ms))),
    ) by {
        entry_is_put(before, list@, before.len() as int, at, latency, table);
    }
}

proof fn entry_is_put(
    before: Seq<(Timestamp, MessageLatency)>,
    after: Seq<(Timestamp, MessageLatency)>,
    k: int,
    at: Timestamp,
    latency: MessageLatency,
    table: Map<Timestamp, (Option<nat>, Option<nat>)>,
)
    requires
        lists(before, table),
        0 <= k <= before.len(),
        k < before.len() ==> before[k].0 == at && after == before.update(k, (at, latency)),
        k == before.len() ==> !has_time(before, at) && after == before.push((at, latency)),
    ensures
        lists(
            after,
            table.insert(at, (as_total(latency.generation_ms), as_total(latency.tool_ms))),
        ),
{
    let entry = (as_total(latency.generation_ms), as_total(latency.tool_ms));
    let more = table.insert(at, entry);
    assert(after[k] == (at, latency));
    assert forall|t: Timestamp| #[trigger] more.dom().contains(t) <==> has_time(after, t) by {
        if has_time(before, t) {
            let i = choose|i: int| 0 <= i < before.len() && (#[trigger] before[i]).0 == t;
            assert(after[i].0 == t);
        }
        if has_time(after, t) {
            let i = choose|i: int| 0 <= i < after.len() && (#[trigger] after[i]).0 == t;
            if i != k {
                assert(before[i].0 == t);
            }
        }
    }
    assert forall|i: int, j: int| 0 <= i < j < after.len() implies (#[trigger] after[i]).0 != (
    #[trigger] after[j]).0 by {
        if j == before.len() {
            assert(before[i].0 != at);
        } else {
            assert(before[i].0 != before[j].0);
        }
    }
    assert forall|i: int| 0 <= i < after.len() implies more[(#[trigger] after[i]).0] == (
        as_total(after[i].1.generation_ms),
        as_total(after[i].1.tool_ms),
    ) by {
        if i != k {
            assert(after[i] == before[i]);
            assert(before[i].0 != at);
            assert(has_time(before, before[i].0));
        }
    }
}

/// The times of all answers of a session that have any, given its messages and
/// the parts of each. A message that is no answer, or whose time is not known, or
/// without a part that counts, has no entry.
pub fn message_part_latencies(messages: &Vec<Json>, parts: &Vec<Vec<Json>>) -> (r: Vec<
    (Timestamp, MessageLatency),
>)
    requires
        messages.len() == parts.len(),
    ensures
        lists(r@, latencies(messages.deep_view(), parts.deep_view())),
{
    let ghost ms = messages.deep_view();
    let ghost ps = parts.deep_view();
    let mut out: Vec<(Timestamp, MessageLatency)> = Vec::new();
    let mut i: usize = 0;
    assert(ms.take(0) =~= Seq::<JsonView>::empty());
    assert(lists(out@, latencies(ms.take(0), ps.take(0))));
    while i < messages.len()
        invariant
            i <= messages.len(),
            messages.len() == parts.len(),
            ms == messages.deep_view(),
            ps == parts.deep_view(),
            lists(out@, latencies(ms.take(i as int), ps.take(i as int))),
        decreases messages.len() - i,
    {
        proof {
            assert(ms.take(i + 1).drop_last() =~= ms.take(i as int));
            assert(ps.take(i + 1).drop_last() =~= ps.take(i as int));
            assert(ms.take(i + 1).last() == messages@[i as int]@);
            assert(ps.take(i + 1).last() == parts@[i as int].deep_view());
        }
        let is_answer = match messages[i].get_str("role") {
            Some(role) => str_eq(role, "assistant"),
            None => false,
        };
        if is_answer {
            match message_timestamp(&messages[i]) {
                Some(at) => {
                    let latency = sum_part_latencies(&parts[i]);
                    if latency.generation_ms.is_some() || latency.tool_ms.is_some() {
                        put_entry(&mut out, at, latency);
                    }
                },
                None => {},
            }
        }
        i += 1;
    }
    assert(ms.take(i as int) =~= ms);
    assert(ps.take(i as int) =~= ps);
    out
}

/// A part takes from its start to its end.
pub proof fn durations_run_from_start_to_end(part: JsonView)
    ensures
        duration(part) is Some <==> (part.get("time"@) matches Some(time) && time.get_i64("start"@)
            is Some && time.get_i64("end"@) is Some),
        duration(part) matches Some(d) ==> part.get("time"@)->0.get_i64("start"@)->0 + d
            == part.get("time"@)->0.get_i64("end"@)->0,
{
}

/// What is said and thought is generated, what a tool does is not.
pub proof fn kinds_of_work_differ(part: JsonView)
    ensures
        is_generation(part) <==> part.get_str("type"@) == Some("text"@) || part.get_str("type"@)
            == Some("reasoning"@),
        is_tool(part) <==> part.get_str("type"@) == Some("tool"@),
        !(is_generation(part) && is_tool(part)),
{
    reveal_strlit("text");
    reveal_strlit("tool");
    reveal_strlit("reasoning");
    assert("text"@[1] == 'e');
    assert("tool"@[1] == 'o');
    assert("reasoning"@.len() == 9);
    assert("tool"@.len() == 4);
}

/// Times add up part by part: one of the kind that did not end before it began adds what it
/// took, any other adds nothing, and without any there is no total.
pub proof fn times_add_up(
    parts: Seq<JsonView>,
    part: JsonView,
    kind: spec_fn(JsonView) -> bool,
)
    ensures
        total_of(Seq::empty(), kind) is None,
        kind(part) && (duration(part) matches Some(d) && d >= 0) ==> total_of(
            parts.push(part),
            kind,
        ) == Some(
            (duration(part)->0 + (match total_of(parts, kind) {
                Some(t) => t as int,
                None => 0int,
            })) as nat,
        ),
        !kind(part) || duration(part) is None || duration(part)->0 < 0 ==> total_of(
            parts.push(part),
            kind,
        ) == total_of(parts, kind),
{
    assert(parts.push(part).drop_last() =~= parts);
}

/// Times are kept of answers only, under when they were made, and only where there are any.
pub proof fn times_are_of_answers(
    message: JsonView,
    generation: Option<nat>,
    tool: Option<nat>,
)
    ensures
        latency_entry(message, generation, tool) is Some <==> message.get_str("role"@) == Some(
            "assistant"@,
        ) && (generation is Some || tool is Some) && created_at(message) is Some,
        latency_entry(message, generation, tool) matches Some((at, g, t)) ==> {
            &&& created_at(message) == Some(at)
            &&& g == generation
            &&& t == tool
        },
        created_at(message) matches Some(at) ==> (message.get("time"@) matches Some(time)
            && time.get_i64("created"@) is Some && at.spec_millis() == time.get_i64(
            "created"@,
        )->0),
{
    match message.get("time"@) {
        Some(time) => match time.get_i64("created"@) {
            Some(ms) => {
                if millis_in_calendar(ms as int) {
                    millis_round_trip(ms as int);
                }
            },
            None => {},
        },
        None => {},
    }
}

/// What is kept under a time is what the last answer of that time took. Gives which.
pub proof fn times_stem_from_messages(
    messages: Seq<JsonView>,
    parts: Seq<Seq<JsonView>>,
    at: Timestamp,
) -> (i: int)
    requires
        messages.len() == parts.len(),
    ensures
        latencies(messages, parts).dom().contains(at) ==> {
            &&& 0 <= i < messages.len()
            &&& messages[i].get_str("role"@) == Some("assistant"@)
            &&& created_at(messages[i]) == Some(at)
            &&& latencies(messages, parts)[at] == (
                total_of(parts[i], |p: JsonView| is_generation(p)),
                total_of(parts[i], |p: JsonView| is_tool(p)),
            )
        },
    decreases messages.len(),
{
    if messages.len() == 0 {
        0
    } else {
        let m = messages.last();
        let g = total_of(parts.last(), |p: JsonView| is_generation(p));
        let t = total_of(parts.last(), |p: JsonView| is_tool(p));
        if created_at(m) == Some(at) && latency_entry(m, g, t) is Some {
            messages.len() - 1
        } else {
            times_stem_from_messages(messages.drop_last(), parts.drop_last(), at)
        }
    }
}

} // verus!
