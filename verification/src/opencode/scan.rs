//! What the printed configuration and the logs say of models and agents.

use crate::text::{
    chars_of, contains, contains_text, find_char, find_from, find_from_is_least, find_in,
    has_prefix, index_from, lines, lines_of, starts_with, str_eq, string_of, trim, trimmed,
};
use vstd::prelude::*;
use vstd::slice::slice_subrange;

verus! {

/// The text between the quotes behind the first `: "`, on a line that begins with
/// the key `model`.
pub open spec fn model_on(line: Seq<char>) -> Option<Seq<char>> {
    let t = trimmed(line);
    if has_prefix(t, "\"model\":"@) {
        match find_from(t, ": \""@, 0) {
            Some(at) => {
                let rest = t.skip(at + 3);
                match index_from(rest, '"', 0) {
                    Some(end) => Some(rest.take(end)),
                    None => None,
                }
            },
            None => None,
        }
    } else {
        None
    }
}

/// The first model that a line names.
pub open spec fn first_model(lines: Seq<Seq<char>>) -> Option<Seq<char>>
    decreases lines.len(),
{
    if lines.len() == 0 {
        None
    } else {
        match first_model(lines.drop_last()) {
            Some(m) => Some(m),
            None => model_on(lines.last()),
        }
    }
}

/// The characters of `v` from `from` up to `to`.
fn piece(v: &Vec<char>, from: usize, to: usize) -> (r: String)
    requires
        from <= to <= v.len(),
    ensures
        r@ == v@.subrange(from as int, to as int),
{
    string_of(slice_subrange(v.as_slice(), from, to))
}

fn read_model_line(line: &str) -> (r: Option<String>)
    ensures
        r.deep_view() == model_on(line@),
{
    let t = trim(line);
    if !starts_with(t.as_str(), "\"model\":") {
        return None;
    }
    let chars = chars_of(t.as_str());
    let mark = chars_of(": \"");
    proof {
        reveal_strlit(": \"");
        find_from_is_least(t@, mark@, 0);
    }
    match find_in(chars.as_slice(), mark.as_slice(), 0) {
        Some(at) => {
            let ghost rest = t@.skip(at + 3);
            assert(at + 3 <= chars.len());
            let from: usize = at + 3;
            proof {
                index_from_later(t@, '"', from as int, 0);
            }
            match find_char(chars.as_slice(), '"', from) {
                Some(end) => {
                    let r = piece(&chars, from, end);
                    assert(r@ =~= rest.take(end - from));
                    Some(r)
                },
                None => None,
            }
        },
        None => None,
    }
}

/// Looking for a character behind a position is looking for it in the rest.
pub proof fn index_from_later(s: Seq<char>, c: char, from: int, at: int)
    requires
        0 <= from,
        0 <= at,
        from + at <= s.len(),
    ensures
        index_from(s, c, from + at) == (match index_from(s.skip(from), c, at) {
            Some(i) => Some(from + i),
            None => None,
        }),
        index_from(s.skip(from), c, at) matches Some(i) ==> at <= i < s.len() - from,
    decreases s.len() - from - at,
{
    if from + at < s.len() {
        assert(s.skip(from)[at] == s[from + at]);
        if s[from + at] != c {
            index_from_later(s, c, from, at + 1);
        }
    }
}

/// The default model in what `opencode debug config` printed.
pub fn default_model(printed: &str) -> (r: Option<String>)
    ensures
        r.deep_view() == first_model(lines_of(printed@)),
{
    let all = lines(printed);
    let ghost texts = all.deep_view();
    let mut i: usize = 0;
    assert(texts.take(0) =~= Seq::<Seq<char>>::empty());
    while i < all.len()
        invariant
            i <= all.len(),
            texts == all.deep_view(),
            texts == lines_of(printed@),
            first_model(texts.take(i as int)) is None,
        decreases all.len() - i,
    {
        assert(texts.take(i + 1).drop_last() =~= texts.take(i as int));
        assert(texts.take(i + 1).last() == all@[i as int]@);
        match read_model_line(all[i].as_str()) {
            Some(m) => {
                proof {
                    first_model_stays(texts, i + 1);
                }
                return Some(m);
            },
            None => {},
        }
        i += 1;
    }
    assert(texts.take(i as int) =~= texts);
    None
}

proof fn first_model_stays(lines: Seq<Seq<char>>, n: int)
    requires
        0 <= n <= lines.len(),
        first_model(lines.take(n)) is Some,
    ensures
        first_model(lines) == first_model(lines.take(n)),
    decreases lines.len(),
{
    if n < lines.len() {
        assert(lines.drop_last().take(n) =~= lines.take(n));
        first_model_stays(lines.drop_last(), n);
    } else {
        assert(lines.take(n) =~= lines);
    }
}

/// How often a character occurs.
pub open spec fn count_of(s: Seq<char>, c: char) -> nat
    decreases s.len(),
{
    if s.len() == 0 {
        0
    } else {
        count_of(s.drop_last(), c) + if s.last() == c {
            1nat
        } else {
            0nat
        }
    }
}

fn count_char(s: &Vec<char>, c: char) -> (r: usize)
    ensures
        r == count_of(s@, c),
        r <= s@.len(),
        (r > 0) == s@.contains(c),
{
    let mut i: usize = 0;
    let mut n: usize = 0;
    assert(s@.take(0) =~= Seq::<char>::empty());
    while i < s.len()
        invariant
            n <= i <= s.len(),
            n == count_of(s@.take(i as int), c),
            (n > 0) == exists|j: int| 0 <= j < i && #[trigger] s@[j] == c,
        decreases s.len() - i,
    {
        assert(s@.take(i + 1).drop_last() =~= s@.take(i as int));
        if s[i] == c {
            n += 1;
        }
        i += 1;
    }
    assert(s@.take(i as int) =~= s@);
    n
}

/// The name of an agent that a line defines: the text between its first quotes,
/// unless it is `default`.
pub open spec fn agent_on(t: Seq<char>) -> Option<Seq<char>> {
    if has_prefix(t, "\""@) && !has_prefix(t, "\"default\""@) {
        match index_from(t.skip(1), '"', 0) {
            Some(end) => Some(t.skip(1).take(end)),
            None => None,
        }
    } else {
        None
    }
}

/// How deep in braces one is behind a line.
pub open spec fn depth_behind(t: Seq<char>, depth: nat) -> nat {
    let opened = depth + count_of(t, '{');
    let closed = count_of(t, '}');
    if opened >= closed {
        (opened - closed) as nat
    } else {
        0
    }
}

/// The name of the first agent in the section of agents: the first that is
/// defined one brace deep in it. The section ends with its last brace.
pub open spec fn first_agent(lines: Seq<Seq<char>>, inside: bool, depth: nat) -> Option<Seq<char>>
    decreases lines.len(),
{
    if lines.len() == 0 {
        None
    } else {
        let t = trimmed(lines[0]);
        let heads = has_prefix(t, "\"agent\":"@);
        if !inside && !heads {
            first_agent(lines.skip(1), false, depth)
        } else if !heads && depth == 1 && agent_on(t) is Some {
            agent_on(t)
        } else {
            let behind = depth_behind(t, depth);
            if behind == 0 && t.contains('}') {
                None
            } else {
                first_agent(lines.skip(1), true, behind)
            }
        }
    }
}

fn read_agent_line(t: &str) -> (r: Option<String>)
    ensures
        r.deep_view() == agent_on(t@),
{
    if !starts_with(t, "\"") || starts_with(t, "\"default\"") {
        return None;
    }
    proof {
        reveal_strlit("\"");
    }
    let chars = chars_of(t);
    proof {
        index_from_later(t@, '"', 1, 0);
    }
    match find_char(chars.as_slice(), '"', 1) {
        Some(end) => {
            let r = piece(&chars, 1, end);
            assert(r@ =~= t@.skip(1).take(end - 1));
            Some(r)
        },
        None => None,
    }
}

/// The default agent in what `opencode debug config` printed: the first that the
/// section of agents names.
pub fn default_agent(printed: &str) -> (r: Option<String>)
    ensures
        r.deep_view() == first_agent(lines_of(printed@), false, 0),
{
    let all = lines(printed);
    let ghost texts = all.deep_view();
    let mut inside = false;
    let mut depth: u128 = 0;
    let mut i: usize = 0;
    assert(texts.skip(0) =~= texts);
    while i < all.len()
        invariant
            i <= all.len(),
            texts == all.deep_view(),
            texts == lines_of(printed@),
            depth <= i * usize::MAX,
            first_agent(texts, false, 0) == first_agent(texts.skip(i as int), inside, depth as nat),
        decreases all.len() - i,
    {
        assert(texts.skip(i as int).skip(1) =~= texts.skip(i + 1));
        assert(texts.skip(i as int)[0] == all@[i as int]@);
        let t = trim(all[i].as_str());
        let heads = starts_with(t.as_str(), "\"agent\":");
        if inside || heads {
            if !heads && depth == 1 {
                match read_agent_line(t.as_str()) {
                    Some(a) => return Some(a),
                    None => {},
                }
            }
            let chars = chars_of(t.as_str());
            let opens: usize = count_char(&chars, '{');
            let closes: usize = count_char(&chars, '}');
            proof {
                assert((i + 1) * usize::MAX == i * usize::MAX + usize::MAX) by (nonlinear_arith);
                assert((i + 1) * usize::MAX <= u128::MAX) by (nonlinear_arith)
                    requires
                        i < usize::MAX,
                ;
            }
            let opened: u128 = depth + opens as u128;
            depth = if opened >= closes as u128 {
                opened - closes as u128
            } else {
                0
            };
            inside = true;
            if depth == 0 && closes > 0 {
                return None;
            }
        } else {
            assert(i * usize::MAX <= (i + 1) * usize::MAX) by (nonlinear_arith);
        }
        i += 1;
    }
    None
}

/// The agent that a log line names, where it tells of the main call of a model.
pub open spec fn logged_agent(line: Seq<char>) -> Option<Seq<char>> {
    if contains_text(line, "service=llm"@) && contains_text(line, "mode=primary"@) {
        match find_from(line, "agent="@, 0) {
            Some(at) => {
                let rest = line.skip(at + 6);
                match index_from(rest, ' ', 0) {
                    Some(end) => if rest.take(end) == "title"@ {
                        None
                    } else {
                        Some(rest.take(end))
                    },
                    None => None,
                }
            },
            None => None,
        }
    } else {
        None
    }
}

/// The first agent that log lines name, but for the one that writes titles.
pub open spec fn first_logged(lines: Seq<Seq<char>>) -> Option<Seq<char>>
    decreases lines.len(),
{
    if lines.len() == 0 {
        None
    } else {
        match first_logged(lines.drop_last()) {
            Some(a) => Some(a),
            None => logged_agent(lines.last()),
        }
    }
}

fn read_log_line(line: &str) -> (r: Option<String>)
    ensures
        r.deep_view() == logged_agent(line@),
{
    if !contains(line, "service=llm") || !contains(line, "mode=primary") {
        return None;
    }
    let chars = chars_of(line);
    let mark = chars_of("agent=");
    proof {
        reveal_strlit("agent=");
        find_from_is_least(line@, mark@, 0);
    }
    match find_in(chars.as_slice(), mark.as_slice(), 0) {
        Some(at) => {
            assert(at + 6 <= chars.len());
            let from: usize = at + 6;
            let ghost rest = line@.skip(at + 6);
            proof {
                index_from_later(line@, ' ', from as int, 0);
            }
            match find_char(chars.as_slice(), ' ', from) {
                Some(end) => {
                    let found = piece(&chars, from, end);
                    assert(found@ =~= rest.take(end - from));
                    if str_eq(found.as_str(), "title") {
                        None
                    } else {
                        Some(found)
                    }
                },
                None => None,
            }
        },
        None => None,
    }
}

/// The agent that a run's log names.
pub fn agent_in_log(log: &Vec<String>) -> (r: Option<String>)
    ensures
        r.deep_view() == first_logged(log.deep_view()),
{
    let ghost texts = log.deep_view();
    let mut found: Option<String> = None;
    let mut i: usize = 0;
    assert(texts.take(0) =~= Seq::<Seq<char>>::empty());
    while i < log.len()
        invariant
            i <= log.len(),
            texts == log.deep_view(),
            found.deep_view() == first_logged(texts.take(i as int)),
        decreases log.len() - i,
    {
        assert(texts.take(i + 1).drop_last() =~= texts.take(i as int));
        assert(texts.take(i + 1).last() == log@[i as int]@);
        if found.is_none() {
            found = read_log_line(log[i].as_str());
        }
        i += 1;
    }
    assert(texts.take(i as int) =~= texts);
    found
}

/// The model of a configuration is named on its own line, between the quotation marks behind
/// the colon. Gives where the name begins.
pub proof fn models_are_named_in_marks(line: Seq<char>) -> (at: int)
    ensures
        model_on(line) matches Some(m) ==> {
            let t = trimmed(line);
            &&& has_prefix(t, "\"model\":"@)
            &&& 3 <= at <= at + m.len() < t.len()
            &&& t.subrange(at, at + m.len()) == m
            &&& t.subrange(at - 3, at) == seq![':', ' ', '"']
            &&& t[at + m.len()] == '"'
            &&& !m.contains('"')
        },
{
    reveal_strlit(": \"");
    assert(": \""@ =~= seq![':', ' ', '"']);
    let t = trimmed(line);
    find_from_is_least(t, ": \""@, 0);
    match find_from(t, ": \""@, 0) {
        Some(i) => {
            let rest = t.skip(i + 3);
            the_first_mark_is_found(rest, '"', 0);
            match index_from(rest, '"', 0) {
                Some(end) => {
                    assert(rest.take(end) =~= t.subrange(i + 3, i + 3 + end));
                    assert(t.subrange(i, i + 3) =~= seq![':', ' ', '"']);
                    i + 3
                },
                None => 0,
            }
        },
        None => 0,
    }
}

proof fn the_first_mark_is_found(s: Seq<char>, c: char, from: int)
    requires
        0 <= from,
    ensures
        match index_from(s, c, from) {
            Some(i) => from <= i < s.len() && s[i] == c && forall|j: int|
                from <= j < i ==> #[trigger] s[j] != c,
            None => forall|j: int| from <= j < s.len() ==> #[trigger] s[j] != c,
        },
    decreases s.len() - from,
{
    if from < s.len() && s[from] != c {
        the_first_mark_is_found(s, c, from + 1);
    }
}

/// The first line that names a model counts. Gives which.
pub proof fn the_first_model_counts(lines: Seq<Seq<char>>) -> (i: int)
    ensures
        match first_model(lines) {
            Some(m) => 0 <= i < lines.len() && model_on(lines[i]) == Some(m) && forall|j: int|
                0 <= j < i ==> model_on(#[trigger] lines[j]) is None,
            None => forall|j: int| 0 <= j < lines.len() ==> model_on(#[trigger] lines[j]) is None,
        },
    decreases lines.len(),
{
    if lines.len() == 0 {
        0
    } else {
        let rest = lines.drop_last();
        let i = the_first_model_counts(rest);
        assert(forall|j: int| 0 <= j < rest.len() ==> rest[j] == #[trigger] lines[j]);
        if first_model(rest) is Some {
            i
        } else {
            lines.len() - 1
        }
    }
}

/// An agent of a configuration is named between the first two quotation marks of its line,
/// which it begins with, and is not the default entry.
pub proof fn agents_are_named_in_marks(t: Seq<char>)
    ensures
        agent_on(t) matches Some(a) ==> {
            &&& t.len() > a.len() + 1
            &&& t[0] == '"'
            &&& t.subrange(1, 1 + a.len() as int) == a
            &&& t[1 + a.len() as int] == '"'
            &&& !a.contains('"')
            &&& !has_prefix(t, "\"default\""@)
        },
{
    reveal_strlit("\"");
    let rest = t.skip(1);
    the_first_mark_is_found(rest, '"', 0);
    match index_from(rest, '"', 0) {
        Some(end) => {
            if has_prefix(t, "\""@) {
                assert(t.subrange(0, 1)[0] == t[0]);
                assert(rest.take(end) =~= t.subrange(1, 1 + end));
            }
        },
        None => {},
    }
}

/// Braces are counted: each that opens goes one deeper, each that closes one back, and
/// nothing goes back behind the beginning.
pub proof fn braces_count_depth(t: Seq<char>, depth: nat, c: char)
    ensures
        count_of(t.push(c), '{') == count_of(t, '{') + if c == '{' {
            1nat
        } else {
            0nat
        },
        count_of(t.push(c), '}') == count_of(t, '}') + if c == '}' {
            1nat
        } else {
            0nat
        },
        count_of(Seq::empty(), c) == 0,
        depth + count_of(t, '{') >= count_of(t, '}') ==> depth_behind(t, depth) + count_of(t, '}')
            == depth + count_of(t, '{'),
        depth + count_of(t, '{') < count_of(t, '}') ==> depth_behind(t, depth) == 0,
{
    assert(t.push(c).drop_last() =~= t);
}

/// The agent of a run is named in its log on a line of the model service in the primary mode,
/// behind its mark and up to the next blank; the agent for titles does not count. Gives where
/// the name begins.
pub proof fn logs_name_the_primary_agent(line: Seq<char>) -> (at: int)
    ensures
        logged_agent(line) matches Some(a) ==> {
            &&& contains_text(line, "service=llm"@)
            &&& contains_text(line, "mode=primary"@)
            &&& a != "title"@
            &&& 6 <= at <= at + a.len() < line.len()
            &&& line.subrange(at - 6, at) == "agent="@
            &&& line.subrange(at, at + a.len()) == a
            &&& line[at + a.len()] == ' '
            &&& !a.contains(' ')
        },
{
    reveal_strlit("agent=");
    find_from_is_least(line, "agent="@, 0);
    match find_from(line, "agent="@, 0) {
        Some(i) => {
            let rest = line.skip(i + 6);
            the_first_mark_is_found(rest, ' ', 0);
            match index_from(rest, ' ', 0) {
                Some(end) => {
                    assert(rest.take(end) =~= line.subrange(i + 6, i + 6 + end));
                    i + 6
                },
                None => 0,
            }
        },
        None => 0,
    }
}

/// The first line of a log that names an agent counts. Gives which.
pub proof fn the_first_logged_agent_counts(lines: Seq<Seq<char>>) -> (i: int)
    ensures
        match first_logged(lines) {
            Some(a) => 0 <= i < lines.len() && logged_agent(lines[i]) == Some(a) && forall|j: int|
                0 <= j < i ==> logged_agent(#[trigger] lines[j]) is None,
            None => forall|j: int|
                0 <= j < lines.len() ==> logged_agent(#[trigger] lines[j]) is None,
        },
    decreases lines.len(),
{
    if lines.len() == 0 {
        0
    } else {
        let rest = lines.drop_last();
        let i = the_first_logged_agent_counts(rest);
        assert(forall|j: int| 0 <= j < rest.len() ==> rest[j] == #[trigger] lines[j]);
        if first_logged(rest) is Some {
            i
        } else {
            lines.len() - 1
        }
    }
}

/// The agents are looked for behind their heading only; the first on the first level there
/// counts, and none is found behind the end of that level.
pub proof fn agents_stand_below_their_heading(lines: Seq<Seq<char>>, depth: nat)
    requires
        lines.len() > 0,
    ensures
        !has_prefix(trimmed(lines[0]), "\"agent\":"@) ==> first_agent(lines, false, depth)
            == first_agent(lines.skip(1), false, depth),
        !has_prefix(trimmed(lines[0]), "\"agent\":"@) && agent_on(trimmed(lines[0])) is Some
            ==> first_agent(lines, true, 1) == agent_on(trimmed(lines[0])),
        depth != 1 && depth_behind(trimmed(lines[0]), depth) > 0 ==> first_agent(lines, true, depth)
            == first_agent(lines.skip(1), true, depth_behind(trimmed(lines[0]), depth)),
        depth != 1 && depth_behind(trimmed(lines[0]), depth) == 0 && trimmed(lines[0]).contains(
            '}',
        ) ==> first_agent(lines, true, depth) is None,
{
}

} // verus!
