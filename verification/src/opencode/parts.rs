//! What the parts of a message hold.

use crate::json::{Json, JsonView, json_in, json_text, parse_json, print_json};
use crate::order::{
    Ranking, is_sorted, sorting_sorts, stable_sort, stably_sorted, str_le, text_le,
    texts_are_totally_ordered,
};
use crate::text::{contains, contains_text, ends_with, has_suffix, reversed, str_eq};
use vstd::prelude::*;

verus! {

/// Whether a tool writes files.
pub open spec fn writes_files(tool: Seq<char>) -> bool {
    tool == "write"@ || tool == "edit"@ || tool == "multi_edit"@ || tool == "create"@
}

/// Whether a tool writes files.
pub fn is_write_tool(tool: &str) -> (r: bool)
    ensures
        r == writes_files(tool@),
{
    str_eq(tool, "write") || str_eq(tool, "edit") || str_eq(tool, "multi_edit") || str_eq(
        tool,
        "create",
    )
}

/// Whether the path that a tool was given names a file: it is the path of the
/// file, or the end of it from one of its names on.
pub open spec fn names_file(given: Seq<char>, target: Seq<char>) -> bool {
    given == target || has_suffix(target, "/"@ + given)
}

/// Whether the path that a tool was given names a file.
pub fn file_path_matches(given: &str, target: &str) -> (r: bool)
    ensures
        r == names_file(given@, target@),
{
    if str_eq(given, target) {
        return true;
    }
    let mut tail = "/".to_owned();
    tail.append(given);
    ends_with(target, tail.as_str())
}

/// Whether a value is there and its compact text contains the needle.
pub open spec fn printed_contains(v: Option<JsonView>, needle: Seq<char>) -> bool {
    v matches Some(value) && contains_text(json_text(value), needle)
}

/// Whether a text is there and contains the needle.
pub open spec fn text_contains(t: Option<Seq<char>>, needle: Seq<char>) -> bool {
    t matches Some(text) && contains_text(text, needle)
}

/// Whether a part contains a text where text is searched: in the text of a text
/// part, and in the name, the input and the output of a tool part.
pub open spec fn contains_needle(part: JsonView, needle: Seq<char>) -> bool {
    if part.get_str("type"@) == Some("text"@) {
        text_contains(part.get_str("text"@), needle)
    } else if part.get_str("type"@) == Some("tool"@) {
        ||| text_contains(part.get_str("tool"@), needle)
        ||| printed_contains(part.get2("state"@, "input"@), needle)
        ||| printed_contains(part.get2("state"@, "output"@), needle)
    } else {
        false
    }
}

fn prints_needle(v: Option<&Json>, needle: &str) -> (r: bool)
    ensures
        r == printed_contains(v.deep_view(), needle@),
{
    match v {
        Some(value) => contains(print_json(value).as_str(), needle),
        None => false,
    }
}

fn holds_needle(t: Option<&str>, needle: &str) -> (r: bool)
    ensures
        r == text_contains(t.deep_view(), needle@),
{
    match t {
        Some(text) => contains(text, needle),
        None => false,
    }
}

/// Whether the member `type` of a part is `kind`.
pub fn is_kind(part: &Json, kind: &str) -> (r: bool)
    ensures
        r == (part@.get_str("type"@) == Some(kind@)),
{
    match part.get_str("type") {
        Some(t) => str_eq(t, kind),
        None => false,
    }
}

/// Whether a part contains a text where text is searched.
pub fn part_contains_needle(part: &Json, needle: &str) -> (r: bool)
    ensures
        r == contains_needle(part@, needle@),
{
    proof {
        reveal_strlit("text");
        reveal_strlit("tool");
        assert("text"@[1] == 'e' && "tool"@[1] == 'o');
    }
    if is_kind(part, "text") {
        return holds_needle(part.get_str("text"), needle);
    }
    if is_kind(part, "tool") {
        return holds_needle(part.get_str("tool"), needle) || prints_needle(
            part.get2("state", "input"),
            needle,
        ) || prints_needle(part.get2("state", "output"), needle);
    }
    false
}

/// The path that the input of a tool names.
pub open spec fn input_path(input: JsonView) -> Option<Seq<char>> {
    match input.get("filePath"@) {
        Some(p) => p.as_str(),
        None => input.get_str("file_path"@),
    }
}

/// Whether a part is a tool that wrote a file.
pub open spec fn edits_file(part: JsonView, target: Seq<char>) -> bool {
    &&& part.get_str("type"@) == Some("tool"@)
    &&& part.get_str("tool"@) matches Some(tool)
    &&& writes_files(tool)
    &&& part.get2("state"@, "input"@) matches Some(input)
    &&& input_path(input) matches Some(path)
    &&& names_file(path, target)
}

/// Whether a part is a tool that wrote a file.
pub fn part_edits_file(part: &Json, target_path: &str) -> (r: bool)
    ensures
        r == edits_file(part@, target_path@),
{
    if !is_kind(part, "tool") {
        return false;
    }
    match part.get_str("tool") {
        Some(tool) => {
            if !is_write_tool(tool) {
                return false;
            }
        },
        None => {
            return false;
        },
    }
    let input = match part.get2("state", "input") {
        Some(input) => input,
        None => {
            return false;
        },
    };
    let path = match input.get("filePath") {
        Some(p) => p.as_str(),
        None => input.get_str("file_path"),
    };
    match path {
        Some(p) => file_path_matches(p, target_path),
        None => false,
    }
}

/// Whether a stored part contains a text where text is searched. How the part is
/// written down is of no account.
pub open spec fn raw_contains(raw: Seq<char>, needle: Seq<char>) -> bool {
    json_in(raw) matches Some(part) && contains_needle(part, needle)
}

/// Whether a stored part contains a text.
pub fn raw_part_contains(raw: &str, needle: &str) -> (r: bool)
    ensures
        r == raw_contains(raw@, needle@),
{
    match parse_json(raw) {
        Some(part) => part_contains_needle(&part, needle),
        None => false,
    }
}

/// Whether a stored part is a tool that wrote a file.
pub open spec fn raw_edits(raw: Seq<char>, target: Seq<char>) -> bool {
    json_in(raw) matches Some(part) && edits_file(part, target)
}

/// Whether a stored part wrote a file.
pub fn raw_part_edits(raw: &str, target_path: &str) -> (r: bool)
    ensures
        r == raw_edits(raw@, target_path@),
{
    match parse_json(raw) {
        Some(part) => part_edits_file(&part, target_path),
        None => false,
    }
}

/// The texts in order.
pub struct ByText;

impl Ranking<String> for ByText {
    open spec fn le(a: String, b: String) -> bool {
        text_le(a@, b@)
    }

    fn leq(a: &String, b: &String) -> (r: bool) {
        str_le(a.as_str(), b.as_str())
    }

    proof fn total(a: String, b: String) {
        texts_are_totally_ordered(a@, b@, a@);
    }

    proof fn transitive(a: String, b: String, c: String) {
        texts_are_totally_ordered(a@, b@, c@);
    }
}

/// The names of message files to look into: all in order, or the last `n`, the
/// last first.
pub open spec fn files_to_search(names: Seq<String>, last_n: Option<usize>) -> Seq<String> {
    let sorted = stably_sorted::<String, ByText>(names);
    match last_n {
        Some(n) => if n < sorted.len() {
            sorted.reverse().take(n as int)
        } else {
            sorted.reverse()
        },
        None => sorted,
    }
}

/// The names of message files to look into.
pub fn message_files_to_search(names: Vec<String>, last_n: Option<usize>) -> (r: Vec<String>)
    ensures
        r@ == files_to_search(names@, last_n),
{
    let sorted = stable_sort::<String, ByText>(names);
    match last_n {
        Some(n) => {
            let mut r = reversed(sorted);
            if n < r.len() {
                r.truncate(n);
            }
            r
        },
        None => sorted,
    }
}

proof fn kinds_of_parts_differ()
    ensures
        "text"@ != "tool"@,
{
    reveal_strlit("text");
    reveal_strlit("tool");
    assert("text"@.len() == 4);
    assert("tool"@.len() == 4);
    assert("text"@[1] != "tool"@[1]);
}

/// The tools that write files are these four.
pub proof fn four_tools_write_files(tool: Seq<char>)
    ensures
        writes_files("write"@),
        writes_files("edit"@),
        writes_files("multi_edit"@),
        writes_files("create"@),
        writes_files(tool) ==> seq!["write"@, "edit"@, "multi_edit"@, "create"@].contains(tool),
        !writes_files("read"@),
        !writes_files("bash"@),
{
    let all = seq!["write"@, "edit"@, "multi_edit"@, "create"@];
    assert(all[0] == "write"@ && all[1] == "edit"@ && all[2] == "multi_edit"@ && all[3]
        == "create"@);
    reveal_strlit("write");
    reveal_strlit("edit");
    reveal_strlit("multi_edit");
    reveal_strlit("create");
    reveal_strlit("read");
    reveal_strlit("bash");
    assert("write"@.len() == 5);
    assert("edit"@[0] == 'e');
    assert("multi_edit"@.len() == 10);
    assert("create"@.len() == 6);
    assert("read"@[0] == 'r' && "read"@.len() == 4);
    assert("bash"@[0] == 'b' && "bash"@.len() == 4);
}

/// A path names a file where it is the whole of the file's path or all of it behind one of
/// its separators.
pub proof fn paths_name_files_by_their_end(dir: Seq<char>, given: Seq<char>, target: Seq<char>)
    ensures
        names_file(given, given),
        names_file(given, dir + seq!['/'] + given),
        names_file(given, target) && given != target ==> target.len() > given.len() && target[
        target.len() - given.len() - 1] == '/' && target.skip(target.len() - given.len()) == given,
{
    reveal_strlit("/");
    let whole = dir + seq!['/'] + given;
    let end = "/"@ + given;
    assert(end =~= seq!['/'] + given);
    assert(whole.subrange(whole.len() - end.len(), whole.len() as int) =~= end);
    if names_file(given, target) && given != target {
        let at = target.len() - end.len();
        let tail = target.subrange(at, at + end.len());
        assert(tail == end);
        assert(target[at] == tail[0]);
        assert(target.skip(at + 1) =~= tail.skip(1));
        assert(end.skip(1) =~= given);
    }
}

/// A text is found in a part that says it, and in a tool's name, in what the tool was
/// given and in what came out; nowhere else.
pub proof fn parts_hold_what_they_say(part: JsonView, needle: Seq<char>)
    ensures
        part.get_str("type"@) == Some("text"@) ==> (contains_needle(part, needle) <==> part.get_str(
            "text"@,
        ) is Some && contains_text(part.get_str("text"@)->0, needle)),
        part.get_str("type"@) == Some("tool"@) ==> {
            let state = part.get("state"@);
            let input = if state is Some {
                state->0.get("input"@)
            } else {
                None
            };
            let output = if state is Some {
                state->0.get("output"@)
            } else {
                None
            };
            &&& part.get_str("tool"@) is Some && contains_text(part.get_str("tool"@)->0, needle)
                ==> contains_needle(part, needle)
            &&& input is Some && contains_text(json_text(input->0), needle) ==> contains_needle(
                part,
                needle,
            )
            &&& output is Some && contains_text(json_text(output->0), needle) ==> contains_needle(
                part,
                needle,
            )
            &&& contains_needle(part, needle) ==> {
                ||| part.get_str("tool"@) is Some && contains_text(
                    part.get_str("tool"@)->0,
                    needle,
                )
                ||| input is Some && contains_text(json_text(input->0), needle)
                ||| output is Some && contains_text(json_text(output->0), needle)
            }
        },
        contains_needle(part, needle) ==> part.get_str("type"@) == Some("text"@) || part.get_str(
            "type"@,
        ) == Some("tool"@),
{
    kinds_of_parts_differ();
}

/// A part that edits a file is the use of a tool that writes, on a path that names the
/// file.
pub proof fn edits_write_the_file(part: JsonView, target: Seq<char>)
    ensures
        edits_file(part, target) ==> {
            &&& part.get_str("type"@) == Some("tool"@)
            &&& part.get_str("tool"@) is Some && writes_files(part.get_str("tool"@)->0)
            &&& part.get("state"@) is Some && part.get("state"@)->0.get("input"@) is Some
            &&& {
                let input = part.get("state"@)->0.get("input"@)->0;
                ||| input.get_str("filePath"@) is Some && names_file(
                    input.get_str("filePath"@)->0,
                    target,
                )
                ||| input.get("filePath"@) is None && input.get_str("file_path"@) is Some
                    && names_file(input.get_str("file_path"@)->0, target)
            }
        },
        part.get_str("type"@) == Some("tool"@) && (part.get_str("tool"@) matches Some(tool)
            && writes_files(tool)) && (part.get("state"@) matches Some(state) && (state.get(
            "input"@,
        ) matches Some(input) && (input.get_str("filePath"@) matches Some(path) && names_file(
            path,
            target,
        )))) ==> edits_file(part, target),
{
}

/// The files to search are among those given, each as often; the last ones asked for are
/// the last by name, the very last first.
pub proof fn files_are_searched_from_the_last(names: Seq<String>, n: usize, i: int, j: int)
    requires
        0 <= i < j < files_to_search(names, Some(n)).len(),
    ensures
        files_to_search(names, Some(n)).len() <= n,
        text_le(
            files_to_search(names, Some(n))[j]@,
            files_to_search(names, Some(n))[i]@,
        ),
        files_to_search(names, Some(n))[i] == stably_sorted::<String, ByText>(names)[names.len() - 1
            - i],
{
    let sorted = stably_sorted::<String, ByText>(names);
    sorting_sorts::<String, ByText>(names);
    assert(ByText::le(sorted[names.len() - 1 - j], sorted[names.len() - 1 - i]));
}

/// Without a bound all files are searched, in the order of their names.
pub proof fn all_files_are_searched(names: Seq<String>, n: usize)
    ensures
        files_to_search(names, None).to_multiset() == names.to_multiset(),
        is_sorted::<String, ByText>(files_to_search(names, None)),
        files_to_search(names, Some(n)).len() == if n < names.len() {
            n as nat
        } else {
            names.len()
        },
{
    sorting_sorts::<String, ByText>(names);
}

} // verus!
