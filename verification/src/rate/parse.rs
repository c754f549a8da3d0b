//! Test cases, as they are written in files.

use crate::opencode::nudge::reply_view;
use crate::text::{
    chars_of, contains_iff_found, contains_text, find_from, find_from_is_least, find_in, has_prefix,
    join, joined, lines, lines_of, occurs_at, replace_all, replaced, starts_with, string_of, trim,
    trimmed,
};
use vstd::prelude::*;
use vstd::slice::slice_subrange;

verus! {

/// The span of time of a test case.
#[derive(Clone, Debug, PartialEq, Eq)]
pub struct Timespan {
    pub date: String,
    pub start: String,
    pub end: String,
    /// Date, start and end together.
    pub full: String,
}

/// A test case.
#[derive(Clone, Debug, PartialEq, Eq)]
pub struct TestCase {
    pub name: String,
    pub timespan: Timespan,
    /// What the agent is asked, with places for parts of the span of time.
    pub prompt: String,
    /// What the answer has to have.
    pub checklist: Vec<String>,
}

/// The content of a span of time.
pub ghost struct TimespanView {
    pub date: Seq<char>,
    pub start: Seq<char>,
    pub end: Seq<char>,
    pub full: Seq<char>,
}

impl View for Timespan {
    type V = TimespanView;

    open spec fn view(&self) -> TimespanView {
        TimespanView {
            date: self.date@,
            start: self.start@,
            end: self.end@,
            full: self.full@,
        }
    }
}

/// The content of a test case.
pub ghost struct CaseView {
    pub name: Seq<char>,
    pub timespan: TimespanView,
    pub prompt: Seq<char>,
    pub checklist: Seq<Seq<char>>,
}

impl View for TestCase {
    type V = CaseView;

    open spec fn view(&self) -> CaseView {
        CaseView {
            name: self.name@,
            timespan: self.timespan@,
            prompt: self.prompt@,
            checklist: self.checklist.deep_view(),
        }
    }
}

/// The two parts of a text before and behind the first place where another stands.
pub open spec fn cut_at(s: Seq<char>, mark: Seq<char>) -> Option<(Seq<char>, Seq<char>)> {
    match find_from(s, mark, 0) {
        Some(i) => Some((s.take(i), s.skip(i + mark.len()))),
        None => None,
    }
}

fn cut(s: &str, mark: &str) -> (r: Option<(String, String)>)
    ensures
        match (r, cut_at(s@, mark@)) {
            (Some(p), Some(q)) => p.0@ == q.0 && p.1@ == q.1,
            (None, None) => true,
            _ => false,
        },
{
    let chars = chars_of(s);
    let m = chars_of(mark);
    let n: usize = chars.len();
    proof {
        find_from_is_least(s@, mark@, 0);
    }
    match find_in(chars.as_slice(), m.as_slice(), 0) {
        Some(i) => {
            let head = string_of(slice_subrange(chars.as_slice(), 0, i));
            let tail = string_of(slice_subrange(chars.as_slice(), i + m.len(), n));
            assert(head@ =~= s@.take(i as int));
            assert(tail@ =~= s@.skip(i + mark@.len()));
            Some((head, tail))
        },
        None => None,
    }
}

/// A span of time, from a text such as `DATE TIME..TIME`.
pub open spec fn timespan_in(s: Seq<char>) -> Result<TimespanView, Seq<char>> {
    match cut_at(s, ".."@) {
        None => Err("Malformed timespan: missing '..' separator in '"@ + s + "'"@),
        Some((first, second)) => match cut_at(trimmed(first), " "@) {
            None => Err(
                "Malformed timespan: expected 'DATE TIME' format in '"@ + trimmed(first) + "'"@,
            ),
            Some((date, start)) => Ok(
                TimespanView {
                    date,
                    start,
                    end: trimmed(second),
                    full: date + " "@ + start + ".."@ + trimmed(second),
                },
            ),
        },
    }
}

/// A span of time, or what is wrong with its text.
pub open spec fn timespan_view(r: Result<Timespan, String>) -> Result<TimespanView, Seq<char>> {
    match r {
        Ok(t) => Ok(t@),
        Err(e) => Err(e@),
    }
}

/// A span of time, from a text such as `DATE TIME..TIME`.
pub fn parse_timespan(s: &str) -> (r: Result<Timespan, String>)
    ensures
        timespan_view(r) == timespan_in(s@),
{
    match cut(s, "..") {
        None => {
            let mut e = "Malformed timespan: missing '..' separator in '".to_string();
            e.append(s);
            e.append("'");
            Err(e)
        },
        Some((first, second)) => {
            let first = trim(first.as_str());
            match cut(first.as_str(), " ") {
                None => {
                    let mut e = "Malformed timespan: expected 'DATE TIME' format in '".to_string();
                    e.append(first.as_str());
                    e.append("'");
                    Err(e)
                },
                Some((date, start)) => {
                    let end = trim(second.as_str());
                    let mut full = date.clone();
                    full.append(" ");
                    full.append(start.as_str());
                    full.append("..");
                    full.append(end.as_str());
                    Ok(Timespan { date, start, end, full })
                },
            }
        },
    }
}

/// The name and the span of time that a header names.
pub open spec fn header_on(line: Seq<char>) -> Result<(Seq<char>, TimespanView), Seq<char>> {
    match cut_at(trimmed(line.skip("## Test Case:"@.len() as int)), "|"@) {
        None => Err("Malformed Test Case header: missing '|' separator"@),
        Some((name, span)) => match timespan_in(trimmed(span)) {
            Ok(t) => Ok((trimmed(name), t)),
            Err(e) => Err(e),
        },
    }
}

/// The first line from `from` on that begins with a text.
pub open spec fn line_with(lines: Seq<Seq<char>>, prefix: Seq<char>, from: int) -> Option<int>
    decreases lines.len() - from,
{
    if from < 0 || from >= lines.len() {
        None
    } else if has_prefix(lines[from], prefix) {
        Some(from)
    } else {
        line_with(lines, prefix, from + 1)
    }
}

fn find_line(lines: &Vec<String>, prefix: &str) -> (r: Option<usize>)
    ensures
        match r {
            Some(i) => line_with(lines.deep_view(), prefix@, 0) == Some(i as int) && i
                < lines.len() && has_prefix(lines@[i as int]@, prefix@),
            None => line_with(lines.deep_view(), prefix@, 0) is None,
        },
{
    let ghost all = lines.deep_view();
    let mut i: usize = 0;
    while i < lines.len()
        invariant
            i <= lines.len(),
            all == lines.deep_view(),
            line_with(all, prefix@, 0) == line_with(all, prefix@, i as int),
        decreases lines.len() - i,
    {
        assert(all[i as int] == lines@[i as int]@);
        if starts_with(lines[i].as_str(), prefix) {
            return Some(i);
        }
        i += 1;
    }
    None
}

/// The name and the span of time of a test case.
pub open spec fn header_in(lines: Seq<Seq<char>>) -> Result<(Seq<char>, TimespanView), Seq<char>> {
    match line_with(lines, "## Test Case:"@, 0) {
        Some(i) => header_on(lines[i]),
        None => Err(
            "Missing Test Case header (expected '## Test Case: NAME | DATE TIME..TIME')"@,
        ),
    }
}

/// A name and a span of time, or what is wrong with the header.
pub open spec fn header_view(r: Result<(String, Timespan), String>) -> Result<
    (Seq<char>, TimespanView),
    Seq<char>,
> {
    match r {
        Ok(h) => Ok((h.0@, h.1@)),
        Err(e) => Err(e@),
    }
}

fn header_of_lines(lines: &Vec<String>) -> (r: Result<(String, Timespan), String>)
    ensures
        header_view(r) == header_in(lines.deep_view()),
{
    match find_line(lines, "## Test Case:") {
        Some(i) => {
            let line = chars_of(lines[i].as_str());
            let n: usize = chars_of("## Test Case:").len();
            let rest = string_of(slice_subrange(line.as_slice(), n, line.len()));
            proof {
                assert(lines.deep_view()[i as int] == lines@[i as int]@);
                assert(rest@ =~= lines@[i as int]@.skip("## Test Case:"@.len() as int));
            }
            match cut(trim(rest.as_str()).as_str(), "|") {
                None => Err("Malformed Test Case header: missing '|' separator".to_string()),
                Some((name, span)) => match parse_timespan(trim(span.as_str()).as_str()) {
                    Ok(t) => Ok((trim(name.as_str()), t)),
                    Err(e) => Err(e),
                },
            }
        },
        None => Err(
            "Missing Test Case header (expected '## Test Case: NAME | DATE TIME..TIME')".to_string(),
        ),
    }
}

/// The name and the span of time of a test case.
pub fn parse_header(content: &str) -> (r: Result<(String, Timespan), String>)
    ensures
        header_view(r) == header_in(lines_of(content@)),
{
    header_of_lines(&lines(content))
}

/// Whether a line is the fence of a code block.
pub open spec fn is_fence(line: Seq<char>) -> bool {
    has_prefix(trimmed(line), "```"@)
}

/// Whether a line begins another section.
pub open spec fn begins_section(line: Seq<char>) -> bool {
    has_prefix(trimmed(line), "**"@) || has_prefix(trimmed(line), "###"@) || has_prefix(
        trimmed(line),
        "##"@,
    )
}

/// The line behind the fence that opens a code block, unless another section
/// begins before it.
pub open spec fn block_start(lines: Seq<Seq<char>>, from: int) -> Option<int>
    decreases lines.len() - from,
{
    if from < 0 || from >= lines.len() {
        None
    } else if is_fence(lines[from]) {
        Some(from + 1)
    } else if begins_section(lines[from]) {
        None
    } else {
        block_start(lines, from + 1)
    }
}

/// The first fence from `from` on.
pub open spec fn next_fence(lines: Seq<Seq<char>>, from: int) -> Option<int>
    decreases lines.len() - from,
{
    if from < 0 || from >= lines.len() {
        None
    } else if is_fence(lines[from]) {
        Some(from)
    } else {
        next_fence(lines, from + 1)
    }
}

/// The lines of the first code block from a line on; nothing where there is none.
pub open spec fn block_in(lines: Seq<Seq<char>>, from: int) -> Result<Seq<char>, Seq<char>> {
    match block_start(lines, from) {
        None => Ok(Seq::empty()),
        Some(start) => match next_fence(lines, start) {
            None => Err("Unclosed code block"@),
            Some(end) => Ok(joined(lines.subrange(start, end), "\n"@)),
        },
    }
}

fn fences(line: &str) -> (r: bool)
    ensures
        r == is_fence(line@),
{
    starts_with(trim(line).as_str(), "```")
}

fn find_block_start(lines: &Vec<String>, from: usize) -> (r: Option<usize>)
    requires
        from <= lines.len(),
    ensures
        match r {
            Some(i) => block_start(lines.deep_view(), from as int) == Some(i as int) && from < i
                <= lines.len(),
            None => block_start(lines.deep_view(), from as int) is None,
        },
{
    let ghost all = lines.deep_view();
    let mut i: usize = from;
    while i < lines.len()
        invariant
            from <= i <= lines.len(),
            all == lines.deep_view(),
            block_start(all, from as int) == block_start(all, i as int),
        decreases lines.len() - i,
    {
        assert(all[i as int] == lines@[i as int]@);
        if fences(lines[i].as_str()) {
            return Some(i + 1);
        }
        let t = trim(lines[i].as_str());
        if starts_with(t.as_str(), "**") || starts_with(t.as_str(), "###") || starts_with(
            t.as_str(),
            "##",
        ) {
            return None;
        }
        i += 1;
    }
    None
}

fn find_fence(lines: &Vec<String>, from: usize) -> (r: Option<usize>)
    requires
        from <= lines.len(),
    ensures
        match r {
            Some(i) => next_fence(lines.deep_view(), from as int) == Some(i as int) && from <= i
                < lines.len(),
            None => next_fence(lines.deep_view(), from as int) is None,
        },
{
    let ghost all = lines.deep_view();
    let mut i: usize = from;
    while i < lines.len()
        invariant
            from <= i <= lines.len(),
            all == lines.deep_view(),
            next_fence(all, from as int) == next_fence(all, i as int),
        decreases lines.len() - i,
    {
        assert(all[i as int] == lines@[i as int]@);
        if fences(lines[i].as_str()) {
            return Some(i);
        }
        i += 1;
    }
    None
}

/// The lines of the first code block from a line on.
pub fn extract_code_block(lines: &Vec<String>, start_idx: usize) -> (r: Result<String, String>)
    requires
        start_idx <= lines.len(),
    ensures
        reply_view(r) == block_in(lines.deep_view(), start_idx as int),
{
    let ghost all = lines.deep_view();
    let start: usize = match find_block_start(lines, start_idx) {
        Some(i) => i,
        None => return Ok(String::new()),
    };
    let end: usize = match find_fence(lines, start) {
        Some(i) => i,
        None => return Err("Unclosed code block".to_string()),
    };
    let mut block: Vec<String> = Vec::new();
    let mut i: usize = start;
    while i < end
        invariant
            start <= i <= end <= lines.len(),
            block.len() == i - start,
            forall|j: int| 0 <= j < i - start ==> (#[trigger] block@[j])@ == lines@[start + j]@,
        decreases end - i,
    {
        block.push(lines[i].clone());
        i += 1;
    }
    assert(block.deep_view() =~= all.subrange(start as int, end as int));
    Ok(join(&block, "\n"))
}

/// What the agent is asked.
pub open spec fn prompt_in(lines: Seq<Seq<char>>) -> Result<Seq<char>, Seq<char>> {
    match line_with(lines, "### Prompt"@, 0) {
        None => Err("Missing '### Prompt' section"@),
        Some(i) => match block_in(lines, i + 1) {
            Ok(prompt) => if prompt.len() == 0 {
                Err("Empty prompt in '### Prompt' section"@)
            } else {
                Ok(prompt)
            },
            Err(e) => Err(e),
        },
    }
}

fn prompt_of_lines(lines: &Vec<String>) -> (r: Result<String, String>)
    ensures
        reply_view(r) == prompt_in(lines.deep_view()),
{
    match find_line(lines, "### Prompt") {
        None => Err("Missing '### Prompt' section".to_string()),
        Some(i) => match extract_code_block(lines, i + 1) {
            Ok(prompt) => {
                if chars_of(prompt.as_str()).len() == 0 {
                    Err("Empty prompt in '### Prompt' section".to_string())
                } else {
                    Ok(prompt)
                }
            },
            Err(e) => Err(e),
        },
    }
}

/// What the agent is asked: the code block below the heading `Prompt`.
pub fn parse_prompt(content: &str) -> (r: Result<String, String>)
    ensures
        reply_view(r) == prompt_in(lines_of(content@)),
{
    prompt_of_lines(&lines(content))
}

/// Whether a line ends the checklist: it is a heading of the second order, but
/// for one that begins with `Work:`.
pub open spec fn ends_checklist(line: Seq<char>) -> bool {
    has_prefix(trimmed(line), "## "@) && !has_prefix(trimmed(line), "## Work:"@)
}

/// The item of a checklist on a line.
pub open spec fn item_on(line: Seq<char>) -> Option<Seq<char>> {
    if has_prefix(trimmed(line), "- [ ] "@) {
        Some(trimmed(line).skip("- [ ] "@.len() as int))
    } else {
        None
    }
}

/// The items of a checklist from a line on, up to the line that ends it.
pub open spec fn items_from(lines: Seq<Seq<char>>, from: int) -> Seq<Seq<char>>
    decreases lines.len() - from,
{
    if from < 0 || from >= lines.len() || ends_checklist(lines[from]) {
        Seq::empty()
    } else {
        match item_on(lines[from]) {
            Some(item) => seq![item] + items_from(lines, from + 1),
            None => items_from(lines, from + 1),
        }
    }
}

/// What the answer has to have.
pub open spec fn checklist_in(lines: Seq<Seq<char>>) -> Result<Seq<Seq<char>>, Seq<char>> {
    match line_with(lines, "### Verification Checklist"@, 0) {
        None => Err("Missing '### Verification Checklist' section"@),
        Some(i) => if items_from(lines, i + 1).len() == 0 {
            Err("Empty checklist in Verification Checklist section"@)
        } else {
            Ok(items_from(lines, i + 1))
        },
    }
}

/// A checklist, or what is wrong with it.
pub open spec fn checklist_view(r: Result<Vec<String>, String>) -> Result<
    Seq<Seq<char>>,
    Seq<char>,
> {
    match r {
        Ok(items) => Ok(items.deep_view()),
        Err(e) => Err(e@),
    }
}

fn item_of_line(line: &str) -> (r: Option<String>)
    ensures
        r.deep_view() == item_on(line@),
{
    let t = trim(line);
    if !starts_with(t.as_str(), "- [ ] ") {
        return None;
    }
    let chars = chars_of(t.as_str());
    let n: usize = chars_of("- [ ] ").len();
    let item = string_of(slice_subrange(chars.as_slice(), n, chars.len()));
    assert(item@ =~= t@.skip("- [ ] "@.len() as int));
    Some(item)
}

fn checklist_of_lines(lines: &Vec<String>) -> (r: Result<Vec<String>, String>)
    ensures
        checklist_view(r) == checklist_in(lines.deep_view()),
{
    let ghost all = lines.deep_view();
    let start: usize = match find_line(lines, "### Verification Checklist") {
        Some(i) => i + 1,
        None => return Err("Missing '### Verification Checklist' section".to_string()),
    };
    let ghost items = items_from(all, start as int);
    let mut out: Vec<String> = Vec::new();
    let mut i: usize = start;
    assert(out.deep_view() + items =~= items);
    while i < lines.len()
        invariant_except_break
            start <= i <= lines.len(),
            out.deep_view() + items_from(all, i as int) == items,
        invariant
            all == lines.deep_view(),
        ensures
            out.deep_view() == items,
        decreases lines.len() - i,
    {
        assert(all[i as int] == lines@[i as int]@);
        let ghost before = out.deep_view();
        let t = trim(lines[i].as_str());
        if starts_with(t.as_str(), "## ") && !starts_with(t.as_str(), "## Work:") {
            assert(before + Seq::<Seq<char>>::empty() =~= before);
            break;
        }
        match item_of_line(lines[i].as_str()) {
            Some(item) => {
                let ghost view = item@;
                out.push(item);
                proof {
                    let rest = items_from(all, i + 1);
                    assert(out.deep_view() =~= before.push(view));
                    assert(before.push(view) + rest =~= before + (seq![view] + rest));
                }
            },
            None => {},
        }
        i += 1;
        assert(i == lines.len() ==> out.deep_view() + Seq::<Seq<char>>::empty()
            =~= out.deep_view());
    }
    assert(out.deep_view().len() == out.len());
    if out.len() == 0 {
        return Err("Empty checklist in Verification Checklist section".to_string());
    }
    Ok(out)
}

/// What the answer has to have: the boxes below the heading `Verification
/// Checklist`.
pub fn parse_checklist(content: &str) -> (r: Result<Vec<String>, String>)
    ensures
        checklist_view(r) == checklist_in(lines_of(content@)),
{
    checklist_of_lines(&lines(content))
}

/// A test case, or the first thing that is wrong with it.
pub open spec fn case_in(lines: Seq<Seq<char>>) -> Result<CaseView, Seq<char>> {
    match (header_in(lines), prompt_in(lines), checklist_in(lines)) {
        (Err(e), _, _) => Err(e),
        (_, Err(e), _) => Err(e),
        (_, _, Err(e)) => Err(e),
        (Ok((name, timespan)), Ok(prompt), Ok(checklist)) => Ok(
            CaseView { name, timespan, prompt, checklist },
        ),
    }
}

/// A test case, or what is wrong with it.
pub open spec fn case_view(r: Result<TestCase, String>) -> Result<CaseView, Seq<char>> {
    match r {
        Ok(c) => Ok(c@),
        Err(e) => Err(e@),
    }
}

/// The test case that the text of a file holds.
pub fn parse_test_content(content: &str) -> (r: Result<TestCase, String>)
    ensures
        case_view(r) == case_in(lines_of(content@)),
{
    let all = lines(content);
    let (name, timespan) = match header_of_lines(&all) {
        Ok(h) => h,
        Err(e) => return Err(e),
    };
    let prompt = match prompt_of_lines(&all) {
        Ok(p) => p,
        Err(e) => return Err(e),
    };
    let checklist = match checklist_of_lines(&all) {
        Ok(c) => c,
        Err(e) => return Err(e),
    };
    Ok(TestCase { name, timespan, prompt, checklist })
}

/// A text with the parts of a span of time in their places.
pub open spec fn substituted(text: Seq<char>, t: TimespanView) -> Seq<char> {
    replaced(
        replaced(
            replaced(replaced(text, "{{TIMESPAN}}"@, t.full), "{{DATE}}"@, t.date),
            "{{START}}"@,
            t.start,
        ),
        "{{END}}"@,
        t.end,
    )
}

/// A text with the parts of a span of time in their places.
pub fn substitute_variables(text: &str, timespan: &Timespan) -> (r: String)
    ensures
        r@ == substituted(text@, timespan@),
{
    proof {
        reveal_strlit("{{TIMESPAN}}");
        reveal_strlit("{{DATE}}");
        reveal_strlit("{{START}}");
        reveal_strlit("{{END}}");
    }
    let s = replace_all(text, "{{TIMESPAN}}", timespan.full.as_str());
    let s = replace_all(s.as_str(), "{{DATE}}", timespan.date.as_str());
    let s = replace_all(s.as_str(), "{{START}}", timespan.start.as_str());
    replace_all(s.as_str(), "{{END}}", timespan.end.as_str())
}

/// A text that has none of the places stays as it is.
pub proof fn texts_without_places_stay(text: Seq<char>, t: TimespanView)
    requires
        !contains_text(text, "{{TIMESPAN}}"@),
        !contains_text(text, "{{DATE}}"@),
        !contains_text(text, "{{START}}"@),
        !contains_text(text, "{{END}}"@),
    ensures
        substituted(text, t) == text,
{
    contains_iff_found(text, "{{TIMESPAN}}"@);
    contains_iff_found(text, "{{DATE}}"@);
    contains_iff_found(text, "{{START}}"@);
    contains_iff_found(text, "{{END}}"@);
}

/// A span of time that was read says of itself what its parts say.
pub proof fn full_timespans_are_made_of_their_parts(s: Seq<char>)
    requires
        timespan_in(s) is Ok,
    ensures
        ({
            let t = timespan_in(s)->Ok_0;
            t.full == t.date + " "@ + t.start + ".."@ + t.end
        }),
{
}

/// Cutting a text at a mark gives what stands before the first mark and what stands behind
/// it.
pub proof fn cutting_is_at_the_first_mark(s: Seq<char>, mark: Seq<char>)
    ensures
        cut_at(s, mark) matches Some((a, b)) ==> s == a + mark + b && forall|j: int|
            0 <= j < a.len() ==> !#[trigger] occurs_at(s, mark, j),
        cut_at(s, mark) is None <==> !contains_text(s, mark),
{
    contains_iff_found(s, mark);
    find_from_is_least(s, mark, 0);
    match find_from(s, mark, 0) {
        Some(i) => {
            assert(s =~= s.take(i) + s.subrange(i, i + mark.len()) + s.skip(i + mark.len()));
        },
        None => {},
    }
}

/// A span of time has its date before the first blank, its start before the dots and its end
/// behind them; without dots or without a blank there is none.
pub proof fn timespans_have_date_start_and_end(s: Seq<char>)
    ensures
        timespan_in(s) is Ok <==> (cut_at(s, ".."@) matches Some((first, _)) && contains_text(
            trimmed(first),
            " "@,
        )),
        timespan_in(s) matches Ok(t) ==> {
            let (first, second) = cut_at(s, ".."@)->0;
            &&& trimmed(first) == t.date + seq![' '] + t.start
            &&& !t.date.contains(' ')
            &&& t.end == trimmed(second)
            &&& t.full == t.date + seq![' '] + t.start + seq!['.', '.'] + t.end
        },
{
    reveal_strlit(" ");
    reveal_strlit("..");
    assert(" "@ =~= seq![' ']);
    assert(".."@ =~= seq!['.', '.']);
    cutting_is_at_the_first_mark(s, ".."@);
    match cut_at(s, ".."@) {
        Some((first, _)) => {
            let f = trimmed(first);
            cutting_is_at_the_first_mark(f, " "@);
            match cut_at(f, " "@) {
                Some((date, _)) => {
                    assert forall|j: int| 0 <= j < date.len() implies date[j] != ' ' by {
                        assert(f[j] == date[j]);
                        assert(!occurs_at(f, " "@, j));
                        assert(f.subrange(j, j + 1) =~= seq![f[j]]);
                    }
                },
                None => {},
            }
        },
        None => {},
    }
}

/// A section begins at the first line that has its heading. Gives which.
pub proof fn sections_begin_at_their_heading(
    lines: Seq<Seq<char>>,
    prefix: Seq<char>,
    from: int,
)
    requires
        0 <= from,
    ensures
        match line_with(lines, prefix, from) {
            Some(i) => from <= i < lines.len() && has_prefix(lines[i], prefix) && forall|j: int|
                from <= j < i ==> !has_prefix(#[trigger] lines[j], prefix),
            None => forall|j: int|
                from <= j < lines.len() ==> !has_prefix(#[trigger] lines[j], prefix),
        },
    decreases lines.len() - from,
{
    if from < lines.len() && !has_prefix(lines[from], prefix) {
        sections_begin_at_their_heading(lines, prefix, from + 1);
    }
}

/// A block of code is what stands between two fences, line by line, with no fence in it, and
/// no section begins before it. Gives the fences.
pub proof fn code_stands_between_fences(lines: Seq<Seq<char>>, from: int) -> (at: (int, int))
    requires
        0 <= from,
    ensures
        block_in(lines, from) matches Ok(code) ==> {
            ||| from < at.0 <= at.1 < lines.len() && code == joined(
                lines.subrange(at.0, at.1),
                seq!['\n'],
            ) && is_fence(lines[at.0 - 1]) && is_fence(lines[at.1]) && (forall|j: int|
                at.0 <= j < at.1 ==> !is_fence(#[trigger] lines[j])) && (forall|j: int|
                from <= j < at.0 - 1 ==> !is_fence(#[trigger] lines[j]) && !begins_section(
                    lines[j],
                ))
            ||| code.len() == 0
        },
{
    reveal_strlit("\n");
    assert("\n"@ =~= seq!['\n']);
    the_first_block_counts(lines, from);
    match block_start(lines, from) {
        Some(start) => {
            the_next_fence_counts(lines, start);
            match next_fence(lines, start) {
                Some(end) => (start, end),
                None => (0, 0),
            }
        },
        None => (0, 0),
    }
}

proof fn the_first_block_counts(lines: Seq<Seq<char>>, from: int)
    requires
        0 <= from,
    ensures
        block_start(lines, from) matches Some(s) ==> from < s <= lines.len() && is_fence(
            lines[s - 1],
        ) && forall|j: int|
            from <= j < s - 1 ==> !is_fence(#[trigger] lines[j]) && !begins_section(lines[j]),
    decreases lines.len() - from,
{
    if from < lines.len() && !is_fence(lines[from]) && !begins_section(lines[from]) {
        the_first_block_counts(lines, from + 1);
    }
}

proof fn the_next_fence_counts(lines: Seq<Seq<char>>, from: int)
    requires
        0 <= from,
    ensures
        next_fence(lines, from) matches Some(e) ==> from <= e < lines.len() && is_fence(lines[e])
            && forall|j: int| from <= j < e ==> !is_fence(#[trigger] lines[j]),
    decreases lines.len() - from,
{
    if from < lines.len() && !is_fence(lines[from]) {
        the_next_fence_counts(lines, from + 1);
    }
}

/// The items of a checklist are its lines with a box, without the box. Gives the line of an
/// item.
pub proof fn items_have_boxes(lines: Seq<Seq<char>>, from: int, k: int) -> (i: int)
    requires
        0 <= from,
        0 <= k < items_from(lines, from).len(),
    ensures
        from <= i < lines.len(),
        trimmed(lines[i]) == seq!['-', ' ', '[', ' ', ']', ' '] + items_from(lines, from)[k],
        forall|j: int| from <= j <= i ==> !ends_checklist(#[trigger] lines[j]),
    decreases lines.len() - from,
{
    reveal_strlit("- [ ] ");
    assert("- [ ] "@ =~= seq!['-', ' ', '[', ' ', ']', ' ']);
    match item_on(lines[from]) {
        Some(item) => {
            assert(items_from(lines, from) =~= seq![item] + items_from(lines, from + 1));
            if k == 0 {
                let t = trimmed(lines[from]);
                assert(t =~= t.subrange(0, 6) + t.skip(6));
                from
            } else {
                items_have_boxes(lines, from + 1, k - 1)
            }
        },
        None => items_have_boxes(lines, from + 1, k),
    }
}

/// Every line with a box before the end of the checklist is an item. Gives which.
pub proof fn boxes_are_items(lines: Seq<Seq<char>>, from: int, i: int) -> (k: int)
    requires
        0 <= from <= i < lines.len(),
        forall|j: int| from <= j <= i ==> !ends_checklist(#[trigger] lines[j]),
        has_prefix(trimmed(lines[i]), "- [ ] "@),
    ensures
        0 <= k < items_from(lines, from).len(),
        "- [ ] "@ + items_from(lines, from)[k] == trimmed(lines[i]),
    decreases i - from,
{
    reveal_strlit("- [ ] ");
    assert(!ends_checklist(lines[from]));
    if from == i {
        let t = trimmed(lines[i]);
        assert(t =~= t.subrange(0, 6) + t.skip(6));
        0
    } else {
        let k = boxes_are_items(lines, from + 1, i);
        match item_on(lines[from]) {
            Some(item) => k + 1,
            None => k,
        }
    }
}

/// A test is made of its header, its prompt and its checklist, and fails where any of them
/// does.
pub proof fn tests_are_made_of_their_parts(lines: Seq<Seq<char>>)
    ensures
        case_in(lines) is Ok <==> header_in(lines) is Ok && prompt_in(lines) is Ok && checklist_in(
            lines,
        ) is Ok,
        case_in(lines) matches Ok(c) ==> {
            &&& header_in(lines) == Ok::<_, Seq<char>>((c.name, c.timespan))
            &&& prompt_in(lines) == Ok::<_, Seq<char>>(c.prompt)
            &&& checklist_in(lines) == Ok::<_, Seq<char>>(c.checklist)
            &&& c.prompt.len() > 0
            &&& c.checklist.len() > 0
        },
{
}

/// A header names its test before the bar and its span of time behind it.
pub proof fn headers_name_test_and_time(line: Seq<char>)
    ensures
        header_on(line) matches Ok((name, span)) ==> {
            let rest = trimmed(line.skip(13));
            cut_at(rest, "|"@) matches Some((before, behind)) && name == trimmed(before)
                && timespan_in(trimmed(behind)) == Ok::<_, Seq<char>>(span)
        },
{
    reveal_strlit("## Test Case:");
}

} // verus!
