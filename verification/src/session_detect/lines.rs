//! What the lines of a screen are, and the tool invocations among them.

use crate::session_detect::ansi::{strip_ansi, stripped};
use crate::text::{
    between_bytes, boundary_in_range, byte_len, byte_slice, chars_of, contains, contains_text,
    find_char, first_word, has_prefix, index_from, last_index_before, leading_word, len_bytes,
    lower_case, on_boundary, pieces, rfind_char, split, starts_with, str_eq, string_of, to_lower,
    trim, trim_start, trimmed, trimmed_start,
};
use vstd::prelude::*;
use vstd::slice::slice_subrange;

verus! {

/// What a line of the screen is, by its colours and its text.
#[derive(Clone, PartialEq, Debug)]
pub enum TuiLineKind {
    AssistantText(String),
    ToolInvocation(String),
    PanelContent,
    CompletionMarker,
    SessionTitle,
    Footer,
    Empty,
    Other,
}

/// What a line of the screen is.
pub ghost enum LineKind {
    AssistantText(Seq<char>),
    ToolInvocation(Seq<char>),
    PanelContent,
    CompletionMarker,
    SessionTitle,
    Footer,
    Empty,
    Other,
}

impl View for TuiLineKind {
    type V = LineKind;

    open spec fn view(&self) -> LineKind {
        match self {
            TuiLineKind::AssistantText(s) => LineKind::AssistantText(s@),
            TuiLineKind::ToolInvocation(s) => LineKind::ToolInvocation(s@),
            TuiLineKind::PanelContent => LineKind::PanelContent,
            TuiLineKind::CompletionMarker => LineKind::CompletionMarker,
            TuiLineKind::SessionTitle => LineKind::SessionTitle,
            TuiLineKind::Footer => LineKind::Footer,
            TuiLineKind::Empty => LineKind::Empty,
            TuiLineKind::Other => LineKind::Other,
        }
    }
}

impl DeepView for TuiLineKind {
    type V = LineKind;

    open spec fn deep_view(&self) -> LineKind {
        self.view()
    }
}

/// A footer: its corner, then at least ten half blocks.
pub open spec fn is_footer(line: Seq<char>) -> bool {
    line.len() > 10 && line[0] == '╹' && forall|i: int| 1 <= i <= 10 ==> line[i] == '▀'
}

/// What follows the first panel border of a line, or the line where it has none.
pub open spec fn after_border(line: Seq<char>) -> Seq<char> {
    match index_from(line, '┃', 0) {
        Some(i) => trimmed_start(line.skip(i + 1)),
        None => line,
    }
}

/// The icons that begin a tool invocation.
pub open spec fn tool_icon(c: char) -> bool {
    c == '→' || c == '✱' || c == '←' || c == '⚙'
}

/// What a line is, given the line and the line without its escape sequences.
pub open spec fn kind_of(raw: Seq<char>, stripped: Seq<char>) -> LineKind {
    let line = trimmed(stripped);
    if line.len() == 0 {
        LineKind::Empty
    } else if is_footer(line) {
        LineKind::Footer
    } else if line[0] == '▣' {
        LineKind::CompletionMarker
    } else if contains_text(raw, "\x1b[1m"@) && has_prefix(after_border(line), "# "@)
        && contains_text(line, "($"@) {
        LineKind::SessionTitle
    } else if contains_text(raw, "48;2;"@) && stripped.contains('┃') && !contains_text(
        raw,
        "38;2;242;244;248"@,
    ) {
        LineKind::PanelContent
    } else if contains_text(raw, "38;2;125;132;143"@) && tool_icon(line[0]) {
        LineKind::ToolInvocation(line)
    } else if contains_text(raw, "38;2;242;244;248"@) {
        LineKind::AssistantText(raw)
    } else {
        LineKind::Other
    }
}

/// What a line of the screen is.
pub open spec fn line_kind(raw: Seq<char>) -> LineKind {
    kind_of(raw, stripped(raw))
}

fn is_footer_line(line: &Vec<char>) -> (r: bool)
    ensures
        r == is_footer(line@),
{
    if line.len() <= 10 || line[0] != '╹' {
        return false;
    }
    let mut i: usize = 1;
    while i <= 10
        invariant
            1 <= i <= 11,
            line.len() > 10,
            forall|j: int| 1 <= j < i ==> line@[j] == '▀',
        decreases 11 - i,
    {
        if line[i] != '▀' {
            return false;
        }
        i += 1;
    }
    true
}

fn heading_after_border(line: &Vec<char>) -> (r: String)
    ensures
        r@ == after_border(line@),
{
    let n: usize = line.len();
    match find_char(line.as_slice(), '┃', 0) {
        Some(i) => {
            let rest = string_of(slice_subrange(line.as_slice(), i + 1, n));
            assert(rest@ == line@.skip(i + 1));
            trim_start(rest.as_str())
        },
        None => string_of(line.as_slice()),
    }
}

/// What a line is, given the line and the line without its escape sequences.
pub fn classify_stripped(raw_line: &str, stripped_line: &str) -> (r: TuiLineKind)
    ensures
        r@ == kind_of(raw_line@, stripped_line@),
{
    let text = trim(stripped_line);
    if text.as_str().is_empty() {
        return TuiLineKind::Empty;
    }
    let line = chars_of(text.as_str());
    if is_footer_line(&line) {
        return TuiLineKind::Footer;
    }
    if line[0] == '▣' {
        return TuiLineKind::CompletionMarker;
    }
    if contains(raw_line, "\x1b[1m") {
        let heading = heading_after_border(&line);
        if starts_with(heading.as_str(), "# ") && contains(text.as_str(), "($") {
            return TuiLineKind::SessionTitle;
        }
    }
    let whole = chars_of(stripped_line);
    let border = find_char(whole.as_slice(), '┃', 0);
    assert(border is Some <==> stripped_line@.contains('┃')) by {
        if border is Some {
            assert(stripped_line@[border->0 as int] == '┃');
        }
    }
    let assistant = contains(raw_line, "38;2;242;244;248");
    if contains(raw_line, "48;2;") && border.is_some() && !assistant {
        return TuiLineKind::PanelContent;
    }
    if contains(raw_line, "38;2;125;132;143") {
        let c = line[0];
        if c == '→' || c == '✱' || c == '←' || c == '⚙' {
            return TuiLineKind::ToolInvocation(text);
        }
    }
    if assistant {
        return TuiLineKind::AssistantText(raw_line.to_owned());
    }
    TuiLineKind::Other
}

/// What a line of the screen is.
pub fn classify_tui_line(raw_line: &str) -> (r: TuiLineKind)
    ensures
        r@ == line_kind(raw_line@),
{
    let stripped_line = strip_ansi(raw_line);
    classify_stripped(raw_line, stripped_line.as_str())
}

/// A tool invocation as the screen shows it.
#[derive(Clone, PartialEq, Debug)]
pub struct ParsedToolCall {
    pub tool_name: String,
    pub fields: Vec<(String, String)>,
}

/// A tool invocation: the tool, and the named values it was given.
pub ghost struct ToolCallView {
    pub tool_name: Seq<char>,
    pub fields: Seq<(Seq<char>, Seq<char>)>,
}

impl View for ParsedToolCall {
    type V = ToolCallView;

    open spec fn view(&self) -> ToolCallView {
        ToolCallView { tool_name: self.tool_name@, fields: self.fields.deep_view() }
    }
}

impl DeepView for ParsedToolCall {
    type V = ToolCallView;

    open spec fn deep_view(&self) -> ToolCallView {
        self.view()
    }
}

/// The named value that `key=value` is; nothing where there is no equals sign.
pub open spec fn key_value(pair: Seq<char>) -> Option<(Seq<char>, Seq<char>)> {
    let p = trimmed(pair);
    match index_from(p, '=', 0) {
        Some(k) => Some((trimmed(p.take(k)), trimmed(p.skip(k + 1)))),
        None => None,
    }
}

/// The named values among the pairs, in order.
pub open spec fn key_values(pairs: Seq<Seq<char>>) -> Seq<(Seq<char>, Seq<char>)>
    decreases pairs.len(),
{
    if pairs.len() == 0 {
        Seq::empty()
    } else {
        match key_value(pairs.last()) {
            Some(kv) => key_values(pairs.drop_last()).push(kv),
            None => key_values(pairs.drop_last()),
        }
    }
}

/// The fields of a search: the quoted pattern, and the path behind `in `.
pub open spec fn search_fields(rest: Seq<char>) -> Seq<(Seq<char>, Seq<char>)> {
    match index_from(rest, '"', 0) {
        Some(a) => match index_from(rest, '"', a + 1) {
            Some(b) => {
                let tail = trimmed_start(rest.skip(b + 1));
                let found = seq![("pattern"@, rest.subrange(a + 1, b))];
                if has_prefix(tail, "in "@) {
                    found.push(("path"@, trimmed(tail.skip(3))))
                } else {
                    found
                }
            },
            None => Seq::empty(),
        },
        None => Seq::empty(),
    }
}

/// The path of a tool invocation, where it has one.
pub open spec fn path_field(path: Seq<char>) -> Seq<(Seq<char>, Seq<char>)> {
    if path.len() > 0 {
        seq![("filePath"@, path)]
    } else {
        Seq::empty()
    }
}

/// Where the named values in brackets end: at the last closing bracket, or with the text.
pub open spec fn bracket_end(rest: Seq<char>) -> int {
    match last_index_before(rest, ']', rest.len() as int) {
        Some(e) => e,
        None => rest.len() as int,
    }
}

/// The fields of any other tool: a path, and named values in brackets.
pub open spec fn path_fields(rest: Seq<char>) -> Seq<(Seq<char>, Seq<char>)> {
    match index_from(rest, '[', 0) {
        Some(k) => path_field(trimmed(rest.take(k))) + key_values(
            pieces(rest.subrange(k + 1, bracket_end(rest)), ','),
        ),
        None => path_field(trimmed(rest)),
    }
}

/// The fields of a tool invocation, given the lower-case name and what follows it.
pub open spec fn tool_fields(name: Seq<char>, rest: Seq<char>) -> Seq<(Seq<char>, Seq<char>)> {
    if name == "grep"@ {
        search_fields(rest)
    } else {
        path_fields(rest)
    }
}

/// The values named `mcp_name`, under the name `name`.
pub open spec fn skill_names(fields: Seq<(Seq<char>, Seq<char>)>) -> Seq<(Seq<char>, Seq<char>)>
    decreases fields.len(),
{
    if fields.len() == 0 {
        Seq::empty()
    } else if fields.last().0 == "mcp_name"@ {
        skill_names(fields.drop_last()).push(("name"@, fields.last().1))
    } else {
        skill_names(fields.drop_last())
    }
}

/// What follows the tool name in an invocation.
pub open spec fn after_name(invocation: Seq<char>, name: Seq<char>) -> Seq<char> {
    trimmed_start(
        between_bytes(invocation, byte_len(name) as int, byte_len(invocation) as int),
    )
}

/// Whether an invocation can be cut behind as many bytes as its lower-case name
/// has, and the brackets behind the name open before they close.
pub open spec fn can_be_cut(invocation: Seq<char>, name: Seq<char>) -> bool {
    let rest = after_name(invocation, name);
    &&& on_boundary(invocation, byte_len(name) as int)
    &&& name == "grep"@ || (index_from(rest, '[', 0) matches Some(k) ==> k < bracket_end(rest))
}

/// The tool call that an invocation is, given its lower-case name. The screen
/// shows skills under another name and with other fields than records do.
pub open spec fn tool_call(invocation: Seq<char>, name: Seq<char>) -> ToolCallView {
    let fields = tool_fields(name, after_name(invocation, name));
    if name == "skill_mcp"@ {
        ToolCallView { tool_name: "skill"@, fields: skill_names(fields) }
    } else {
        ToolCallView { tool_name: name, fields }
    }
}

/// The tool call that a line is: an icon, a tool name and its fields. There is
/// none without an icon or a name, nor where the line cannot be cut.
pub open spec fn tool_line(line: Seq<char>) -> Option<ToolCallView> {
    let t = trimmed(line);
    if t.len() == 0 || !tool_icon(t[0]) {
        None
    } else {
        let invocation = trimmed_start(t.skip(1));
        let name = lower_case(first_word(invocation));
        if invocation.len() == 0 || !can_be_cut(invocation, name) {
            None
        } else {
            Some(tool_call(invocation, name))
        }
    }
}

fn parse_key_values(pairs: &Vec<String>) -> (r: Vec<(String, String)>)
    ensures
        r.deep_view() == key_values(pairs.deep_view()),
{
    let mut out: Vec<(String, String)> = Vec::new();
    let mut i: usize = 0;
    let ghost all = pairs.deep_view();
    while i < pairs.len()
        invariant
            i <= pairs.len(),
            all == pairs.deep_view(),
            out.deep_view() == key_values(all.take(i as int)),
        decreases pairs.len() - i,
    {
        assert(all.take(i + 1).drop_last() == all.take(i as int));
        assert(all.take(i + 1).last() == pairs@[i as int]@);
        let ghost before = out.deep_view();
        let pair = trim(pairs[i].as_str());
        let p = chars_of(pair.as_str());
        let n: usize = p.len();
        match find_char(p.as_slice(), '=', 0) {
            Some(k) => {
                let head = string_of(slice_subrange(p.as_slice(), 0, k));
                let tail = string_of(slice_subrange(p.as_slice(), k + 1, n));
                assert(head@ == p@.take(k as int));
                assert(tail@ == p@.skip(k + 1));
                let kv = (trim(head.as_str()), trim(tail.as_str()));
                out.push(kv);
                assert(out.deep_view() == before.push(kv.deep_view()));
            },
            None => {},
        }
        i += 1;
    }
    assert(all.take(i as int) == all);
    out
}

fn parse_search_fields(rest: &Vec<char>) -> (r: Vec<(String, String)>)
    ensures
        r.deep_view() == search_fields(rest@),
{
    let mut out: Vec<(String, String)> = Vec::new();
    let n: usize = rest.len();
    assert(out.deep_view() == Seq::<(Seq<char>, Seq<char>)>::empty());
    match find_char(rest.as_slice(), '"', 0) {
        Some(a) => {
            match find_char(rest.as_slice(), '"', a + 1) {
                Some(b) => {
                    let pattern = string_of(slice_subrange(rest.as_slice(), a + 1, b));
                    let behind = string_of(slice_subrange(rest.as_slice(), b + 1, n));
                    assert(behind@ == rest@.skip(b + 1));
                    let tail = trim_start(behind.as_str());
                    out.push(("pattern".to_owned(), pattern));
                    assert(out.deep_view() == seq![("pattern"@, rest@.subrange(a + 1, b as int))]);
                    if starts_with(tail.as_str(), "in ") {
                        proof {
                            reveal_strlit("in ");
                        }
                        let ghost before = out.deep_view();
                        let t = chars_of(tail.as_str());
                        let path = string_of(slice_subrange(t.as_slice(), 3, t.len()));
                        assert(path@ == tail@.skip(3));
                        let field = ("path".to_owned(), trim(path.as_str()));
                        out.push(field);
                        assert(out.deep_view() == before.push(field.deep_view()));
                    }
                },
                None => {},
            }
        },
        None => {},
    }
    out
}

fn push_path(path: String) -> (r: Vec<(String, String)>)
    ensures
        r.deep_view() == path_field(path@),
{
    let mut out: Vec<(String, String)> = Vec::new();
    assert(out.deep_view() == Seq::<(Seq<char>, Seq<char>)>::empty());
    if !path.as_str().is_empty() {
        let ghost field = ("filePath"@, path@);
        out.push(("filePath".to_owned(), path));
        assert(out.deep_view() == seq![field]);
    }
    out
}

fn parse_path_fields(rest: &Vec<char>) -> (r: Vec<(String, String)>)
    requires
        index_from(rest@, '[', 0) matches Some(k) ==> k < bracket_end(rest@),
    ensures
        r.deep_view() == path_fields(rest@),
{
    let n: usize = rest.len();
    match find_char(rest.as_slice(), '[', 0) {
        Some(k) => {
            let head = string_of(slice_subrange(rest.as_slice(), 0, k));
            assert(head@ == rest@.take(k as int));
            let mut out = push_path(trim(head.as_str()));
            let end: usize = match rfind_char(rest.as_slice(), ']', n) {
                Some(e) => e,
                None => n,
            };
            let inner = string_of(slice_subrange(rest.as_slice(), k + 1, end));
            let mut named = parse_key_values(&split(inner.as_str(), ','));
            let ghost first = out.deep_view();
            let ghost second = named.deep_view();
            out.append(&mut named);
            assert(out.deep_view() == first + second);
            out
        },
        None => {
            let path = string_of(rest.as_slice());
            push_path(trim(path.as_str()))
        },
    }
}

fn map_skill_names(fields: &Vec<(String, String)>) -> (r: Vec<(String, String)>)
    ensures
        r.deep_view() == skill_names(fields.deep_view()),
{
    let mut out: Vec<(String, String)> = Vec::new();
    let ghost all = fields.deep_view();
    let mut i: usize = 0;
    while i < fields.len()
        invariant
            i <= fields.len(),
            all == fields.deep_view(),
            out.deep_view() == skill_names(all.take(i as int)),
        decreases fields.len() - i,
    {
        assert(all.take(i + 1).drop_last() == all.take(i as int));
        assert(all.take(i + 1).last() == fields@[i as int].deep_view());
        let ghost before = out.deep_view();
        if str_eq(fields[i].0.as_str(), "mcp_name") {
            let field = ("name".to_owned(), fields[i].1.clone());
            out.push(field);
            assert(out.deep_view() == before.push(field.deep_view()));
        }
        i += 1;
    }
    assert(all.take(i as int) == all);
    out
}

/// The tool call that an invocation is, given its lower-case name.
pub fn parse_tool_call(invocation: &str, name: String) -> (r: ParsedToolCall)
    requires
        can_be_cut(invocation@, name@),
    ensures
        r@ == tool_call(invocation@, name@),
{
    proof {
        boundary_in_range(invocation@, byte_len(name@) as int);
    }
    let behind = byte_slice(invocation, len_bytes(name.as_str()), len_bytes(invocation));
    let rest = chars_of(trim_start(behind).as_str());
    assert(rest@ == after_name(invocation@, name@));
    let fields = if str_eq(name.as_str(), "grep") {
        parse_search_fields(&rest)
    } else {
        parse_path_fields(&rest)
    };
    if str_eq(name.as_str(), "skill_mcp") {
        ParsedToolCall { tool_name: "skill".to_owned(), fields: map_skill_names(&fields) }
    } else {
        ParsedToolCall { tool_name: name, fields }
    }
}

fn cut_is_possible(invocation: &str, name: &str) -> (r: bool)
    ensures
        r == can_be_cut(invocation@, name@),
{
    let n: usize = len_bytes(name);
    if !invocation.is_char_boundary(n) {
        return false;
    }
    if str_eq(name, "grep") {
        return true;
    }
    proof {
        boundary_in_range(invocation@, n as int);
    }
    let behind = byte_slice(invocation, n, len_bytes(invocation));
    let rest = chars_of(trim_start(behind).as_str());
    assert(rest@ == after_name(invocation@, name@));
    let len: usize = rest.len();
    match find_char(rest.as_slice(), '[', 0) {
        Some(k) => {
            match rfind_char(rest.as_slice(), ']', len) {
                Some(e) => k < e,
                None => true,
            }
        },
        None => true,
    }
}

/// The tool call that a line of the screen shows.
pub fn parse_tool_line(stripped_text: &str) -> (r: Option<ParsedToolCall>)
    ensures
        r.deep_view() == tool_line(stripped_text@),
{
    let t = chars_of(trim(stripped_text).as_str());
    if t.len() == 0 {
        return None;
    }
    let c = t[0];
    if !(c == '→' || c == '✱' || c == '←' || c == '⚙') {
        return None;
    }
    let behind = string_of(slice_subrange(t.as_slice(), 1, t.len()));
    assert(behind@ == t@.skip(1));
    let invocation = trim_start(behind.as_str());
    if invocation.as_str().is_empty() {
        return None;
    }
    let name = to_lower(leading_word(invocation.as_str()).as_str());
    if cut_is_possible(invocation.as_str(), name.as_str()) {
        Some(parse_tool_call(invocation.as_str(), name))
    } else {
        None
    }
}

/// A line is taken for what its marks show: a tool call is grey and begins with an
/// arrow, a star or a wheel; an answer is white and kept with its colours; an end of an
/// answer begins with a box; a footer with a corner and ten bars; a title is bold and
/// shows a price; a panel has a background and no white.
pub proof fn kinds_have_their_marks(raw: Seq<char>, plain: Seq<char>)
    ensures
        match kind_of(raw, plain) {
            LineKind::Empty => trimmed(plain).len() == 0,
            LineKind::Footer => trimmed(plain).len() > 10 && trimmed(plain)[0] == '╹' && forall|
                i: int,
            |
                1 <= i <= 10 ==> #[trigger] trimmed(plain)[i] == '▀',
            LineKind::CompletionMarker => trimmed(plain).len() > 0 && trimmed(plain)[0] == '▣',
            LineKind::SessionTitle => contains_text(raw, "\x1b[1m"@) && contains_text(
                trimmed(plain),
                "($"@,
            ),
            LineKind::PanelContent => contains_text(raw, "48;2;"@) && plain.contains('┃')
                && !contains_text(raw, "38;2;242;244;248"@),
            LineKind::ToolInvocation(line) => {
                &&& line == trimmed(plain)
                &&& contains_text(raw, "38;2;125;132;143"@)
                &&& line.len() > 0 && (line[0] == '→' || line[0] == '✱' || line[0] == '←'
                    || line[0] == '⚙')
            },
            LineKind::AssistantText(line) => line == raw && contains_text(
                raw,
                "38;2;242;244;248"@,
            ) && trimmed(plain).len() > 0,
            LineKind::Other => trimmed(plain).len() > 0 && !contains_text(
                raw,
                "38;2;242;244;248"@,
            ),
        },
        trimmed(plain).len() == 0 ==> kind_of(raw, plain) is Empty,
        trimmed(plain).len() > 0 && trimmed(plain)[0] == '▣' ==> kind_of(raw, plain)
            is CompletionMarker,
        trimmed(plain).len() > 10 && trimmed(plain)[0] == '╹' && (forall|i: int|
            1 <= i <= 10 ==> #[trigger] trimmed(plain)[i] == '▀') ==> kind_of(raw, plain) is Footer,
{
}

/// A call that shows no bracket names one file: what stands behind its name.
pub proof fn calls_name_their_file(invocation: Seq<char>, name: Seq<char>)
    requires
        name != "grep"@,
        name != "skill_mcp"@,
        forall|i: int|
            0 <= i < after_name(invocation, name).len() ==> #[trigger] after_name(
                invocation,
                name,
            )[i] != '[',
        trimmed(after_name(invocation, name)).len() > 0,
    ensures
        tool_call(invocation, name).tool_name == name,
        tool_call(invocation, name).fields == seq![
            ("filePath"@, trimmed(after_name(invocation, name))),
        ],
{
    nothing_is_found(after_name(invocation, name), '[', 0);
}

proof fn nothing_is_found(s: Seq<char>, c: char, from: int)
    requires
        0 <= from,
        forall|i: int| from <= i < s.len() ==> #[trigger] s[i] != c,
    ensures
        index_from(s, c, from) is None,
    decreases s.len() - from,
{
    if from < s.len() {
        nothing_is_found(s, c, from + 1);
    }
}

proof fn first_is_found(s: Seq<char>, c: char, from: int, at: int)
    requires
        0 <= from <= at < s.len(),
        s[at] == c,
        forall|i: int| from <= i < at ==> #[trigger] s[i] != c,
    ensures
        index_from(s, c, from) == Some(at),
    decreases at - from,
{
    if from < at {
        first_is_found(s, c, from + 1, at);
    }
}

/// A search call names the pattern that stands in its first quotes, and behind the word
/// `in` the path that it searches.
pub proof fn searches_name_pattern_and_path(invocation: Seq<char>, a: int, b: int)
    requires
        ({
            let rest = after_name(invocation, "grep"@);
            &&& 0 <= a < b < rest.len()
            &&& rest[a] == '"' && rest[b] == '"'
            &&& forall|i: int| 0 <= i < a ==> #[trigger] rest[i] != '"'
            &&& forall|i: int| a < i < b ==> #[trigger] rest[i] != '"'
        }),
    ensures
        ({
            let rest = after_name(invocation, "grep"@);
            let tail = trimmed_start(rest.skip(b + 1));
            let call = tool_call(invocation, "grep"@);
            &&& call.tool_name == "grep"@
            &&& call.fields.len() >= 1
            &&& call.fields[0] == ("pattern"@, rest.subrange(a + 1, b))
            &&& tail.len() >= 3 && tail[0] == 'i' && tail[1] == 'n' && tail[2] == ' '
                ==> call.fields.len() == 2 && call.fields[1] == ("path"@, trimmed(tail.skip(3)))
            &&& !(tail.len() >= 3 && tail[0] == 'i' && tail[1] == 'n' && tail[2] == ' ')
                ==> call.fields.len() == 1
        }),
{
    let rest = after_name(invocation, "grep"@);
    let tail = trimmed_start(rest.skip(b + 1));
    first_is_found(rest, '"', 0, a);
    first_is_found(rest, '"', a + 1, b);
    reveal_strlit("grep");
    reveal_strlit("skill_mcp");
    assert("grep"@.len() != "skill_mcp"@.len());
    reveal_strlit("in ");
    if tail.len() >= 3 && tail[0] == 'i' && tail[1] == 'n' && tail[2] == ' ' {
        assert(tail.subrange(0, 3) =~= "in "@);
    } else if has_prefix(tail, "in "@) {
        let head = tail.subrange(0, 3);
        assert(head[0] == tail[0] && head[1] == tail[1] && head[2] == tail[2]);
    }
}

/// A pair in brackets is split at its first equals sign: the name stands before it, and
/// the value behind it.
pub proof fn pairs_are_split_at_the_sign(pair: Seq<char>, k: int)
    requires
        0 <= k < trimmed(pair).len(),
        trimmed(pair)[k] == '=',
        forall|i: int| 0 <= i < k ==> #[trigger] trimmed(pair)[i] != '=',
    ensures
        key_value(pair) == Some(
            (trimmed(trimmed(pair).take(k)), trimmed(trimmed(pair).skip(k + 1))),
        ),
{
    first_is_found(trimmed(pair), '=', 0, k);
}

/// A call that shows one pair in brackets has it as a field, behind the file, where it
/// names one.
pub proof fn pairs_in_brackets_are_fields(
    invocation: Seq<char>,
    name: Seq<char>,
    open: int,
    close: int,
    k: int,
)
    requires
        name != "grep"@,
        name != "skill_mcp"@,
        ({
            let rest = after_name(invocation, name);
            let pair = rest.subrange(open + 1, close);
            &&& 0 <= open < close < rest.len()
            &&& rest[open] == '[' && rest[close] == ']'
            &&& forall|i: int| 0 <= i < open ==> #[trigger] rest[i] != '['
            &&& forall|i: int| close < i < rest.len() ==> #[trigger] rest[i] != ']'
            &&& forall|i: int| 0 <= i < pair.len() ==> #[trigger] pair[i] != ','
            &&& 0 <= k < trimmed(pair).len() && trimmed(pair)[k] == '='
            &&& forall|i: int| 0 <= i < k ==> #[trigger] trimmed(pair)[i] != '='
        }),
    ensures
        ({
            let rest = after_name(invocation, name);
            let pair = trimmed(rest.subrange(open + 1, close));
            let own = (trimmed(pair.take(k)), trimmed(pair.skip(k + 1)));
            let file = trimmed(rest.take(open));
            tool_call(invocation, name).fields == (if file.len() > 0 {
                seq![("filePath"@, file), own]
            } else {
                seq![own]
            })
        }),
{
    let rest = after_name(invocation, name);
    let pair = rest.subrange(open + 1, close);
    first_is_found(rest, '[', 0, open);
    last_is_found(rest, ']', rest.len() as int, close);
    nothing_is_found(pair, ',', 0);
    assert(pieces(pair, ',') =~= seq![pair]);
    pairs_are_split_at_the_sign(pair, k);
    let one = seq![pair];
    assert(one.drop_last() =~= Seq::<Seq<char>>::empty());
    assert(key_values(one.drop_last()) =~= Seq::<(Seq<char>, Seq<char>)>::empty());
    let own = (trimmed(trimmed(pair).take(k)), trimmed(trimmed(pair).skip(k + 1)));
    assert(key_values(one) =~= seq![own]);
    let file = trimmed(rest.take(open));
    if file.len() > 0 {
        assert(seq![("filePath"@, file)] + seq![own] =~= seq![("filePath"@, file), own]);
    } else {
        assert(Seq::<(Seq<char>, Seq<char>)>::empty() + seq![own] =~= seq![own]);
    }
}

proof fn last_is_found(s: Seq<char>, c: char, end: int, at: int)
    requires
        0 <= at < end <= s.len(),
        s[at] == c,
        forall|i: int| at < i < end ==> #[trigger] s[i] != c,
    ensures
        last_index_before(s, c, end) == Some(at),
    decreases end - at,
{
    if at < end - 1 {
        last_is_found(s, c, end - 1, at);
    }
}

/// A line is a tool call only where it begins with the mark of one, and the tool is the
/// first word behind the mark in lower case, but that a skill of a server is a skill.
pub proof fn tool_lines_name_their_tool(line: Seq<char>)
    ensures
        tool_line(line) matches Some(call) ==> {
            let t = trimmed(line);
            let name = lower_case(first_word(trimmed_start(t.skip(1))));
            &&& t.len() > 0
            &&& t[0] == '→' || t[0] == '✱' || t[0] == '←' || t[0] == '⚙'
            &&& name != "skill_mcp"@ ==> call.tool_name == name
            &&& name == "skill_mcp"@ ==> call.tool_name == "skill"@
        },
{
}

/// Of a skill of a server only its name is a field, taken from where the server says it.
pub proof fn skills_are_known_by_name(fields: Seq<(Seq<char>, Seq<char>)>)
    ensures
        forall|k: int|
            0 <= k < skill_names(fields).len() ==> (#[trigger] skill_names(fields)[k]).0
                == "name"@ && exists|i: int|
                0 <= i < fields.len() && #[trigger] fields[i] == (
                    "mcp_name"@,
                    skill_names(fields)[k].1,
                ),
        forall|i: int|
            0 <= i < fields.len() && (#[trigger] fields[i]).0 == "mcp_name"@ ==> skill_names(
                fields,
            ).contains(("name"@, fields[i].1)),
    decreases fields.len(),
{
    if fields.len() > 0 {
        let rest = fields.drop_last();
        let before = skill_names(rest);
        let all = skill_names(fields);
        skills_are_known_by_name(rest);
        assert forall|k: int| 0 <= k < all.len() implies (#[trigger] all[k]).0 == "name"@ && exists|
            i: int,
        |
            0 <= i < fields.len() && #[trigger] fields[i] == ("mcp_name"@, all[k].1) by {
            if k < before.len() {
                assert(before[k] == all[k]);
                let i = choose|i: int|
                    0 <= i < rest.len() && #[trigger] rest[i] == ("mcp_name"@, before[k].1);
                assert(fields[i] == rest[i]);
            } else {
                assert(fields[fields.len() - 1] == fields.last());
            }
        }
        assert forall|i: int| 0 <= i < fields.len() && (#[trigger] fields[i]).0
            == "mcp_name"@ implies all.contains(("name"@, fields[i].1)) by {
            if i < rest.len() {
                assert(rest[i] == fields[i]);
                let k = choose|k: int| 0 <= k < before.len() && before[k] == ("name"@, fields[i].1);
                assert(all[k] == before[k]);
            } else {
                assert(all[before.len() as int] == ("name"@, fields[i].1));
            }
        }
    }
}

} // verus!
