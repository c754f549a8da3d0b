//! The entries of a session file, one a line, and the texts in their messages.

use crate::json::{Json, JsonView, json_in, parse_json};
use crate::opencode::parts::is_kind;
use crate::text::{chars_of, has_suffix, last_index_before, rfind_char, string_of, trim, trimmed};
use crate::time::{Timestamp, in_calendar, parse_rfc3339, rfc3339_instant};
use vstd::prelude::*;
use vstd::slice::slice_subrange;

verus! {

/// The entries among lines: those that are not blank and hold JSON, in order.
pub open spec fn entries_in(lines: Seq<Seq<char>>) -> Seq<JsonView>
    decreases lines.len(),
{
    if lines.len() == 0 {
        Seq::empty()
    } else {
        let before = entries_in(lines.drop_last());
        if trimmed(lines.last()).len() == 0 {
            before
        } else {
            match json_in(lines.last()) {
                Some(v) => before.push(v),
                None => before,
            }
        }
    }
}

/// Whether a line is blank.
pub fn is_blank(line: &str) -> (r: bool)
    ensures
        r == (trimmed(line@).len() == 0),
{
    chars_of(trim(line).as_str()).len() == 0
}

/// The entries among lines.
pub fn parse_entries(lines: &Vec<String>) -> (r: Vec<Json>)
    ensures
        r.deep_view() == entries_in(lines.deep_view()),
{
    let ghost all = lines.deep_view();
    let mut out: Vec<Json> = Vec::new();
    let mut i: usize = 0;
    assert(all.take(0) =~= Seq::<Seq<char>>::empty());
    assert(out.deep_view() =~= Seq::<JsonView>::empty());
    while i < lines.len()
        invariant
            i <= lines.len(),
            all == lines.deep_view(),
            out.deep_view() == entries_in(all.take(i as int)),
        decreases lines.len() - i,
    {
        assert(all.take(i + 1).drop_last() =~= all.take(i as int));
        assert(all.take(i + 1).last() == lines@[i as int]@);
        let ghost before = out.deep_view();
        if !is_blank(lines[i].as_str()) {
            match parse_json(lines[i].as_str()) {
                Some(v) => {
                    let ghost view = v@;
                    out.push(v);
                    assert(out.deep_view() =~= before.push(view));
                },
                None => {},
            }
        }
        i += 1;
    }
    assert(all.take(i as int) =~= all);
    out
}

/// When an entry was written.
pub open spec fn entry_time(entry: JsonView) -> Option<Timestamp> {
    match entry.get_str("timestamp"@) {
        Some(t) => rfc3339_instant(t),
        None => None,
    }
}

/// When an entry was written.
pub fn entry_timestamp(entry: &Json) -> (r: Option<Timestamp>)
    ensures
        r == entry_time(entry@),
        r matches Some(t) ==> in_calendar(t),
{
    match entry.get_str("timestamp") {
        Some(t) => parse_rfc3339(t),
        None => None,
    }
}

/// The message of an entry that is one.
pub open spec fn message_in(entry: JsonView) -> Option<JsonView> {
    if entry.get_str("type"@) == Some("message"@) {
        entry.get("message"@)
    } else {
        None
    }
}

/// The message of an entry that is one.
pub fn message_of(entry: &Json) -> (r: Option<&Json>)
    ensures
        r.deep_view() == message_in(entry@),
{
    if is_kind(entry, "message") {
        entry.get("message")
    } else {
        None
    }
}

/// The first thing that entries tell.
pub open spec fn first_told<T>(entries: Seq<JsonView>, tell: spec_fn(JsonView) -> Option<T>) -> Option<T>
    decreases entries.len(),
{
    if entries.len() == 0 {
        None
    } else {
        match first_told(entries.drop_last(), tell) {
            Some(t) => Some(t),
            None => tell(entries.last()),
        }
    }
}

/// The last thing that entries tell.
pub open spec fn last_told<T>(entries: Seq<JsonView>, tell: spec_fn(JsonView) -> Option<T>) -> Option<T>
    decreases entries.len(),
{
    if entries.len() == 0 {
        None
    } else {
        match tell(entries.last()) {
            Some(t) => Some(t),
            None => last_told(entries.drop_last(), tell),
        }
    }
}

/// What entries count, all together.
pub open spec fn counted(entries: Seq<JsonView>, count: spec_fn(JsonView) -> nat) -> nat
    decreases entries.len(),
{
    if entries.len() == 0 {
        0
    } else {
        counted(entries.drop_last(), count) + count(entries.last())
    }
}

/// The text of a block of text.
pub open spec fn block_text(block: JsonView) -> Option<Seq<char>> {
    if block.get_str("type"@) == Some("text"@) {
        block.get_str("text"@)
    } else {
        None
    }
}

/// The text of a block of text.
pub fn text_of_block(block: &Json) -> (r: Option<&str>)
    ensures
        r.deep_view() == block_text(block@),
{
    if is_kind(block, "text") {
        block.get_str("text")
    } else {
        None
    }
}

/// The texts of the blocks of text, in order.
pub open spec fn block_texts(blocks: Seq<JsonView>) -> Seq<Seq<char>>
    decreases blocks.len(),
{
    if blocks.len() == 0 {
        Seq::empty()
    } else {
        match block_text(blocks.last()) {
            Some(t) => block_texts(blocks.drop_last()).push(t),
            None => block_texts(blocks.drop_last()),
        }
    }
}

/// The texts of the blocks of text, in order.
pub fn texts_of_blocks(blocks: &Vec<Json>) -> (r: Vec<String>)
    ensures
        r.deep_view() == block_texts(blocks.deep_view()),
{
    let ghost all = blocks.deep_view();
    let mut out: Vec<String> = Vec::new();
    let mut i: usize = 0;
    assert(all.take(0) =~= Seq::<JsonView>::empty());
    assert(out.deep_view() =~= Seq::<Seq<char>>::empty());
    while i < blocks.len()
        invariant
            i <= blocks.len(),
            all == blocks.deep_view(),
            out.deep_view() == block_texts(all.take(i as int)),
        decreases blocks.len() - i,
    {
        assert(all.take(i + 1).drop_last() =~= all.take(i as int));
        assert(all.take(i + 1).last() == blocks@[i as int]@);
        let ghost before = out.deep_view();
        match text_of_block(&blocks[i]) {
            Some(t) => {
                out.push(t.to_string());
                assert(out.deep_view() =~= before.push(t@));
            },
            None => {},
        }
        i += 1;
    }
    assert(all.take(i as int) =~= all);
    out
}

/// A text with a space for each newline.
pub open spec fn on_one_line(s: Seq<char>) -> Seq<char> {
    s.map_values(
        |c: char|
            if c == '\n' {
                ' '
            } else {
                c
            },
    )
}

/// A text with a space for each newline.
pub fn put_on_one_line(s: &str) -> (r: String)
    ensures
        r@ == on_one_line(s@),
{
    let chars = chars_of(s);
    let mut out = String::new();
    let mut i: usize = 0;
    while i < chars.len()
        invariant
            i <= chars.len(),
            chars@ == s@,
            out@ == on_one_line(s@.take(i as int)),
        decreases chars.len() - i,
    {
        let c: char = chars[i];
        if c == '\n' {
            out.push(' ');
        } else {
            out.push(c);
        }
        assert(out@ =~= on_one_line(s@.take(i + 1)));
        i += 1;
    }
    assert(s@.take(i as int) =~= s@);
    out
}

/// Texts, each with a space for each newline.
pub open spec fn on_one_line_each(texts: Seq<Seq<char>>) -> Seq<Seq<char>> {
    texts.map_values(|t: Seq<char>| on_one_line(t))
}

/// Texts, each with a space for each newline.
pub fn put_each_on_one_line(texts: &Vec<String>) -> (r: Vec<String>)
    ensures
        r.deep_view() == on_one_line_each(texts.deep_view()),
{
    let mut out: Vec<String> = Vec::new();
    let mut i: usize = 0;
    while i < texts.len()
        invariant
            i <= texts.len(),
            out.len() == i,
            forall|j: int| 0 <= j < i ==> (#[trigger] out@[j])@ == on_one_line(texts@[j]@),
        decreases texts.len() - i,
    {
        out.push(put_on_one_line(texts[i].as_str()));
        i += 1;
    }
    assert(out.deep_view() =~= on_one_line_each(texts.deep_view()));
    out
}

/// Characters that the title of a session may have.
pub const MAX_TITLE_LEN: usize = 80;

/// A text as a title: its beginning up to a space, where it is long.
pub open spec fn titled(text: Seq<char>) -> Seq<char> {
    let t = trimmed(text);
    if t.len() <= MAX_TITLE_LEN {
        t
    } else {
        let cut = match last_index_before(t, ' ', MAX_TITLE_LEN as int) {
            Some(i) => i,
            None => MAX_TITLE_LEN as int,
        };
        t.take(cut) + "..."@
    }
}

/// A text as a title: its beginning up to a space, where it is long.
pub fn truncate_title(text: &str) -> (r: String)
    ensures
        r@ == titled(text@),
{
    let t = trim(text);
    let chars = chars_of(t.as_str());
    if chars.len() <= MAX_TITLE_LEN {
        return t;
    }
    let cut: usize = match rfind_char(chars.as_slice(), ' ', MAX_TITLE_LEN) {
        Some(i) => i,
        None => MAX_TITLE_LEN,
    };
    let mut s = string_of(slice_subrange(chars.as_slice(), 0, cut));
    assert(s@ =~= t@.take(cut as int));
    s.append("...");
    s
}

/// A title has at most eighty characters, and three dots where something was cut off.
pub proof fn titles_are_short(text: Seq<char>)
    ensures
        titled(text).len() <= MAX_TITLE_LEN + 3,
        trimmed(text).len() > MAX_TITLE_LEN ==> has_suffix(titled(text), "..."@),
{
    reveal_strlit("...");
    let t = trimmed(text);
    if t.len() > MAX_TITLE_LEN {
        last_index_is_before(t, ' ', MAX_TITLE_LEN as int);
        let cut = match last_index_before(t, ' ', MAX_TITLE_LEN as int) {
            Some(i) => i,
            None => MAX_TITLE_LEN as int,
        };
        assert(titled(text).skip(cut) =~= "..."@);
    }
}

proof fn last_index_is_before(s: Seq<char>, c: char, end: int)
    requires
        0 <= end <= s.len(),
    ensures
        last_index_before(s, c, end) matches Some(i) ==> 0 <= i < end,
    decreases end,
{
    if end > 0 && s[end - 1] != c {
        last_index_is_before(s, c, end - 1);
    }
}

/// What is read of a file is what its lines hold. Gives the line of an entry.
pub proof fn entries_are_lines(lines: Seq<Seq<char>>, k: int) -> (i: int)
    requires
        0 <= k < entries_in(lines).len(),
    ensures
        0 <= i < lines.len(),
        json_in(lines[i]) == Some(entries_in(lines)[k]),
        trimmed(lines[i]).len() > 0,
    decreases lines.len(),
{
    let rest = lines.drop_last();
    if k < entries_in(rest).len() {
        entries_are_lines(rest, k)
    } else {
        lines.len() - 1
    }
}

/// Lines are read one after the other: one that can be read adds what it holds, and any
/// other adds nothing.
pub proof fn lines_are_read_in_order(lines: Seq<Seq<char>>, line: Seq<char>)
    ensures
        trimmed(line).len() > 0 && json_in(line) is Some ==> entries_in(lines.push(line))
            == entries_in(lines).push(json_in(line)->0),
        trimmed(line).len() == 0 || json_in(line) is None ==> entries_in(lines.push(line))
            == entries_in(lines),
{
    assert(lines.push(line).drop_last() =~= lines);
}

/// What is told first is told by an entry before which nothing is told. Gives which.
pub proof fn the_first_that_tells_counts<T>(
    entries: Seq<JsonView>,
    tell: spec_fn(JsonView) -> Option<T>,
) -> (i: int)
    ensures
        match first_told(entries, tell) {
            Some(t) => 0 <= i < entries.len() && tell(entries[i]) == Some(t) && forall|j: int|
                0 <= j < i ==> tell(#[trigger] entries[j]) is None,
            None => forall|j: int| 0 <= j < entries.len() ==> tell(#[trigger] entries[j]) is None,
        },
    decreases entries.len(),
{
    if entries.len() == 0 {
        0
    } else {
        let rest = entries.drop_last();
        let i = the_first_that_tells_counts(rest, tell);
        assert(forall|j: int| 0 <= j < rest.len() ==> rest[j] == #[trigger] entries[j]);
        if first_told(rest, tell) is Some {
            i
        } else {
            entries.len() - 1
        }
    }
}

/// What is told last is told by an entry behind which nothing is told. Gives which.
pub proof fn the_last_that_tells_counts<T>(
    entries: Seq<JsonView>,
    tell: spec_fn(JsonView) -> Option<T>,
) -> (i: int)
    ensures
        match last_told(entries, tell) {
            Some(t) => 0 <= i < entries.len() && tell(entries[i]) == Some(t) && forall|j: int|
                i < j < entries.len() ==> tell(#[trigger] entries[j]) is None,
            None => forall|j: int| 0 <= j < entries.len() ==> tell(#[trigger] entries[j]) is None,
        },
    decreases entries.len(),
{
    if entries.len() == 0 {
        0
    } else if tell(entries.last()) is Some {
        entries.len() - 1
    } else {
        let rest = entries.drop_last();
        let i = the_last_that_tells_counts(rest, tell);
        assert(forall|j: int| 0 <= j < rest.len() ==> rest[j] == #[trigger] entries[j]);
        i
    }
}

/// Counts add up over the entries.
pub proof fn counts_add_up(
    entries: Seq<JsonView>,
    entry: JsonView,
    count: spec_fn(JsonView) -> nat,
)
    ensures
        counted(Seq::empty(), count) == 0,
        counted(entries.push(entry), count) == counted(entries, count) + count(entry),
{
    assert(entries.push(entry).drop_last() =~= entries);
}

/// A message is told by an entry of that type, a text by a block of that type, and a time
/// by any entry that has one.
pub proof fn entries_tell_messages_and_times(entry: JsonView)
    ensures
        message_in(entry) is Some <==> entry.get_str("type"@) == Some("message"@) && entry.get(
            "message"@,
        ) is Some,
        message_in(entry) is Some ==> message_in(entry) == entry.get("message"@),
        block_text(entry) is Some <==> entry.get_str("type"@) == Some("text"@) && entry.get_str(
            "text"@,
        ) is Some,
        block_text(entry) is Some ==> block_text(entry) == entry.get_str("text"@),
        entry_time(entry) matches Some(t) ==> entry.get_str("timestamp"@) is Some
            && rfc3339_instant(entry.get_str("timestamp"@)->0) == Some(t),
        entry.get_str("timestamp"@) matches Some(text) ==> entry_time(entry) == rfc3339_instant(
            text,
        ),
{
}

/// Blocks give their texts one after the other; other blocks give none.
pub proof fn texts_of_blocks_are_in_order(blocks: Seq<JsonView>, block: JsonView)
    ensures
        block.get_str("type"@) == Some("text"@) && block.get_str("text"@) is Some ==> block_texts(
            blocks.push(block),
        ) == block_texts(blocks).push(block.get_str("text"@)->0),
        block.get_str("type"@) != Some("text"@) || block.get_str("text"@) is None ==> block_texts(
            blocks.push(block),
        ) == block_texts(blocks),
{
    assert(blocks.push(block).drop_last() =~= blocks);
}

/// A text on one line has blanks for its line ends and is otherwise as it was.
pub proof fn one_line_has_no_line_ends(s: Seq<char>, i: int)
    requires
        0 <= i < s.len(),
    ensures
        on_one_line(s).len() == s.len(),
        on_one_line(s)[i] != '\n',
        s[i] == '\n' ==> on_one_line(s)[i] == ' ',
        s[i] != '\n' ==> on_one_line(s)[i] == s[i],
{
}

/// A title is the text without the blanks around it, of up to eighty signs; of a longer
/// one it is what comes before the last blank among those, and that there is more.
pub proof fn titles_begin_the_text(text: Seq<char>) -> (cut: int)
    ensures
        trimmed(text).len() <= 80 ==> titled(text) == trimmed(text),
        trimmed(text).len() > 80 ==> {
            &&& 0 <= cut <= 80
            &&& titled(text) == trimmed(text).take(cut) + seq!['.', '.', '.']
            &&& cut < 80 ==> trimmed(text)[cut] == ' '
            &&& forall|i: int| cut < i < 80 ==> #[trigger] trimmed(text)[i] != ' '
            &&& cut == 80 ==> forall|i: int| 0 <= i < 80 ==> #[trigger] trimmed(text)[i] != ' '
        },
{
    reveal_strlit("...");
    assert("..."@ =~= seq!['.', '.', '.']);
    let t = trimmed(text);
    if t.len() > 80 {
        last_index_is_last(t, ' ', 80);
        match last_index_before(t, ' ', 80) {
            Some(i) => i,
            None => 80,
        }
    } else {
        0
    }
}

proof fn last_index_is_last(s: Seq<char>, c: char, end: int)
    requires
        0 <= end <= s.len(),
    ensures
        match last_index_before(s, c, end) {
            Some(i) => 0 <= i < end && s[i] == c && forall|j: int|
                i < j < end ==> #[trigger] s[j] != c,
            None => forall|j: int| 0 <= j < end ==> #[trigger] s[j] != c,
        },
    decreases end,
{
    if end > 0 && s[end - 1] != c {
        last_index_is_last(s, c, end - 1);
    }
}

} // verus!
