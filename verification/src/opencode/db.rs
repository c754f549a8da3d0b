//! The database of OpenCode: its rows, and what they say.

use crate::json::{Json, JsonView, json_in, json_text, member, parse_json, print_json};
use crate::opencode::parts::{
    contains_needle, edits_file, is_kind, part_contains_needle, part_edits_file,
};
use crate::paths::{absolute, below, is_absolute, join_path, resolve_path, resolved};
use crate::session_detect::filters::{CriterionView, FilterCriterion, FilterView, SessionFilter};
use crate::text::{has_prefix, starts_with, str_eq};
use vstd::prelude::*;

verus! {

/// Where the database is, below the data directory.
pub fn db_path(data_dir: &str) -> (r: String)
    ensures
        r@ == below(data_dir@, "opencode.db"@),
{
    join_path(data_dir, "opencode.db")
}

/// How many rows were deleted with a session.
#[derive(Clone, Copy, PartialEq, Eq, Structural, Debug)]
pub struct DbDeleteReport {
    pub session_rows: usize,
    pub message_rows: usize,
    pub part_rows: usize,
}

impl Default for DbDeleteReport {
    fn default() -> (r: DbDeleteReport)
        ensures
            r == (DbDeleteReport { session_rows: 0, message_rows: 0, part_rows: 0 }),
    {
        DbDeleteReport { session_rows: 0, message_rows: 0, part_rows: 0 }
    }
}

impl DbDeleteReport {
    /// How many rows were deleted in all.
    pub fn total(&self) -> (r: usize)
        requires
            self.session_rows + self.message_rows + self.part_rows <= usize::MAX,
        ensures
            r == self.session_rows + self.message_rows + self.part_rows,
    {
        self.session_rows + self.message_rows + self.part_rows
    }
}

/// Whether one of the parts contains a text.
pub open spec fn any_part_contains(parts: Seq<JsonView>, needle: Seq<char>) -> bool {
    exists|i: int| 0 <= i < parts.len() && contains_needle(#[trigger] parts[i], needle)
}

/// Whether a part of one of the messages contains a text.
pub open spec fn any_message_contains(messages: Seq<Seq<JsonView>>, needle: Seq<char>) -> bool {
    exists|i: int| 0 <= i < messages.len() && any_part_contains(#[trigger] messages[i], needle)
}

/// Whether one of the parts of a session contains a text.
pub fn session_contains_text_from_db(parts: &Vec<Json>, needle: &str) -> (r: bool)
    ensures
        r == any_part_contains(parts.deep_view(), needle@),
{
    let ghost all = parts.deep_view();
    let mut i: usize = 0;
    while i < parts.len()
        invariant
            i <= parts.len(),
            all == parts.deep_view(),
            forall|j: int| 0 <= j < i ==> !contains_needle(#[trigger] all[j], needle@),
        decreases parts.len() - i,
    {
        assert(all[i as int] == parts@[i as int]@);
        if part_contains_needle(&parts[i], needle) {
            return true;
        }
        i += 1;
    }
    false
}

/// Whether a part of one of the last messages of a session contains a text.
pub fn session_tail_contains_text_from_db(messages: &Vec<Vec<Json>>, needle: &str) -> (r: bool)
    ensures
        r == any_message_contains(messages.deep_view(), needle@),
{
    let ghost all = messages.deep_view();
    let mut i: usize = 0;
    while i < messages.len()
        invariant
            i <= messages.len(),
            all == messages.deep_view(),
            forall|j: int| 0 <= j < i ==> !any_part_contains(#[trigger] all[j], needle@),
        decreases messages.len() - i,
    {
        assert(all[i as int] == messages@[i as int].deep_view());
        if session_contains_text_from_db(&messages[i], needle) {
            return true;
        }
        i += 1;
    }
    false
}

/// Whether one of the parts wrote a file.
pub open spec fn any_part_edits(parts: Seq<JsonView>, target: Seq<char>) -> bool {
    exists|i: int| 0 <= i < parts.len() && edits_file(#[trigger] parts[i], target)
}

/// Whether one of the parts of a session wrote a file.
pub fn session_edited_file_from_db(parts: &Vec<Json>, target_path: &str) -> (r: bool)
    ensures
        r == any_part_edits(parts.deep_view(), target_path@),
{
    let ghost all = parts.deep_view();
    let mut i: usize = 0;
    while i < parts.len()
        invariant
            i <= parts.len(),
            all == parts.deep_view(),
            forall|j: int| 0 <= j < i ==> !edits_file(#[trigger] all[j], target_path@),
        decreases parts.len() - i,
    {
        assert(all[i as int] == parts@[i as int]@);
        if part_edits_file(&parts[i], target_path) {
            return true;
        }
        i += 1;
    }
    false
}

/// The value that a criterion asks of a tool field. A relative path is taken from
/// the project of the session.
pub open spec fn asked_value(field: Seq<char>, value: Seq<char>, project: Seq<char>) -> Seq<char> {
    if (field == "filePath"@ || field == "path"@) && value.len() > 0 && !absolute(value) {
        resolved(value, project)
    } else {
        value
    }
}

/// The tool of a part, or the empty text.
pub open spec fn tool_of(part: JsonView) -> Seq<char> {
    match part.get_str("tool"@) {
        Some(tool) => tool,
        None => Seq::empty(),
    }
}

/// Whether a value begins with a text: a string by its characters, any other
/// value as printed.
pub open spec fn value_begins(v: JsonView, prefix: Seq<char>) -> bool {
    match v.as_str() {
        Some(s) => has_prefix(s, prefix),
        None => has_prefix(json_text(v), prefix),
    }
}

/// The field of the input of a part.
pub open spec fn input_field(part: JsonView, field: Seq<char>) -> Option<JsonView> {
    match part.get2("state"@, "input"@) {
        Some(input) => input.get(field),
        None => None,
    }
}

/// Whether a part is a call of a tool whose field begins with a text.
pub open spec fn field_begins(
    part: JsonView,
    tool: Seq<char>,
    field: Seq<char>,
    prefix: Seq<char>,
) -> bool {
    &&& part.get_str("type"@) == Some("tool"@)
    &&& tool_of(part) == tool
    &&& input_field(part, field) matches Some(v)
    &&& value_begins(v, prefix)
}

/// Whether one of the parts meets a criterion.
pub open spec fn criterion_met(
    parts: Seq<JsonView>,
    criterion: CriterionView,
    project: Seq<char>,
) -> bool {
    match criterion {
        CriterionView::TextContains(needle) => exists|i: int|
            0 <= i < parts.len() && contains_needle(#[trigger] parts[i], needle),
        CriterionView::ToolFieldEquals { tool_name, field, value } => exists|i: int|
            0 <= i < parts.len() && field_begins(
                #[trigger] parts[i],
                tool_name,
                field,
                asked_value(field, value, project),
            ),
    }
}

/// Whether the parts meet all criteria.
pub open spec fn criteria_met(
    parts: Seq<JsonView>,
    criteria: Seq<CriterionView>,
    project: Seq<char>,
) -> bool {
    forall|i: int|
        0 <= i < criteria.len() ==> criterion_met(parts, #[trigger] criteria[i], project)
}

fn any_contains_needle(parts: &Vec<Json>, needle: &str) -> (r: bool)
    ensures
        r == criterion_met(
            parts.deep_view(),
            CriterionView::TextContains(needle@),
            Seq::<char>::empty(),
        ),
{
    let ghost all = parts.deep_view();
    let mut i: usize = 0;
    while i < parts.len()
        invariant
            i <= parts.len(),
            all == parts.deep_view(),
            forall|j: int| 0 <= j < i ==> !contains_needle(#[trigger] all[j], needle@),
        decreases parts.len() - i,
    {
        assert(all[i as int] == parts@[i as int]@);
        if part_contains_needle(&parts[i], needle) {
            return true;
        }
        i += 1;
    }
    false
}

fn part_field_begins(part: &Json, tool: &str, field: &str, prefix: &str) -> (r: bool)
    ensures
        r == field_begins(part@, tool@, field@, prefix@),
{
    if !is_kind(part, "tool") {
        return false;
    }
    let same_tool = match part.get_str("tool") {
        Some(t) => str_eq(t, tool),
        None => {
            assert(tool@.len() == 0 ==> tool@ =~= Seq::<char>::empty());
            tool.is_empty()
        },
    };
    if !same_tool {
        return false;
    }
    let value = match part.get2("state", "input") {
        Some(input) => input.get(field),
        None => None,
    };
    match value {
        Some(v) => match v.as_str() {
            Some(s) => starts_with(s, prefix),
            None => starts_with(print_json(v).as_str(), prefix),
        },
        None => false,
    }
}

fn any_field_begins(parts: &Vec<Json>, tool: &str, field: &str, prefix: &str) -> (r: bool)
    ensures
        r == exists|i: int|
            0 <= i < parts.deep_view().len() && field_begins(
                #[trigger] parts.deep_view()[i],
                tool@,
                field@,
                prefix@,
            ),
{
    let ghost all = parts.deep_view();
    let mut i: usize = 0;
    while i < parts.len()
        invariant
            i <= parts.len(),
            all == parts.deep_view(),
            forall|j: int|
                0 <= j < i ==> !field_begins(#[trigger] all[j], tool@, field@, prefix@),
        decreases parts.len() - i,
    {
        assert(all[i as int] == parts@[i as int]@);
        if part_field_begins(&parts[i], tool, field, prefix) {
            return true;
        }
        i += 1;
    }
    false
}

/// Whether the parts meet all criteria of a message.
pub fn message_parts_match_criteria(
    parts: &Vec<Json>,
    criteria: &Vec<FilterCriterion>,
    project_dir: &str,
) -> (r: bool)
    ensures
        r == criteria_met(parts.deep_view(), criteria.deep_view(), project_dir@),
{
    let ghost all = criteria.deep_view();
    let mut i: usize = 0;
    while i < criteria.len()
        invariant
            i <= criteria.len(),
            all == criteria.deep_view(),
            forall|j: int|
                0 <= j < i ==> criterion_met(parts.deep_view(), #[trigger] all[j], project_dir@),
        decreases criteria.len() - i,
    {
        assert(all[i as int] == criteria@[i as int]@);
        let met = match &criteria[i] {
            FilterCriterion::TextContains(needle) => any_contains_needle(parts, needle.as_str()),
            FilterCriterion::ToolFieldEquals { tool_name, field, value } => {
                let wanted = if (str_eq(field.as_str(), "filePath") || str_eq(
                    field.as_str(),
                    "path",
                )) && !value.as_str().is_empty() && !is_absolute(value.as_str()) {
                    resolve_path(value.as_str(), project_dir)
                } else {
                    value.clone()
                };
                any_field_begins(parts, tool_name.as_str(), field.as_str(), wanted.as_str())
            },
        };
        if !met {
            return false;
        }
        i += 1;
    }
    true
}

/// All parts of the messages, one after the other.
pub open spec fn all_parts(messages: Seq<Seq<JsonView>>) -> Seq<JsonView>
    decreases messages.len(),
{
    if messages.len() == 0 {
        Seq::empty()
    } else {
        all_parts(messages.drop_last()) + messages.last()
    }
}

/// Whether the parts of the messages together meet all filters. Without a message
/// nothing is met.
pub open spec fn filters_met(
    messages: Seq<Seq<JsonView>>,
    filters: Seq<FilterView>,
    project: Seq<char>,
) -> bool {
    messages.len() > 0 && forall|i: int|
        0 <= i < filters.len() ==> criteria_met(
            all_parts(messages),
            (#[trigger] filters[i]).criteria,
            project,
        )
}

fn pool_parts(messages: &Vec<Vec<Json>>) -> (r: Vec<Json>)
    ensures
        r.deep_view() == all_parts(messages.deep_view()),
{
    let ghost all = messages.deep_view();
    let mut out: Vec<Json> = Vec::new();
    let mut i: usize = 0;
    assert(out.deep_view() =~= Seq::<JsonView>::empty());
    assert(all.take(0) =~= Seq::<Seq<JsonView>>::empty());
    while i < messages.len()
        invariant
            i <= messages.len(),
            all == messages.deep_view(),
            out.deep_view() == all_parts(all.take(i as int)),
        decreases messages.len() - i,
    {
        let ghost before = out.deep_view();
        let ghost parts = messages@[i as int].deep_view();
        let mut k: usize = 0;
        assert(before + parts.take(0) =~= before);
        while k < messages[i as usize].len()
            invariant
                i < messages.len(),
                k <= messages@[i as int].len(),
                parts == messages@[i as int].deep_view(),
                out.deep_view() == before + parts.take(k as int),
            decreases messages@[i as int].len() - k,
        {
            let ghost so_far = out.deep_view();
            let part = messages[i][k].duplicate();
            out.push(part);
            assert(out.deep_view() =~= so_far.push(parts[k as int]));
            assert(parts.take(k + 1) =~= parts.take(k as int).push(parts[k as int]));
            k += 1;
        }
        assert(parts.take(k as int) =~= parts);
        assert(all.take(i + 1).drop_last() =~= all.take(i as int));
        assert(all.take(i + 1).last() == parts);
        i += 1;
    }
    assert(all.take(i as int) =~= all);
    out
}

/// Whether the last messages of a session meet all filters. One answer of an
/// agent spreads over several messages, so the parts of all of them count.
pub fn session_matches_filters(
    messages: &Vec<Vec<Json>>,
    filters: &Vec<SessionFilter>,
    project_dir: &str,
) -> (r: bool)
    ensures
        r == filters_met(messages.deep_view(), filters.deep_view(), project_dir@),
{
    if messages.len() == 0 {
        return false;
    }
    let parts = pool_parts(messages);
    let ghost all = filters.deep_view();
    let mut i: usize = 0;
    while i < filters.len()
        invariant
            i <= filters.len(),
            all == filters.deep_view(),
            parts.deep_view() == all_parts(messages.deep_view()),
            forall|j: int|
                0 <= j < i ==> criteria_met(
                    all_parts(messages.deep_view()),
                    (#[trigger] all[j]).criteria,
                    project_dir@,
                ),
        decreases filters.len() - i,
    {
        assert(all[i as int] == filters@[i as int]@);
        if !message_parts_match_criteria(&parts, &filters[i].criteria, project_dir) {
            return false;
        }
        i += 1;
    }
    true
}

/// The documents among texts that are JSON, in order.
pub open spec fn documents(texts: Seq<Seq<char>>) -> Seq<JsonView>
    decreases texts.len(),
{
    if texts.len() == 0 {
        Seq::empty()
    } else {
        match json_in(texts.last()) {
            Some(v) => documents(texts.drop_last()).push(v),
            None => documents(texts.drop_last()),
        }
    }
}

/// The documents among the stored texts; one that is not JSON is passed over.
pub fn parse_rows(rows: &Vec<String>) -> (r: Vec<Json>)
    ensures
        r.deep_view() == documents(rows.deep_view()),
{
    let ghost all = rows.deep_view();
    let mut out: Vec<Json> = Vec::new();
    let mut i: usize = 0;
    assert(out.deep_view() =~= Seq::<JsonView>::empty());
    assert(all.take(0) =~= Seq::<Seq<char>>::empty());
    while i < rows.len()
        invariant
            i <= rows.len(),
            all == rows.deep_view(),
            out.deep_view() == documents(all.take(i as int)),
        decreases rows.len() - i,
    {
        assert(all.take(i + 1).drop_last() =~= all.take(i as int));
        assert(all.take(i + 1).last() == rows@[i as int]@);
        let ghost before = out.deep_view();
        match parse_json(rows[i].as_str()) {
            Some(v) => {
                out.push(v);
                assert(out.deep_view() =~= before.push(v@));
            },
            None => {},
        }
        i += 1;
    }
    assert(all.take(i as int) =~= all);
    out
}

/// A message that names itself: an object without the member `id` gets it, and so
/// does an empty record.
pub open spec fn with_id(message: JsonView, id: Seq<char>) -> JsonView {
    match message {
        JsonView::Object(members) => if member(members, "id"@) is None {
            JsonView::Object(members.push(("id"@, JsonView::Str(id))))
        } else {
            message
        },
        JsonView::Null => JsonView::Object(seq![("id"@, JsonView::Str(id))]),
        _ => message,
    }
}

/// A message that names itself. Only an object can, or a record that is empty.
pub fn inject_id(message: Json, id: &str) -> (r: Json)
    requires
        message@ is Object || message@ is Null,
    ensures
        r@ == with_id(message@, id@),
{
    if message.get("id").is_some() {
        return message;
    }
    let name = ("id".to_owned(), Json::Str(id.to_owned()));
    let ghost name_view = (name.0@, name.1@);
    assert(name_view == ("id"@, JsonView::Str(id@)));
    match message {
        Json::Object(members) => {
            let ghost had = Json::Object(members)@->Object_0;
            let ghost before = members@;
            let mut members = members;
            members.push(name);
            let r = Json::Object(members);
            assert(members@ == before.push(name));
            assert(r@->Object_0 =~= had.push(name_view));
            r
        },
        _ => {
            let r = Json::Object(vec![name]);
            assert(r@->Object_0 =~= seq![name_view]);
            r
        },
    }
}

proof fn new_members_are_found(members: Seq<(Seq<char>, JsonView)>, key: Seq<char>, value: JsonView)
    requires
        member(members, key) is None,
    ensures
        member(members.push((key, value)), key) == Some(value),
    decreases members.len(),
{
    let more = members.push((key, value));
    if members.len() > 0 {
        assert(more.skip(1) =~= members.skip(1).push((key, value)));
        new_members_are_found(members.skip(1), key, value);
    }
}

/// A message that was given an identifier names one.
pub proof fn messages_name_themselves(message: JsonView, id: Seq<char>)
    requires
        message is Object || message is Null,
    ensures
        with_id(message, id).get("id"@) is Some,
        message.get("id"@) is Some ==> with_id(message, id) == message,
        message.get("id"@) is None ==> with_id(message, id).get_str("id"@) == Some(id),
{
    match message {
        JsonView::Object(members) => {
            if member(members, "id"@) is None {
                new_members_are_found(members, "id"@, JsonView::Str(id));
            }
        },
        _ => {},
    }
}

/// A tool call of a part meets a criterion on its field where the part is a use of that
/// tool and the field of what it was given begins with the value.
pub proof fn fields_begin_with_what_is_asked(
    part: JsonView,
    tool: Seq<char>,
    field: Seq<char>,
    prefix: Seq<char>,
)
    ensures
        field_begins(part, tool, field, prefix) ==> {
            &&& part.get_str("type"@) == Some("tool"@)
            &&& tool.len() > 0 ==> part.get_str("tool"@) == Some(tool)
            &&& part.get("state"@) is Some
            &&& part.get("state"@)->0.get("input"@) is Some
            &&& part.get("state"@)->0.get("input"@)->0.get(field) is Some
        },
        part.get_str("type"@) == Some("tool"@) && part.get_str("tool"@) == Some(tool) && (part.get(
            "state"@,
        ) matches Some(state) && (state.get("input"@) matches Some(input) && (input.get_str(
            field,
        ) matches Some(text) && text.len() >= prefix.len() && text.take(prefix.len() as int)
            == prefix))) ==> field_begins(part, tool, field, prefix),
        field_begins(part, tool, field, prefix) && (part.get("state"@)->0.get(
            "input"@,
        )->0.get_str(field) matches Some(text)) ==> part.get("state"@)->0.get("input"@)->0.get_str(
            field,
        )->0.take(prefix.len() as int) == prefix,
{
}

/// A path that is asked for is taken from the project on, unless it is absolute; any other
/// value is asked for as it is.
pub proof fn asked_paths_are_of_the_project(
    field: Seq<char>,
    value: Seq<char>,
    project: Seq<char>,
)
    ensures
        (field == "filePath"@ || field == "path"@) && value.len() > 0 && value[0] != '/'
            ==> asked_value(field, value, project) == resolved(value, project),
        value.len() > 0 && value[0] == '/' ==> asked_value(field, value, project) == value,
        field != "filePath"@ && field != "path"@ ==> asked_value(field, value, project) == value,
        value.len() == 0 ==> asked_value(field, value, project) == value,
{
}

/// A criterion is met by one part; criteria are met where each is, if by different parts.
/// Gives the part.
pub proof fn criteria_are_met_by_parts(
    parts: Seq<JsonView>,
    criteria: Seq<CriterionView>,
    project: Seq<char>,
    k: int,
) -> (i: int)
    requires
        criteria_met(parts, criteria, project),
        0 <= k < criteria.len(),
    ensures
        0 <= i < parts.len(),
        criteria[k] matches CriterionView::TextContains(needle) ==> contains_needle(
            parts[i],
            needle,
        ),
        criteria[k] matches CriterionView::ToolFieldEquals { tool_name, field, value }
            ==> field_begins(
            parts[i],
            tool_name,
            field,
            asked_value(field, value, project),
        ),
{
    assert(criterion_met(parts, criteria[k], project));
    match criteria[k] {
        CriterionView::TextContains(needle) => choose|i: int|
            0 <= i < parts.len() && contains_needle(#[trigger] parts[i], needle),
        CriterionView::ToolFieldEquals { tool_name, field, value } => choose|i: int|
            0 <= i < parts.len() && field_begins(
                #[trigger] parts[i],
                tool_name,
                field,
                asked_value(field, value, project),
            ),
    }
}

/// A session without messages meets no filters, and every filter is met by the parts of
/// all its messages together.
pub proof fn filters_are_met_by_all_parts(
    messages: Seq<Seq<JsonView>>,
    filters: Seq<FilterView>,
    project: Seq<char>,
    k: int,
)
    requires
        0 <= k < filters.len(),
    ensures
        filters_met(messages, filters, project) ==> criteria_met(
            all_parts(messages),
            filters[k].criteria,
            project,
        ),
        messages.len() == 0 ==> !filters_met(messages, filters, project),
        messages.len() > 0 && (forall|i: int|
            0 <= i < filters.len() ==> criteria_met(
                all_parts(messages),
                (#[trigger] filters[i]).criteria,
                project,
            )) ==> filters_met(messages, filters, project),
{
}

/// The parts of all messages are the parts of each. Gives where a part of a message is.
pub proof fn all_parts_are_gathered(messages: Seq<Seq<JsonView>>, m: int, p: int) -> (i: int)
    requires
        0 <= m < messages.len(),
        0 <= p < messages[m].len(),
    ensures
        0 <= i < all_parts(messages).len(),
        all_parts(messages)[i] == messages[m][p],
    decreases messages.len(),
{
    let rest = messages.drop_last();
    if m < rest.len() {
        all_parts_are_gathered(rest, m, p)
    } else {
        all_parts(rest).len() + p
    }
}

/// Rows that can be read are read in their order; others are passed over.
pub proof fn rows_are_read_in_order(rows: Seq<Seq<char>>, row: Seq<char>)
    ensures
        json_in(row) matches Some(v) ==> documents(rows.push(row)) == documents(rows).push(v),
        json_in(row) is None ==> documents(rows.push(row)) == documents(rows),
{
    assert(rows.push(row).drop_last() =~= rows);
}

/// Naming a message changes nothing else of it.
pub proof fn naming_keeps_the_rest(message: JsonView, id: Seq<char>, key: Seq<char>)
    requires
        message is Object,
        key != "id"@,
    ensures
        with_id(message, id).get(key) == message.get(key),
{
    match message {
        JsonView::Object(members) => {
            one_more_member(members, "id"@, JsonView::Str(id), key);
        },
        _ => {},
    }
}

proof fn one_more_member(
    members: Seq<(Seq<char>, JsonView)>,
    name: Seq<char>,
    v: JsonView,
    key: Seq<char>,
)
    requires
        key != name,
    ensures
        member(members.push((name, v)), key) == member(members, key),
    decreases members.len(),
{
    let more = members.push((name, v));
    reveal_with_fuel(member, 2);
    if members.len() == 0 {
        assert(more.skip(1) =~= Seq::<(Seq<char>, JsonView)>::empty());
        assert(more[0] == (name, v));
    } else {
        one_more_member(members.skip(1), name, v, key);
        assert(more.skip(1) =~= members.skip(1).push((name, v)));
    }
}

/// A text is found, and a file edited, where any part finds or edits it. Gives which part.
pub proof fn parts_answer_for_all(
    parts: Seq<JsonView>,
    text: Seq<char>,
    messages: Seq<Seq<JsonView>>,
) -> (i: int)
    ensures
        any_part_contains(parts, text) ==> 0 <= i < parts.len() && contains_needle(parts[i], text),
        (forall|k: int| 0 <= k < parts.len() ==> !contains_needle(#[trigger] parts[k], text))
            ==> !any_part_contains(parts, text),
        (forall|k: int| 0 <= k < parts.len() ==> !edits_file(#[trigger] parts[k], text))
            ==> !any_part_edits(parts, text),
        parts.len() > 0 && contains_needle(parts.last(), text) ==> any_part_contains(parts, text),
        parts.len() > 0 && edits_file(parts.last(), text) ==> any_part_edits(parts, text),
        any_part_contains(parts, text) ==> any_message_contains(messages.push(parts), text),
        any_message_contains(messages, text) ==> any_message_contains(messages.push(parts), text),
        any_message_contains(messages.push(parts), text) ==> any_part_contains(parts, text)
            || any_message_contains(messages, text),
{
    if parts.len() > 0 {
        assert(parts[parts.len() - 1] == parts.last());
    }
    let more = messages.push(parts);
    if any_part_contains(parts, text) {
        assert(more[messages.len() as int] == parts);
    }
    if any_message_contains(messages, text) {
        let m = choose|m: int|
            0 <= m < messages.len() && any_part_contains(#[trigger] messages[m], text);
        assert(more[m] == messages[m]);
    }
    if any_message_contains(more, text) {
        let m = choose|m: int| 0 <= m < more.len() && any_part_contains(#[trigger] more[m], text);
        if m < messages.len() {
            assert(messages[m] == more[m]);
        }
    }
    choose|i: int| 0 <= i < parts.len() && contains_needle(#[trigger] parts[i], text)
}

} // verus!
