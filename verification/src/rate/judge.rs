//! The judgement on the output of an agent.

use crate::opencode::nudge::reply_view;
use crate::opencode::run::{Launch, LaunchView, answer_text, extract_text_content, launched};
use crate::pi::run::{
    RunOptions, judged, request_task, run, start_view, task_args, task_end, task_follows,
    task_start, task_view,
};
use crate::pi::sanity::{AiTaskSpec, first_chars, take_chars};
use crate::text::{
    chars_of, contains_iff_found, contains_text, decimal, decimal_of, find_from, find_from_is_least,
    find_in, has_prefix, join, joined, lines_of, occurs_at, starts_with, string_of, trim,
    trim_start, trimmed, trimmed_start,
};
use crate::time::Timestamp;
use vstd::prelude::*;
use vstd::slice::slice_subrange;

verus! {

/// A judgement.
#[derive(Clone, Debug)]
pub struct JudgeRating {
    /// How many items of the checklist the output has.
    pub points: u32,
    /// How many items the checklist has.
    pub max_points: u32,
    pub test_name: String,
    /// The model that gave the output.
    pub agent_model: String,
    /// The model that judged it.
    pub judge_model: String,
    pub timestamp: Timestamp,
    /// All that the judge wrote.
    pub full_report: String,
}

/// The content of a judgement.
pub ghost struct RatingView {
    pub points: u32,
    pub max_points: u32,
    pub test_name: Seq<char>,
    pub agent_model: Seq<char>,
    pub judge_model: Seq<char>,
    pub timestamp: Timestamp,
    pub full_report: Seq<char>,
}

impl View for JudgeRating {
    type V = RatingView;

    open spec fn view(&self) -> RatingView {
        RatingView {
            points: self.points,
            max_points: self.max_points,
            test_name: self.test_name@,
            agent_model: self.agent_model@,
            judge_model: self.judge_model@,
            timestamp: self.timestamp,
            full_report: self.full_report@,
        }
    }
}

impl DeepView for JudgeRating {
    type V = RatingView;

    open spec fn deep_view(&self) -> RatingView {
        self.view()
    }
}

/// What stands at the head of a judgement.
#[derive(Clone, Debug)]
pub struct JudgeFrontmatter {
    pub points: u32,
    pub max_points: u32,
    pub test_name: String,
    pub agent_model: String,
    pub judge_model: String,
    pub timestamp: Timestamp,
}

/// The content of the head of a judgement.
pub ghost struct FrontView {
    pub points: u32,
    pub max_points: u32,
    pub test_name: Seq<char>,
    pub agent_model: Seq<char>,
    pub judge_model: Seq<char>,
    pub timestamp: Timestamp,
}

impl View for JudgeFrontmatter {
    type V = FrontView;

    open spec fn view(&self) -> FrontView {
        FrontView {
            points: self.points,
            max_points: self.max_points,
            test_name: self.test_name@,
            agent_model: self.agent_model@,
            judge_model: self.judge_model@,
            timestamp: self.timestamp,
        }
    }
}

impl DeepView for JudgeFrontmatter {
    type V = FrontView;

    open spec fn deep_view(&self) -> FrontView {
        self.view()
    }
}

/// The head of a judgement: what stands between its first three hyphens and the
/// next that begin a line.
pub open spec fn front_text(output: Seq<char>) -> Result<Seq<char>, Seq<char>> {
    let t = trimmed(output);
    if !has_prefix(t, "---"@) {
        Err(
            "Judge output missing YAML frontmatter. Expected output to start with '---'. Got: "@
                + first_chars(t, 50) + "..."@,
        )
    } else {
        match find_from(t.skip(3), "\n---"@, 0) {
            Some(end) => Ok(t.skip(3).take(end)),
            None => Err(
                "Judge output has unclosed YAML frontmatter. Expected closing '---' marker."@,
            ),
        }
    }
}

/// The head of a judgement.
pub fn extract_frontmatter(output: &str) -> (r: Result<String, String>)
    ensures
        reply_view(r) == front_text(output@),
{
    let t = trim(output);
    if !starts_with(t.as_str(), "---") {
        let mut e =
            "Judge output missing YAML frontmatter. Expected output to start with '---'. Got: ".to_string();
        e.append(take_chars(t.as_str(), 50).as_str());
        e.append("...");
        return Err(e);
    }
    proof {
        reveal_strlit("---");
    }
    let chars = chars_of(t.as_str());
    let n: usize = chars.len();
    let rest = slice_subrange(chars.as_slice(), 3, n);
    assert(rest@ =~= t@.skip(3));
    let mark = chars_of("\n---");
    match find_in(rest, mark.as_slice(), 0) {
        Some(end) => {
            let front = string_of(slice_subrange(rest, 0, end));
            assert(front@ =~= t@.skip(3).take(end as int));
            Ok(front)
        },
        None => Err(
            "Judge output has unclosed YAML frontmatter. Expected closing '---' marker.".to_string(),
        ),
    }
}

/// The judgement that a head and the whole output make: none with more points
/// than there are.
pub open spec fn rating_of(front: FrontView, output: Seq<char>) -> Result<RatingView, Seq<char>> {
    if front.points > front.max_points {
        Err(
            "Invalid rating: points ("@ + decimal(front.points as nat) + ") exceeds max_points ("@
                + decimal(front.max_points as nat) + ")"@,
        )
    } else {
        Ok(
            RatingView {
                points: front.points,
                max_points: front.max_points,
                test_name: front.test_name,
                agent_model: front.agent_model,
                judge_model: front.judge_model,
                timestamp: front.timestamp,
                full_report: output,
            },
        )
    }
}

/// A judgement, or what is wrong with it.
pub open spec fn rating_view(r: Result<JudgeRating, String>) -> Result<RatingView, Seq<char>> {
    match r {
        Ok(rating) => Ok(rating@),
        Err(e) => Err(e@),
    }
}

/// The judgement that a head and the whole output make.
pub fn make_rating(front: JudgeFrontmatter, output: &str) -> (r: Result<JudgeRating, String>)
    ensures
        rating_view(r) == rating_of(front@, output@),
{
    if front.points > front.max_points {
        let mut e = "Invalid rating: points (".to_string();
        e.append(decimal_of(front.points as u64).as_str());
        e.append(") exceeds max_points (");
        e.append(decimal_of(front.max_points as u64).as_str());
        e.append(")");
        return Err(e);
    }
    Ok(
        JudgeRating {
            points: front.points,
            max_points: front.max_points,
            test_name: front.test_name,
            agent_model: front.agent_model,
            judge_model: front.judge_model,
            timestamp: front.timestamp,
            full_report: output.to_string(),
        },
    )
}

/// Whether the head of a judgement may be read so.
pub open spec fn may_read_front<Y: Fn(&str) -> Option<JudgeFrontmatter>>(
    read: Y,
    text: Seq<char>,
    reply: Option<FrontView>,
) -> bool {
    exists|t: &str, r: Option<JudgeFrontmatter>| #[trigger]
        call_ensures(read, (t,), r) && t@ == text && r.deep_view() == reply
}

/// Whether a judgement comes of an output: its head is found, read so, and fits.
pub open spec fn rating_follows<Y: Fn(&str) -> Option<JudgeFrontmatter>>(
    output: Seq<char>,
    read: Y,
    front: Option<FrontView>,
    r: Result<RatingView, Seq<char>>,
) -> bool {
    match front_text(output) {
        Err(e) => r == Err::<RatingView, Seq<char>>(e),
        Ok(text) => {
            &&& may_read_front(read, trimmed(text), front)
            &&& match front {
                Some(f) => r == rating_of(f, output),
                None => r == Err::<RatingView, Seq<char>>(
                    "Failed to parse YAML frontmatter:\n"@ + text,
                ),
            }
        },
    }
}

/// The judgement in the output of a judge. `read` reads the head, which is YAML.
pub fn parse_judge_output<Y: Fn(&str) -> Option<JudgeFrontmatter>>(output: &str, read: Y) -> (r:
    Result<JudgeRating, String>)
    requires
        forall|t: &str| call_requires(read, (t,)),
    ensures
        exists|front: Option<FrontView>| #[trigger]
            rating_follows(output@, read, front, rating_view(r)),
{
    let text = match extract_frontmatter(output) {
        Ok(t) => t,
        Err(e) => {
            let r: Result<JudgeRating, String> = Err(e);
            assert(rating_follows(output@, read, None, rating_view(r)));
            return r;
        },
    };
    let inner = trim(text.as_str());
    let reply = read(inner.as_str());
    let ghost front = reply.deep_view();
    assert(may_read_front(read, trimmed(text@), front));
    match reply {
        Some(f) => {
            let r = make_rating(f, output);
            assert(rating_follows(output@, read, front, rating_view(r)));
            r
        },
        None => {
            let mut e = "Failed to parse YAML frontmatter:\n".to_string();
            e.append(text.as_str());
            let r: Result<JudgeRating, String> = Err(e);
            assert(rating_follows(output@, read, front, rating_view(r)));
            r
        },
    }
}

/// A judgement never has more points than there are, and keeps all of the output.
pub proof fn ratings_are_fair<Y: Fn(&str) -> Option<JudgeFrontmatter>>(
    output: Seq<char>,
    read: Y,
    front: Option<FrontView>,
    r: Result<RatingView, Seq<char>>,
)
    requires
        rating_follows(output, read, front, r),
    ensures
        r matches Ok(rating) ==> rating.points <= rating.max_points && rating.full_report == output,
{
}

/// Items as boxes to tick, one a line.
pub open spec fn boxes(items: Seq<Seq<char>>) -> Seq<char> {
    joined(items.map_values(|item: Seq<char>| "- [ ] "@ + item), "\n"@)
}

fn write_boxes(items: &Vec<String>) -> (r: String)
    ensures
        r@ == boxes(items.deep_view()),
{
    let ghost f = |item: Seq<char>| "- [ ] "@ + item;
    let mut out: Vec<String> = Vec::new();
    let mut i: usize = 0;
    while i < items.len()
        invariant
            i <= items.len(),
            out.len() == i,
            forall|j: int| 0 <= j < i ==> (#[trigger] out@[j])@ == "- [ ] "@ + items@[j]@,
        decreases items.len() - i,
    {
        let mut s = "- [ ] ".to_string();
        s.append(items[i].as_str());
        out.push(s);
        i += 1;
    }
    assert(out.deep_view() =~= items.deep_view().map_values(f));
    join(&out, "\n")
}

/// What a judge is told.
pub open spec fn judge_message(
    test_name: Seq<char>,
    agent_model: Seq<char>,
    judge_model: Seq<char>,
    checklist: Seq<Seq<char>>,
    agent_output: Seq<char>,
) -> Seq<char> {
    "## Test Metadata\n\n- Test name: "@ + test_name + "\n- Agent model: "@ + agent_model
        + "\n- Judge model: "@ + judge_model + "\n\n## Verification Checklist\n\n"@ + boxes(
        checklist,
    ) + "\n\n## Agent Output\n\n"@ + agent_output
        + "\n\n---\n\nNow provide your rating in the specified YAML format."@
}

/// What a judge is told: the test, the models, the checklist, and the output.
pub fn build_judge_message(
    test_name: &str,
    agent_model: &str,
    judge_model: &str,
    checklist: &Vec<String>,
    agent_output: &str,
) -> (r: String)
    ensures
        r@ == judge_message(
            test_name@,
            agent_model@,
            judge_model@,
            checklist.deep_view(),
            agent_output@,
        ),
{
    let mut s = "## Test Metadata\n\n- Test name: ".to_string();
    s.append(test_name);
    s.append("\n- Agent model: ");
    s.append(agent_model);
    s.append("\n- Judge model: ");
    s.append(judge_model);
    s.append("\n\n## Verification Checklist\n\n");
    s.append(write_boxes(checklist).as_str());
    s.append("\n\n## Agent Output\n\n");
    s.append(agent_output);
    s.append("\n\n---\n\nNow provide your rating in the specified YAML format.");
    s
}

/// What a complete judgement looks like.
pub const JUDGE_SHAPE: &'static str = "YAML frontmatter starting with '---'";

/// Whether an output begins like a judgement.
pub open spec fn begins_like_judgement(output: Seq<char>) -> bool {
    has_prefix(trimmed_start(output), "---"@)
}

/// The verdict on whether an output is complete.
pub open spec fn judge_verdict(output: Seq<char>) -> Result<(), Seq<char>> {
    if begins_like_judgement(output) {
        Ok(())
    } else {
        Err("output does not begin with YAML frontmatter '---'"@)
    }
}

/// Whether the output of a judge looks complete.
pub fn looks_like_judgement(output: &str) -> (r: Result<(), String>)
    ensures
        (match r {
            Ok(_) => Ok::<(), Seq<char>>(()),
            Err(e) => Err(e@),
        }) == judge_verdict(output@),
{
    if starts_with(trim_start(output).as_str(), "---") {
        Ok(())
    } else {
        Err("output does not begin with YAML frontmatter '---'".to_string())
    }
}

/// Whether a judgement was asked for, from one state of what the judge acts on to
/// another: where there is no start, nothing is done; else the judge was started
/// once and gave an output, which looked complete and was read so.
pub open spec fn judging_follows<
    W,
    S: Fn(W, &Vec<String>, u64) -> (W, Launch),
    Y: Fn(&str) -> Option<JudgeFrontmatter>,
>(
    begin: Result<(Seq<Seq<char>>, u64), Seq<char>>,
    doors: (S, Y),
    before: W,
    launch: LaunchView,
    front: Option<FrontView>,
    after: W,
    r: Result<RatingView, Seq<char>>,
) -> bool {
    match begin {
        Err(e) => after == before && r == Err::<RatingView, Seq<char>>(e),
        Ok((args, timeout_secs)) => {
            &&& launched(doors.0, before, args, timeout_secs, after, launch)
            &&& match task_end(launch, timeout_secs) {
                Err(e) => r == Err::<RatingView, Seq<char>>(e),
                Ok(res) => match judged(res, JUDGE_SHAPE@, judge_verdict(res.output)) {
                    Err(e) => r == Err::<RatingView, Seq<char>>(e),
                    Ok(res) => rating_follows(res.output, doors.1, front, r),
                },
            }
        },
    }
}

/// What is said where the instructions of the judge are missing.
pub open spec fn no_prompt(shown_path: Seq<char>) -> Seq<char> {
    "Judge prompt not found: "@ + shown_path
        + ".  Pass --judge-prompt or create the default at ~/.local/share/ai-audit/rate/judge-prompt.md."@
}

/// What a judge is asked.
pub struct JudgeRequest<'a> {
    /// The file with the instructions of the judge.
    pub prompt_path: &'a str,
    pub agent_output: &'a str,
    pub checklist: &'a Vec<String>,
    pub test_name: &'a str,
    pub agent_model: &'a str,
    pub judge_model: &'a str,
    pub timeout_secs: u64,
}

/// The arguments with which a judge is started.
pub open spec fn judge_args(q: JudgeRequest<'_>) -> Seq<Seq<char>> {
    task_args(
        judge_message(
            q.test_name@,
            q.agent_model@,
            q.judge_model@,
            q.checklist.deep_view(),
            q.agent_output@,
        ),
        q.prompt_path@,
        q.judge_model@,
        None,
        None,
    )
}

/// The start of a judge: the arguments and how many seconds it may take. There is
/// none where the instructions are missing.
pub open spec fn judge_start(q: JudgeRequest<'_>, prompt_exists: bool, shown_path: Seq<char>) -> Result<
    (Seq<Seq<char>>, u64),
    Seq<char>,
> {
    if prompt_exists {
        Ok((judge_args(q), q.timeout_secs))
    } else {
        Err(no_prompt(shown_path))
    }
}

fn judge_options<'a>(q: &'a JudgeRequest<'_>) -> (r: RunOptions<'a>)
    ensures
        r.model matches Some(m) && m@ == q.judge_model@,
        r.system_prompt is None,
        r.tools is None,
        r.timeout_secs == Some(q.timeout_secs),
{
    RunOptions {
        model: Some(q.judge_model),
        system_prompt: None,
        timeout_secs: Some(q.timeout_secs),
        tools: None,
        verbose: false,
    }
}

fn message_to_judge(q: &JudgeRequest<'_>) -> (r: String)
    ensures
        r@ == judge_message(
            q.test_name@,
            q.agent_model@,
            q.judge_model@,
            q.checklist.deep_view(),
            q.agent_output@,
        ),
{
    build_judge_message(q.test_name, q.agent_model, q.judge_model, q.checklist, q.agent_output)
}

/// The start of a judge: the arguments and how many seconds it may take.
/// `prompt_exists` tells whether the instructions are there, and `shown_path` how
/// their path is shown.
pub fn request_judgement(q: &JudgeRequest<'_>, prompt_exists: bool, shown_path: &str) -> (r: Result<
    (Vec<String>, u64),
    String,
>)
    ensures
        start_view(r) == judge_start(*q, prompt_exists, shown_path@),
{
    if !prompt_exists {
        let mut e = "Judge prompt not found: ".to_string();
        e.append(shown_path);
        e.append(
            ".  Pass --judge-prompt or create the default at ~/.local/share/ai-audit/rate/judge-prompt.md.",
        );
        return Err(e);
    }
    request_task(message_to_judge(q).as_str(), q.prompt_path, &judge_options(q))
}

/// Asks a judge for a judgement. `prompt_exists` tells whether the instructions
/// are there, and `shown_path` how their path is shown; `start` runs `pi` with
/// arguments for so many seconds; `read` reads the head of a judgement. `start` is
/// called once, and not without the instructions; `world` stands for what it acts
/// on.
pub fn invoke_judge<
    W,
    S: Fn(W, &Vec<String>, u64) -> (W, Launch),
    Y: Fn(&str) -> Option<JudgeFrontmatter>,
>(
    q: &JudgeRequest<'_>,
    prompt_exists: bool,
    shown_path: &str,
    world: W,
    start: S,
    read: Y,
) -> (r: (W, Result<JudgeRating, String>))
    requires
        forall|w: W, v: &Vec<String>, s: u64| call_requires(start, (w, v, s)),
        forall|t: &str| call_requires(read, (t,)),
    ensures
        exists|launch: LaunchView, front: Option<FrontView>| #[trigger]
            judging_follows(
                judge_start(*q, prompt_exists, shown_path@),
                (start, read),
                world,
                launch,
                front,
                r.0,
                rating_view(r.1),
            ),
{
    let ghost begin = judge_start(*q, prompt_exists, shown_path@);
    let ghost doors = (start, read);
    match request_judgement(q, prompt_exists, shown_path) {
        Ok(_) => {},
        Err(e) => {
            let r: (W, Result<JudgeRating, String>) = (world, Err(e));
            assert(judging_follows(
                begin,
                doors,
                world,
                LaunchView::NotFound,
                None,
                r.0,
                rating_view(r.1),
            ));
            return r;
        },
    }
    let message = message_to_judge(q);
    let options = judge_options(q);
    let looks_complete = |o: &str| -> (v: Result<(), String>)
        ensures
            (match v {
                Ok(_) => Ok::<(), Seq<char>>(()),
                Err(e) => Err(e@),
            }) == judge_verdict(o@),
        { looks_like_judgement(o) };
    let wanted = AiTaskSpec { shape: JUDGE_SHAPE, looks_complete };
    let (after, result) = run(message.as_str(), q.prompt_path, &options, &wanted, world, &start);
    let ghost (launch, verdict) = choose|launch: LaunchView, verdict: Result<(), Seq<char>>|
        #[trigger] task_follows(
            task_start(message@, q.prompt_path@, options),
            wanted,
            &start,
            world,
            launch,
            verdict,
            after,
            task_view(result),
        );
    proof {
        assert(launched(&start, world, judge_args(*q), q.timeout_secs, after, launch));
        assert(launched(start, world, judge_args(*q), q.timeout_secs, after, launch));
    }
    match result {
        Ok(res) => {
            let rating = parse_judge_output(res.output.as_str(), &read);
            let ghost front = choose|front: Option<FrontView>| #[trigger]
                rating_follows(res.output@, &read, front, rating_view(rating));
            assert(rating_follows(res.output@, read, front, rating_view(rating)));
            let r = (after, rating);
            assert(judging_follows(begin, doors, world, launch, front, r.0, rating_view(r.1)));
            r
        },
        Err(e) => {
            let r: (W, Result<JudgeRating, String>) = (after, Err(e));
            assert(judging_follows(begin, doors, world, launch, None, r.0, rating_view(r.1)));
            r
        },
    }
}

/// The texts of the events in an output, one behind the other.
pub fn extract_text_from_json(output: &str) -> (r: String)
    ensures
        r@ == answer_text(lines_of(output@)),
{
    extract_text_content(output)
}

/// The front matter lies between the marks: behind the one that the output begins with, and
/// before the first that stands at the beginning of a later line. Gives how long it is.
pub proof fn front_matter_lies_between_the_marks(output: Seq<char>) -> (end: int)
    ensures
        ({
            let t = trimmed(output);
            front_text(output) matches Ok(front) ==> {
                &&& t.len() >= 7 + end
                &&& 0 <= end
                &&& t.take(3) == seq!['-', '-', '-']
                &&& front == t.subrange(3, 3 + end)
                &&& t.subrange(3 + end, 7 + end) == seq!['\n', '-', '-', '-']
                &&& forall|j: int| 0 <= j < end ==> !occurs_at(#[trigger] t.skip(3), "\n---"@, j)
            }
        }),
        front_text(output) is Ok <==> has_prefix(trimmed(output), "---"@) && contains_text(
            trimmed(output).skip(3),
            "\n---"@,
        ),
{
    reveal_strlit("---");
    reveal_strlit("\n---");
    let t = trimmed(output);
    let rest = t.skip(3);
    contains_iff_found(rest, "\n---"@);
    find_from_is_least(rest, "\n---"@, 0);
    assert("\n---"@ =~= seq!['\n', '-', '-', '-']);
    assert("---"@ =~= seq!['-', '-', '-']);
    match find_from(rest, "\n---"@, 0) {
        Some(end) => {
            if has_prefix(t, "---"@) {
                assert(t.take(3) =~= t.subrange(0, 3));
                assert(rest.take(end) =~= t.subrange(3, 3 + end));
                assert(rest.subrange(end, end + 4) =~= t.subrange(3 + end, 7 + end));
            }
            end
        },
        None => 0,
    }
}

/// A rating is what the judge wrote, with all that it wrote kept, unless it gives more points
/// than there are.
pub proof fn ratings_are_what_the_judge_wrote(front: FrontView, output: Seq<char>)
    ensures
        rating_of(front, output) is Ok <==> front.points <= front.max_points,
        rating_of(front, output) matches Ok(r) ==> {
            &&& r.points == front.points
            &&& r.max_points == front.max_points
            &&& r.test_name == front.test_name
            &&& r.agent_model == front.agent_model
            &&& r.judge_model == front.judge_model
            &&& r.timestamp == front.timestamp
            &&& r.full_report == output
        },
{
}

/// A rating that is read stems from front matter that could be read.
pub proof fn ratings_need_front_matter<Y: Fn(&str) -> Option<JudgeFrontmatter>>(
    output: Seq<char>,
    read: Y,
    front: Option<FrontView>,
    r: Result<RatingView, Seq<char>>,
)
    requires
        rating_follows(output, read, front, r),
    ensures
        r matches Ok(rating) ==> {
            &&& front is Some
            &&& front_text(output) is Ok
            &&& may_read_front(read, trimmed(front_text(output)->Ok_0), front)
            &&& rating.points == front->0.points && rating.max_points == front->0.max_points
            &&& rating.agent_model == front->0.agent_model && rating.judge_model
                == front->0.judge_model
        },
        front_text(output) is Ok && front is Some && front->0.points <= front->0.max_points
            ==> r is Ok,
{
}

/// Each item of the checklist gets a box of its own, on a line of its own, in order.
pub proof fn every_item_gets_a_box(items: Seq<Seq<char>>, item: Seq<char>)
    ensures
        boxes(seq![item]) == seq!['-', ' ', '[', ' ', ']', ' '] + item,
        items.len() > 0 ==> boxes(items.push(item)) == boxes(items) + seq!['\n'] + seq![
            '-',
            ' ',
            '[',
            ' ',
            ']',
            ' ',
        ] + item,
{
    reveal_strlit("- [ ] ");
    reveal_strlit("\n");
    let f = |i: Seq<char>| "- [ ] "@ + i;
    assert("- [ ] "@ =~= seq!['-', ' ', '[', ' ', ']', ' ']);
    assert("\n"@ =~= seq!['\n']);
    assert(seq![item].map_values(f) =~= seq![f(item)]);
    assert(items.push(item).map_values(f) =~= items.map_values(f).push(f(item)));
    assert(items.map_values(f).push(f(item)).drop_last() =~= items.map_values(f));
    if items.len() > 0 {
        assert(boxes(items.push(item)) =~= boxes(items) + seq!['\n'] + (seq![
            '-',
            ' ',
            '[',
            ' ',
            ']',
            ' ',
        ] + item));
    }
}

/// The judge is told of the test, the models, the checklist and the output, each behind its
/// own heading.
pub proof fn judges_are_told_everything(
    test_name: Seq<char>,
    agent_model: Seq<char>,
    judge_model: Seq<char>,
    checklist: Seq<Seq<char>>,
    agent_output: Seq<char>,
)
    ensures
        contains_text(
            judge_message(test_name, agent_model, judge_model, checklist, agent_output),
            "- Test name: "@ + test_name + "\n"@,
        ),
        contains_text(
            judge_message(test_name, agent_model, judge_model, checklist, agent_output),
            "- Agent model: "@ + agent_model + "\n"@,
        ),
        contains_text(
            judge_message(test_name, agent_model, judge_model, checklist, agent_output),
            "- Judge model: "@ + judge_model + "\n"@,
        ),
        contains_text(
            judge_message(test_name, agent_model, judge_model, checklist, agent_output),
            "## Verification Checklist\n\n"@ + boxes(checklist),
        ),
        contains_text(
            judge_message(test_name, agent_model, judge_model, checklist, agent_output),
            "## Agent Output\n\n"@ + agent_output,
        ),
{
    reveal_strlit("- Test name: ");
    reveal_strlit("- Agent model: ");
    reveal_strlit("- Judge model: ");
    reveal_strlit("\n");
    reveal_strlit("## Verification Checklist\n\n");
    reveal_strlit("## Agent Output\n\n");
    reveal_strlit("## Test Metadata\n\n- Test name: ");
    reveal_strlit("\n- Agent model: ");
    reveal_strlit("\n- Judge model: ");
    reveal_strlit("\n\n## Verification Checklist\n\n");
    reveal_strlit("\n\n## Agent Output\n\n");
    let m = judge_message(test_name, agent_model, judge_model, checklist, agent_output);
    let a1 = "## Test Metadata\n\n- Test name: "@.len() as int;
    let n1 = "- Test name: "@.len() as int;
    let p1 = "- Test name: "@ + test_name + "\n"@;
    assert(m.subrange(a1 - n1, a1 - n1 + p1.len()) =~= p1);
    assert(occurs_at(m, p1, a1 - n1));
    let a2 = a1 + test_name.len() + 1;
    let p2 = "- Agent model: "@ + agent_model + "\n"@;
    assert(m.subrange(a2, a2 + p2.len()) =~= p2);
    assert(occurs_at(m, p2, a2));
    let a3 = a2 + p2.len();
    let p3 = "- Judge model: "@ + judge_model + "\n"@;
    assert(m.subrange(a3, a3 + p3.len()) =~= p3);
    assert(occurs_at(m, p3, a3));
    let a4 = a3 + p3.len() + 1;
    let p4 = "## Verification Checklist\n\n"@ + boxes(checklist);
    assert(m.subrange(a4, a4 + p4.len()) =~= p4);
    assert(occurs_at(m, p4, a4));
    let a5 = a4 + p4.len() + 2;
    let p5 = "## Agent Output\n\n"@ + agent_output;
    assert(m.subrange(a5, a5 + p5.len()) =~= p5);
    assert(occurs_at(m, p5, a5));
}

/// A judge without instructions is not started; with them it is run with the model that
/// judges, for as long as is allowed.
pub proof fn judges_need_instructions(
    q: JudgeRequest<'_>,
    prompt_exists: bool,
    shown_path: Seq<char>,
)
    ensures
        judge_start(q, prompt_exists, shown_path) is Ok <==> prompt_exists,
        judge_start(q, prompt_exists, shown_path) matches Ok((args, secs)) ==> secs
            == q.timeout_secs && args == task_args(
            judge_message(
                q.test_name@,
                q.agent_model@,
                q.judge_model@,
                q.checklist.deep_view(),
                q.agent_output@,
            ),
            q.prompt_path@,
            q.judge_model@,
            None,
            None,
        ),
        judge_start(q, prompt_exists, shown_path) matches Err(e) ==> contains_text(e, shown_path),
{
    let front = "Judge prompt not found: "@;
    let e = no_prompt(shown_path);
    assert(e.subrange(front.len() as int, front.len() + shown_path.len() as int) =~= shown_path);
    assert(occurs_at(e, shown_path, front.len() as int));
}

/// An output looks like a judgement where it begins with the mark of front matter, blanks
/// before it aside.
pub proof fn judgements_begin_with_the_mark(output: Seq<char>)
    ensures
        judge_verdict(output) is Ok <==> trimmed_start(output).len() >= 3 && trimmed_start(
            output,
        ).take(3) == seq!['-', '-', '-'],
{
    reveal_strlit("---");
    assert("---"@ =~= seq!['-', '-', '-']);
    let t = trimmed_start(output);
    if t.len() >= 3 {
        assert(t.subrange(0, 3) =~= t.take(3));
    }
}

/// A rating that comes of judging stems from a run that ended well, gave an output that
/// looks like a judgement, and could be read; one that could not begin changes nothing.
pub proof fn ratings_stem_from_clean_runs<
    W,
    S: Fn(W, &Vec<String>, u64) -> (W, Launch),
    Y: Fn(&str) -> Option<JudgeFrontmatter>,
>(
    begin: Result<(Seq<Seq<char>>, u64), Seq<char>>,
    doors: (S, Y),
    before: W,
    launch: LaunchView,
    front: Option<FrontView>,
    after: W,
    r: Result<RatingView, Seq<char>>,
)
    requires
        judging_follows(begin, doors, before, launch, front, after, r),
    ensures
        begin is Err ==> after == before && r is Err,
        begin matches Ok((args, secs)) ==> launched(doors.0, before, args, secs, after, launch),
        r matches Ok(rating) ==> {
            &&& begin matches Ok((args, secs)) && (task_end(launch, secs) matches Ok(res)
                && judge_verdict(res.output) is Ok && rating.full_report == res.output)
            &&& front is Some
            &&& rating.points == front->0.points
            &&& rating.points <= rating.max_points
        },
{
}

/// It is the front matter that is read: where it always reads the same, that is what the
/// rating is made of.
pub proof fn the_front_matter_is_read<Y: Fn(&str) -> Option<JudgeFrontmatter>>(
    read: Y,
    text: Seq<char>,
    reply: Option<FrontView>,
    reads: Option<FrontView>,
)
    requires
        forall|t: &str, r: Option<JudgeFrontmatter>| #[trigger]
            call_ensures(read, (t,), r) && t@ == text ==> r.deep_view() == reads,
        may_read_front(read, text, reply),
    ensures
        reply == reads,
{
}

} // verus!
