//! Running a task with `pi`.

use crate::json::{Json, JsonView, document_view, json_in, json_or_cause, parse_json, read_json};
use crate::opencode::nudge::reply_view;
use crate::opencode::parts::is_kind;
use crate::opencode::run::{Launch, LaunchView, ProcessEnd, launched};
use crate::opencode::transcript::text_or;
use crate::pi::command::{build_hermetic, hermetic_args};
use crate::pi::jsonl::{block_texts, counted, last_told, texts_of_blocks};
use crate::pi::sanity::{
    AiTaskSpec, HEAD_TAIL_LIMIT, check, cut_short_text, first_chars, last_chars,
};
use crate::pi::session::{blocks_in, usage_count};
use crate::provider::TokenUsage;
use crate::text::{
    byte_len, chars_of, contains_text, decimal, decimal_of, has_prefix, has_suffix, join, joined,
    occurs_at, signed_decimal, signed_decimal_of, str_eq, trim, trimmed,
};
use vstd::prelude::*;

verus! {

/// Seconds that a task may take where nothing else is asked for.
pub const DEFAULT_AI_TIMEOUT: u64 = 600;

/// What a task gave.
#[derive(Debug)]
pub struct AiTaskResult {
    /// The text of the last answer.
    pub output: String,
    pub session_id: Option<String>,
    /// The tokens of all answers.
    pub tokens: TokenUsage,
}

/// The content of what a task gave.
pub ghost struct TaskResultView {
    pub output: Seq<char>,
    pub session_id: Option<Seq<char>>,
    pub tokens: TokenUsage,
}

impl View for AiTaskResult {
    type V = TaskResultView;

    open spec fn view(&self) -> TaskResultView {
        TaskResultView {
            output: self.output@,
            session_id: self.session_id.deep_view(),
            tokens: self.tokens,
        }
    }
}

/// How a task is wanted.
#[derive(Clone, Debug)]
pub struct RunOptions<'a> {
    pub model: Option<&'a str>,
    /// What replaces the prompt that `pi` begins with.
    pub system_prompt: Option<&'a str>,
    /// Seconds that the task may take.
    pub timeout_secs: Option<u64>,
    /// The tools that may be used, with commas between; all where nothing is said.
    pub tools: Option<&'a str>,
    /// Whether to print what happens.
    pub verbose: bool,
}

impl<'a> Default for RunOptions<'a> {
    fn default() -> (r: RunOptions<'a>)
        ensures
            r.model is None,
            r.system_prompt is None,
            r.timeout_secs is None,
            r.tools is None,
            !r.verbose,
    {
        RunOptions {
            model: None,
            system_prompt: None,
            timeout_secs: None,
            tools: None,
            verbose: false,
        }
    }
}

/// The arguments of an option, where it is given.
pub open spec fn option_args(name: Seq<char>, value: Option<Seq<char>>) -> Seq<Seq<char>> {
    match value {
        Some(v) => seq![name, v],
        None => Seq::empty(),
    }
}

/// The arguments of a task.
pub open spec fn task_args(
    prompt: Seq<char>,
    instruction_file: Seq<char>,
    model: Seq<char>,
    system_prompt: Option<Seq<char>>,
    tools: Option<Seq<char>>,
) -> Seq<Seq<char>> {
    hermetic_args() + option_args("--model"@, Some(model)) + option_args(
        "--system-prompt"@,
        system_prompt,
    ) + option_args("--append-system-prompt"@, Some(instruction_file)) + option_args(
        "--tools"@,
        tools,
    ) + seq![prompt]
}

fn push_option(args: &mut Vec<String>, name: &str, value: Option<&str>)
    ensures
        final(args).deep_view() == old(args).deep_view() + option_args(name@, value.deep_view()),
{
    let ghost before = args.deep_view();
    match value {
        Some(v) => {
            args.push(name.to_string());
            args.push(v.to_string());
            assert(args.deep_view() =~= before + seq![name@, v@]);
        },
        None => {
            assert(before + Seq::<Seq<char>>::empty() =~= before);
        },
    }
}

/// The arguments of a task.
pub fn build_task_args(
    prompt: &str,
    instruction_file: &str,
    model: &str,
    system_prompt: Option<&str>,
    tools: Option<&str>,
) -> (r: Vec<String>)
    ensures
        r.deep_view() == task_args(
            prompt@,
            instruction_file@,
            model@,
            system_prompt.deep_view(),
            tools.deep_view(),
        ),
{
    let mut args = build_hermetic();
    push_option(&mut args, "--model", Some(model));
    push_option(&mut args, "--system-prompt", system_prompt);
    push_option(&mut args, "--append-system-prompt", Some(instruction_file));
    push_option(&mut args, "--tools", tools);
    let ghost before = args.deep_view();
    args.push(prompt.to_string());
    assert(args.deep_view() =~= before + seq![prompt@]);
    args
}

/// The events among lines, in order.
pub open spec fn events_in(lines: Seq<Seq<char>>) -> Seq<JsonView>
    decreases lines.len(),
{
    if lines.len() == 0 {
        Seq::empty()
    } else {
        let before = events_in(lines.drop_last());
        if lines.last().len() == 0 {
            before
        } else {
            match json_in(lines.last()) {
                Some(v) => before.push(v),
                None => before,
            }
        }
    }
}

/// The events among lines, in order.
pub fn parse_events(lines: &Vec<String>) -> (r: Vec<Json>)
    ensures
        r.deep_view() == events_in(lines.deep_view()),
{
    let ghost all = lines.deep_view();
    let mut out: Vec<Json> = Vec::new();
    let mut i: usize = 0;
    assert(all.take(0) =~= Seq::<Seq<char>>::empty());
    assert(out.deep_view() =~= Seq::<JsonView>::empty());
    while i < lines.len()
        invariant
            i <= lines.len(),
            all == lines.deep_view(),
            out.deep_view() == events_in(all.take(i as int)),
        decreases lines.len() - i,
    {
        assert(all.take(i + 1).drop_last() =~= all.take(i as int));
        assert(all.take(i + 1).last() == lines@[i as int]@);
        let ghost before = out.deep_view();
        if chars_of(lines[i].as_str()).len() > 0 {
            match parse_json(lines[i].as_str()) {
                Some(v) => {
                    let ghost view = v@;
                    out.push(v);
                    assert(out.deep_view() =~= before.push(view));
                },
                None => {},
            }
        }
        i += 1;
    }
    assert(all.take(i as int) =~= all);
    out
}

/// The session that an event names.
pub open spec fn session_told(event: JsonView) -> Option<Seq<char>> {
    if event.get_str("type"@) == Some("session"@) {
        event.get_str("id"@)
    } else {
        None
    }
}

/// The messages that an event ends with.
pub open spec fn end_messages(event: JsonView) -> Option<Seq<JsonView>> {
    if event.get_str("type"@) == Some("agent_end"@) {
        event.get_array("messages"@)
    } else {
        None
    }
}

/// Whether a message is an answer.
pub open spec fn is_answer(message: JsonView) -> bool {
    message.get_str("role"@) == Some("assistant"@)
}

/// The texts of an answer, one behind the other.
pub open spec fn answer_of(message: JsonView) -> Seq<char> {
    joined(block_texts(blocks_in(message)), Seq::empty())
}

/// The last answer that says anything.
pub open spec fn last_answer(messages: Seq<JsonView>) -> Seq<char>
    decreases messages.len(),
{
    if messages.len() == 0 {
        Seq::empty()
    } else if is_answer(messages.last()) && answer_of(messages.last()).len() > 0 {
        answer_of(messages.last())
    } else {
        last_answer(messages.drop_last())
    }
}

/// The text that an event ends with.
pub open spec fn output_told(event: JsonView) -> Option<Seq<char>> {
    match end_messages(event) {
        Some(messages) => Some(last_answer(messages)),
        None => None,
    }
}

/// A count of tokens of an answer.
pub open spec fn answer_count(message: JsonView, key: Seq<char>) -> nat {
    if is_answer(message) {
        match message.get("usage"@) {
            Some(u) => usage_count(u, key) as nat,
            None => 0,
        }
    } else {
        0
    }
}

/// A count of tokens, summed over messages.
pub open spec fn messages_count(messages: Seq<JsonView>, key: Seq<char>) -> nat {
    counted(messages, |m: JsonView| answer_count(m, key))
}

/// A count of tokens of the answers that an event ends with.
pub open spec fn event_tokens(event: JsonView, key: Seq<char>) -> nat {
    match end_messages(event) {
        Some(messages) => messages_count(messages, key),
        None => 0,
    }
}

/// A count of tokens, summed over events.
pub open spec fn events_count(events: Seq<JsonView>, key: Seq<char>) -> nat {
    counted(events, |e: JsonView| event_tokens(e, key))
}

/// Whether the counts of tokens fit in 64 bits.
pub open spec fn counts_fit(events: Seq<JsonView>) -> bool {
    &&& events_count(events, "input"@) <= u64::MAX
    &&& events_count(events, "output"@) <= u64::MAX
    &&& events_count(events, "cacheRead"@) <= u64::MAX
    &&& events_count(events, "cacheWrite"@) <= u64::MAX
}

/// The tokens that the events of a task count.
pub open spec fn tokens_in(events: Seq<JsonView>) -> TokenUsage {
    TokenUsage {
        input: events_count(events, "input"@) as u64,
        output: events_count(events, "output"@) as u64,
        cache_read: events_count(events, "cacheRead"@) as u64,
        cache_write: events_count(events, "cacheWrite"@) as u64,
        cache_creation: 0,
        reasoning: 0,
    }
}

/// What the events of a task give.
pub open spec fn task_result(events: Seq<JsonView>) -> TaskResultView {
    TaskResultView {
        output: text_or(last_told(events, |e: JsonView| output_told(e)), Seq::empty()),
        session_id: last_told(events, |e: JsonView| session_told(e)),
        tokens: tokens_in(events),
    }
}

/// A number, but for numbers beyond 64 bits, which count as the first of them.
pub open spec fn capped(n: nat) -> int {
    if n <= u64::MAX {
        n as int
    } else {
        0x1_0000_0000_0000_0000
    }
}

fn cap(n: u128) -> (r: u128)
    ensures
        r == capped(n as nat),
{
    if n <= 0xffff_ffff_ffff_ffff {
        n
    } else {
        0x1_0000_0000_0000_0000
    }
}

fn count_in_answer(message: &Json, key: &str) -> (r: u64)
    ensures
        r == answer_count(message@, key@),
{
    let answers = match message.get_str("role") {
        Some(role) => str_eq(role, "assistant"),
        None => false,
    };
    if !answers {
        return 0;
    }
    match message.get("usage") {
        Some(u) => match u.get_u64(key) {
            Some(n) => n,
            None => 0,
        },
        None => 0,
    }
}

fn count_in_messages(messages: &Vec<Json>, key: &str) -> (r: u128)
    ensures
        r == capped(messages_count(messages.deep_view(), key@)),
        r <= 0x1_0000_0000_0000_0000,
{
    let ghost all = messages.deep_view();
    let ghost count = |m: JsonView| answer_count(m, key@);
    let mut sum: u128 = 0;
    let mut i: usize = 0;
    assert(all.take(0) =~= Seq::<JsonView>::empty());
    while i < messages.len()
        invariant
            i <= messages.len(),
            all == messages.deep_view(),
            count == (|m: JsonView| answer_count(m, key@)),
            sum == capped(counted(all.take(i as int), count)),
        decreases messages.len() - i,
    {
        assert(all.take(i + 1).drop_last() =~= all.take(i as int));
        assert(all.take(i + 1).last() == messages@[i as int]@);
        sum = cap(sum + count_in_answer(&messages[i], key) as u128);
        i += 1;
    }
    assert(all.take(i as int) =~= all);
    sum
}

fn messages_of_end(event: &Json) -> (r: Option<&Vec<Json>>)
    ensures
        r.deep_view() == end_messages(event@),
{
    if is_kind(event, "agent_end") {
        event.get_array("messages")
    } else {
        None
    }
}

fn count_in_events(events: &Vec<Json>, key: &str) -> (r: u128)
    ensures
        r == capped(events_count(events.deep_view(), key@)),
{
    let ghost all = events.deep_view();
    let ghost count = |e: JsonView| event_tokens(e, key@);
    let mut sum: u128 = 0;
    let mut i: usize = 0;
    assert(all.take(0) =~= Seq::<JsonView>::empty());
    while i < events.len()
        invariant
            i <= events.len(),
            all == events.deep_view(),
            count == (|e: JsonView| event_tokens(e, key@)),
            sum == capped(counted(all.take(i as int), count)),
        decreases events.len() - i,
    {
        assert(all.take(i + 1).drop_last() =~= all.take(i as int));
        assert(all.take(i + 1).last() == events@[i as int]@);
        match messages_of_end(&events[i]) {
            Some(messages) => {
                sum = cap(sum + count_in_messages(messages, key));
            },
            None => {},
        }
        i += 1;
    }
    assert(all.take(i as int) =~= all);
    sum
}

fn answer_in(message: &Json) -> (r: String)
    ensures
        r@ == answer_of(message@),
{
    match message.get_array("content") {
        Some(blocks) => {
            let s = join(&texts_of_blocks(blocks), "");
            proof {
                reveal_strlit("");
                assert(""@ =~= Seq::<char>::empty());
            }
            s
        },
        None => {
            proof {
                assert(block_texts(Seq::<JsonView>::empty()) =~= Seq::<Seq<char>>::empty());
            }
            String::new()
        },
    }
}

fn last_answer_in(messages: &Vec<Json>) -> (r: String)
    ensures
        r@ == last_answer(messages.deep_view()),
{
    let ghost all = messages.deep_view();
    let mut text = String::new();
    let mut i: usize = 0;
    assert(all.take(0) =~= Seq::<JsonView>::empty());
    while i < messages.len()
        invariant
            i <= messages.len(),
            all == messages.deep_view(),
            text@ == last_answer(all.take(i as int)),
        decreases messages.len() - i,
    {
        assert(all.take(i + 1).drop_last() =~= all.take(i as int));
        assert(all.take(i + 1).last() == messages@[i as int]@);
        let answers = match messages[i].get_str("role") {
            Some(role) => str_eq(role, "assistant"),
            None => false,
        };
        if answers {
            let answer = answer_in(&messages[i]);
            if chars_of(answer.as_str()).len() > 0 {
                text = answer;
            }
        }
        i += 1;
    }
    assert(all.take(i as int) =~= all);
    text
}

fn told_of(event: &Json) -> (r: (Option<String>, Option<String>))
    ensures
        r.0.deep_view() == session_told(event@),
        r.1.deep_view() == output_told(event@),
{
    let session = if is_kind(event, "session") {
        match event.get_str("id") {
            Some(id) => Some(id.to_string()),
            None => None,
        }
    } else {
        None
    };
    let output = match messages_of_end(event) {
        Some(messages) => Some(last_answer_in(messages)),
        None => None,
    };
    (session, output)
}

/// Reads the events of a task. Nothing comes where a count of tokens does not fit
/// in 64 bits.
pub fn read_task(events: &Vec<Json>) -> (r: Option<AiTaskResult>)
    ensures
        match r {
            Some(res) => counts_fit(events.deep_view()) && res@ == task_result(events.deep_view()),
            None => !counts_fit(events.deep_view()),
        },
{
    let ghost all = events.deep_view();
    let ghost by_session = |e: JsonView| session_told(e);
    let ghost by_output = |e: JsonView| output_told(e);
    let mut session_id: Option<String> = None;
    let mut output: Option<String> = None;
    let mut i: usize = 0;
    assert(all.take(0) =~= Seq::<JsonView>::empty());
    while i < events.len()
        invariant
            i <= events.len(),
            all == events.deep_view(),
            by_session == (|e: JsonView| session_told(e)),
            by_output == (|e: JsonView| output_told(e)),
            session_id.deep_view() == last_told(all.take(i as int), by_session),
            output.deep_view() == last_told(all.take(i as int), by_output),
        decreases events.len() - i,
    {
        assert(all.take(i + 1).drop_last() =~= all.take(i as int));
        assert(all.take(i + 1).last() == events@[i as int]@);
        let (s, o) = told_of(&events[i]);
        if s.is_some() {
            session_id = s;
        }
        if o.is_some() {
            output = o;
        }
        i += 1;
    }
    assert(all.take(i as int) =~= all);
    let input: u128 = count_in_events(events, "input");
    let out: u128 = count_in_events(events, "output");
    let cache_read: u128 = count_in_events(events, "cacheRead");
    let cache_write: u128 = count_in_events(events, "cacheWrite");
    let most: u128 = 0xffff_ffff_ffff_ffff;
    if input > most || out > most || cache_read > most || cache_write > most {
        return None;
    }
    let tokens = TokenUsage {
        input: input as u64,
        output: out as u64,
        cache_read: cache_read as u64,
        cache_write: cache_write as u64,
        cache_creation: 0,
        reasoning: 0,
    };
    let output = match output {
        Some(o) => o,
        None => String::new(),
    };
    Some(AiTaskResult { output, session_id, tokens })
}

/// Lines, each with a newline behind it.
pub open spec fn ended_lines(lines: Seq<Seq<char>>) -> Seq<char>
    decreases lines.len(),
{
    if lines.len() == 0 {
        Seq::empty()
    } else {
        ended_lines(lines.drop_last()) + lines.last() + "\n"@
    }
}

fn end_lines(lines: &Vec<String>) -> (r: String)
    ensures
        r@ == ended_lines(lines.deep_view()),
{
    let ghost all = lines.deep_view();
    let mut s = String::new();
    let mut i: usize = 0;
    assert(all.take(0) =~= Seq::<Seq<char>>::empty());
    while i < lines.len()
        invariant
            i <= lines.len(),
            all == lines.deep_view(),
            s@ == ended_lines(all.take(i as int)),
        decreases lines.len() - i,
    {
        assert(all.take(i + 1).drop_last() =~= all.take(i as int));
        assert(all.take(i + 1).last() == lines@[i as int]@);
        s.append(lines[i].as_str());
        s.append("\n");
        i += 1;
    }
    assert(all.take(i as int) =~= all);
    s
}

/// What is said of a process that did not end well.
pub open spec fn task_failure(end: ProcessEnd, timeout_secs: u64, log: Seq<Seq<char>>) -> Option<
    Seq<char>,
> {
    match end {
        ProcessEnd::TimedOut => Some(
            "Timeout: pi did not complete within "@ + decimal(timeout_secs as nat) + "s"@,
        ),
        ProcessEnd::Exited(Some(0)) => None,
        ProcessEnd::Exited(code) => Some(
            "pi exited with code "@ + signed_decimal(
                match code {
                    Some(c) => c as int,
                    None => -1,
                },
            ) + ": "@ + trimmed(ended_lines(log)),
        ),
    }
}

fn check_task_end(end: ProcessEnd, timeout_secs: u64, log: &Vec<String>) -> (r: Option<String>)
    ensures
        r.deep_view() == task_failure(end, timeout_secs, log.deep_view()),
{
    match end {
        ProcessEnd::TimedOut => {
            let mut s = "Timeout: pi did not complete within ".to_string();
            s.append(decimal_of(timeout_secs).as_str());
            s.append("s");
            Some(s)
        },
        ProcessEnd::Exited(Some(0)) => None,
        ProcessEnd::Exited(code) => {
            let code: i64 = match code {
                Some(c) => c as i64,
                None => -1,
            };
            let mut s = "pi exited with code ".to_string();
            s.append(signed_decimal_of(code).as_str());
            s.append(": ");
            s.append(trim(end_lines(log).as_str()).as_str());
            Some(s)
        },
    }
}

/// What a task gave, or why it failed, from what came of starting it.
pub open spec fn task_end(launch: LaunchView, timeout_secs: u64) -> Result<
    TaskResultView,
    Seq<char>,
> {
    match launch {
        LaunchView::NotFound => Err("pi not found. Install it or add it to PATH."@),
        LaunchView::Failed(e) => Err("Failed to spawn pi: "@ + e),
        LaunchView::Lost(e) => Err(e),
        LaunchView::Ran { printed, log, end } => if !counts_fit(events_in(printed)) {
            Err("the counts of tokens do not fit in 64 bits"@)
        } else {
            match task_failure(end, timeout_secs, log) {
                Some(e) => Err(e),
                None => Ok(task_result(events_in(printed))),
            }
        },
    }
}

/// A result of a task, or why there is none.
pub open spec fn task_view(r: Result<AiTaskResult, String>) -> Result<TaskResultView, Seq<char>> {
    match r {
        Ok(res) => Ok(res@),
        Err(e) => Err(e@),
    }
}

/// What a task gave, or why it failed, from what came of starting it.
pub fn finish_task(launch: Launch, timeout_secs: u64) -> (r: Result<AiTaskResult, String>)
    ensures
        task_view(r) == task_end(launch@, timeout_secs),
{
    match launch {
        Launch::NotFound => Err("pi not found. Install it or add it to PATH.".to_string()),
        Launch::Failed(e) => {
            let mut s = "Failed to spawn pi: ".to_string();
            s.append(e.as_str());
            Err(s)
        },
        Launch::Lost(e) => Err(e),
        Launch::Ran { printed, log, end } => {
            let events = parse_events(&printed);
            match read_task(&events) {
                Some(res) => match check_task_end(end, timeout_secs, &log) {
                    Some(e) => Err(e),
                    None => Ok(res),
                },
                None => Err("the counts of tokens do not fit in 64 bits".to_string()),
            }
        },
    }
}

/// Whether an output may be judged so.
pub open spec fn may_judge<P: Fn(&str) -> Result<(), String>>(
    looks_complete: P,
    output: Seq<char>,
    verdict: Result<(), Seq<char>>,
) -> bool {
    exists|o: &str, v: Result<(), String>| #[trigger]
        call_ensures(looks_complete, (o,), v) && o@ == output && verdict == (match v {
            Ok(_) => Ok(()),
            Err(reason) => Err(reason@),
        })
}

/// What comes of a result for a verdict on its output.
pub open spec fn judged(res: TaskResultView, shape: Seq<char>, verdict: Result<(), Seq<char>>) -> Result<
    TaskResultView,
    Seq<char>,
> {
    match verdict {
        Ok(_) => Ok(res),
        Err(reason) => Err(
            cut_short_text(
                res.session_id,
                shape,
                reason,
                byte_len(res.output),
                first_chars(res.output, HEAD_TAIL_LIMIT as nat),
                last_chars(res.output, HEAD_TAIL_LIMIT as nat),
            ),
        ),
    }
}

/// The start of a task: the arguments and how many seconds it may take. There is
/// none without a model.
pub open spec fn task_start(
    prompt: Seq<char>,
    instruction_file: Seq<char>,
    options: RunOptions<'_>,
) -> Result<(Seq<Seq<char>>, u64), Seq<char>> {
    match options.model {
        None => Err("RunOptions.model is required"@),
        Some(model) => Ok(
            (
                task_args(
                    prompt,
                    instruction_file,
                    model@,
                    options.system_prompt.deep_view(),
                    options.tools.deep_view(),
                ),
                match options.timeout_secs {
                    Some(s) => s,
                    None => DEFAULT_AI_TIMEOUT,
                },
            ),
        ),
    }
}

/// The content of a start, or why there is none.
pub open spec fn start_view(r: Result<(Vec<String>, u64), String>) -> Result<
    (Seq<Seq<char>>, u64),
    Seq<char>,
> {
    match r {
        Ok(s) => Ok((s.0.deep_view(), s.1)),
        Err(e) => Err(e@),
    }
}

/// The start of a task: the arguments and how many seconds it may take.
pub fn request_task(prompt: &str, instruction_file: &str, options: &RunOptions<'_>) -> (r: Result<
    (Vec<String>, u64),
    String,
>)
    ensures
        start_view(r) == task_start(prompt@, instruction_file@, *options),
{
    let model = match options.model {
        Some(m) => m,
        None => {
            return Err("RunOptions.model is required".to_string());
        },
    };
    let timeout_secs: u64 = match options.timeout_secs {
        Some(s) => s,
        None => DEFAULT_AI_TIMEOUT,
    };
    let args = build_task_args(
        prompt,
        instruction_file,
        model,
        options.system_prompt,
        options.tools,
    );
    Ok((args, timeout_secs))
}

/// Whether a task was run, from one state of what the process acts on to another:
/// where there is no start, nothing is done; else the process was started once and
/// answered so, and where it gave an output that was judged so.
pub open spec fn task_follows<
    W,
    P: Fn(&str) -> Result<(), String>,
    S: Fn(W, &Vec<String>, u64) -> (W, Launch),
>(
    begin: Result<(Seq<Seq<char>>, u64), Seq<char>>,
    wanted: AiTaskSpec<'_, P>,
    start: S,
    before: W,
    launch: LaunchView,
    verdict: Result<(), Seq<char>>,
    after: W,
    r: Result<TaskResultView, Seq<char>>,
) -> bool {
    match begin {
        Err(e) => after == before && r == Err::<TaskResultView, Seq<char>>(e),
        Ok((args, timeout_secs)) => {
            &&& launched(start, before, args, timeout_secs, after, launch)
            &&& match task_end(launch, timeout_secs) {
                Ok(res) => may_judge(wanted.looks_complete, res.output, verdict) && r == judged(
                    res,
                    wanted.shape@,
                    verdict,
                ),
                Err(e) => r == Err::<TaskResultView, Seq<char>>(e),
            }
        },
    }
}

/// Runs a task: a prompt, with an instruction file behind the system prompt. An
/// output that does not look complete is an error. `start` runs `pi` with
/// arguments for so many seconds. It is called once, and not without a model;
/// `world` stands for what it acts on.
pub fn run<
    W,
    P: Fn(&str) -> Result<(), String>,
    S: Fn(W, &Vec<String>, u64) -> (W, Launch),
>(
    prompt: &str,
    instruction_file: &str,
    options: &RunOptions<'_>,
    wanted: &AiTaskSpec<'_, P>,
    world: W,
    start: S,
) -> (r: (W, Result<AiTaskResult, String>))
    requires
        forall|w: W, v: &Vec<String>, s: u64| call_requires(start, (w, v, s)),
        forall|o: &str| call_requires(wanted.looks_complete, (o,)),
    ensures
        exists|launch: LaunchView, verdict: Result<(), Seq<char>>| #[trigger]
            task_follows(
                task_start(prompt@, instruction_file@, *options),
                *wanted,
                start,
                world,
                launch,
                verdict,
                r.0,
                task_view(r.1),
            ),
{
    let ghost begin = task_start(prompt@, instruction_file@, *options);
    let (args, timeout_secs) = match request_task(prompt, instruction_file, options) {
        Ok(s) => s,
        Err(e) => {
            let r: (W, Result<AiTaskResult, String>) = (world, Err(e));
            assert(task_follows(
                begin,
                *wanted,
                start,
                world,
                LaunchView::NotFound,
                Ok(()),
                r.0,
                task_view(r.1),
            ));
            return r;
        },
    };
    let (after, launch) = start(world, &args, timeout_secs);
    let ghost given = launch@;
    assert(launched(start, world, args.deep_view(), timeout_secs, after, given));
    let res = match finish_task(launch, timeout_secs) {
        Ok(res) => res,
        Err(e) => {
            let r: (W, Result<AiTaskResult, String>) = (after, Err(e));
            assert(task_follows(begin, *wanted, start, world, given, Ok(()), r.0, task_view(r.1)));
            return r;
        },
    };
    let session_id = match &res.session_id {
        Some(s) => Some(s.as_str()),
        None => None,
    };
    let checked = check(wanted, session_id, res.output.as_str());
    match checked {
        Ok(()) => {
            let ghost verdict: Result<(), Seq<char>> = Ok(());
            assert(may_judge(wanted.looks_complete, res.output@, verdict));
            let r: (W, Result<AiTaskResult, String>) = (after, Ok(res));
            assert(task_follows(begin, *wanted, start, world, given, verdict, r.0, task_view(r.1)));
            r
        },
        Err(e) => {
            let ghost verdict: Result<(), Seq<char>> = Err(e.reason@);
            assert(may_judge(wanted.looks_complete, res.output@, verdict));
            let r: (W, Result<AiTaskResult, String>) = (after, Err(e.message()));
            assert(task_follows(begin, *wanted, start, world, given, verdict, r.0, task_view(r.1)));
            r
        },
    }
}

/// The default model that settings name. `shown_path` is how the path of their
/// file is shown.
pub open spec fn settings_model(
    shown_path: Seq<char>,
    settings: Result<JsonView, Seq<char>>,
) -> Result<Seq<char>, Seq<char>> {
    match settings {
        Ok(s) => match (s.get_str("defaultProvider"@), s.get_str("defaultModel"@)) {
            (None, _) => Err("pi settings missing 'defaultProvider'"@),
            (Some(_), None) => Err("pi settings missing 'defaultModel'"@),
            (Some(p), Some(m)) => Ok(p + "/"@ + m),
        },
        Err(cause) => Err("Failed to parse pi settings "@ + shown_path + ": "@ + cause),
    }
}

/// The default model that parsed settings name: the service and the model.
pub fn model_in_settings(shown_path: &str, settings: Result<Json, String>) -> (r: Result<
    String,
    String,
>)
    ensures
        reply_view(r) == settings_model(shown_path@, document_view(settings)),
{
    match settings {
        Ok(s) => match (s.get_str("defaultProvider"), s.get_str("defaultModel")) {
            (None, _) => Err("pi settings missing 'defaultProvider'".to_string()),
            (Some(_), None) => Err("pi settings missing 'defaultModel'".to_string()),
            (Some(p), Some(m)) => {
                let mut text = p.to_string();
                text.append("/");
                text.append(m);
                Ok(text)
            },
        },
        Err(cause) => {
            let mut text = "Failed to parse pi settings ".to_string();
            text.append(shown_path);
            text.append(": ");
            text.append(cause.as_str());
            Err(text)
        },
    }
}

/// The default model in the text of the settings file.
pub fn get_default_model(shown_path: &str, content: &str) -> (r: Result<String, String>)
    ensures
        reply_view(r) == settings_model(shown_path@, json_or_cause(content@)),
{
    model_in_settings(shown_path, read_json(content))
}

/// A task is run with the model, the instructions, the prompt that replaces the usual one and
/// the tools that are named, each behind its flag, and its prompt comes last.
pub proof fn tasks_are_run_as_told(
    prompt: Seq<char>,
    instruction_file: Seq<char>,
    model: Seq<char>,
    system_prompt: Option<Seq<char>>,
    tools: Option<Seq<char>>,
)
    ensures
        ({
            let args = task_args(prompt, instruction_file, model, system_prompt, tools);
            let n: int = if system_prompt is Some {
                13
            } else {
                11
            };
            &&& args.take(9) == hermetic_args()
            &&& args[9] == "--model"@ && args[10] == model
            &&& system_prompt matches Some(s) ==> args[11] == "--system-prompt"@ && args[12] == s
            &&& args[n] == "--append-system-prompt"@ && args[n + 1] == instruction_file
            &&& tools matches Some(t) ==> args[n + 2] == "--tools"@ && args[n + 3] == t
            &&& args.last() == prompt
            &&& args.len() == n + 3 + if tools is Some {
                2int
            } else {
                0int
            }
        }),
{
    assert(task_args(prompt, instruction_file, model, system_prompt, tools).take(9)
        =~= hermetic_args());
}

/// A task without a model is refused; one that does not say how long it may take may take ten
/// minutes.
pub proof fn tasks_need_a_model(
    prompt: Seq<char>,
    instruction_file: Seq<char>,
    options: RunOptions<'_>,
)
    ensures
        task_start(prompt, instruction_file, options) is Ok <==> options.model is Some,
        task_start(prompt, instruction_file, options) matches Ok((args, secs)) ==> {
            &&& options.timeout_secs matches Some(s) ==> secs == s
            &&& options.timeout_secs is None ==> secs == 600
            &&& args == task_args(
                prompt,
                instruction_file,
                options.model->0@,
                options.system_prompt.deep_view(),
                options.tools.deep_view(),
            )
        },
{
}

/// What is printed is read line by line; empty lines and lines that cannot be read say
/// nothing.
pub proof fn printed_lines_are_read_in_order(lines: Seq<Seq<char>>, line: Seq<char>)
    ensures
        line.len() > 0 && json_in(line) is Some ==> events_in(lines.push(line)) == events_in(
            lines,
        ).push(json_in(line)->0),
        line.len() == 0 || json_in(line) is None ==> events_in(lines.push(line)) == events_in(
            lines,
        ),
{
    assert(lines.push(line).drop_last() =~= lines);
}

/// The session is told by its own event, and the end by another, which holds the messages.
pub proof fn events_tell_session_and_end(event: JsonView)
    ensures
        event.get_str("type"@) == Some("session"@) ==> session_told(event) == event.get_str("id"@),
        event.get_str("type"@) != Some("session"@) ==> session_told(event) is None,
        event.get_str("type"@) == Some("agent_end"@) ==> end_messages(event) == event.get_array(
            "messages"@,
        ),
        event.get_str("type"@) != Some("agent_end"@) ==> end_messages(event) is None,
        output_told(event) is Some <==> end_messages(event) is Some,
        output_told(event) is Some ==> output_told(event)->0 == last_answer(
            end_messages(event)->0,
        ),
{
}

/// The answer is what the last message of the assistant says that says anything. Gives which.
pub proof fn the_last_answer_that_speaks_counts(messages: Seq<JsonView>) -> (i: int)
    ensures
        last_answer(messages).len() > 0 ==> {
            &&& 0 <= i < messages.len()
            &&& messages[i].get_str("role"@) == Some("assistant"@)
            &&& answer_of(messages[i]) == last_answer(messages)
            &&& forall|j: int|
                i < j < messages.len() ==> (#[trigger] messages[j]).get_str("role"@) != Some(
                    "assistant"@,
                ) || answer_of(messages[j]).len() == 0
        },
        last_answer(messages).len() == 0 ==> forall|j: int|
            0 <= j < messages.len() ==> (#[trigger] messages[j]).get_str("role"@) != Some(
                "assistant"@,
            ) || answer_of(messages[j]).len() == 0,
    decreases messages.len(),
{
    if messages.len() == 0 {
        0
    } else if is_answer(messages.last()) && answer_of(messages.last()).len() > 0 {
        messages.len() - 1
    } else {
        let rest = messages.drop_last();
        let i = the_last_answer_that_speaks_counts(rest);
        assert(forall|j: int| 0 <= j < rest.len() ==> rest[j] == #[trigger] messages[j]);
        i
    }
}

/// What a message says is the texts of its blocks, one behind the other.
pub proof fn answers_are_the_texts_of_blocks(message: JsonView)
    ensures
        message.get_array("content"@) is None ==> answer_of(message).len() == 0,
        message.get_array("content"@) matches Some(blocks) ==> answer_of(message) == joined(
            block_texts(blocks),
            Seq::empty(),
        ),
{
    reveal_with_fuel(block_texts, 2);
}

/// Tokens are counted in the messages of the assistant only, and add up over messages and
/// ends.
pub proof fn tokens_are_counted_in_answers(
    messages: Seq<JsonView>,
    message: JsonView,
    events: Seq<JsonView>,
    event: JsonView,
    key: Seq<char>,
)
    ensures
        message.get_str("role"@) != Some("assistant"@) ==> messages_count(
            messages.push(message),
            key,
        ) == messages_count(messages, key),
        message.get_str("role"@) == Some("assistant"@) && (message.get("usage"@) matches Some(u)
            && u.get_u64(key) is Some) ==> messages_count(messages.push(message), key)
            == messages_count(messages, key) + message.get("usage"@)->0.get_u64(key)->0,
        event.get_str("type"@) != Some("agent_end"@) ==> events_count(events.push(event), key)
            == events_count(events, key),
        event.get_str("type"@) == Some("agent_end"@) && event.get_array("messages"@) is Some
            ==> events_count(events.push(event), key) == events_count(events, key)
            + messages_count(event.get_array("messages"@)->0, key),
{
    assert(messages.push(message).drop_last() =~= messages);
    assert(events.push(event).drop_last() =~= events);
}

/// The tokens of a task are its counts, each under its own name.
pub proof fn tokens_are_told_by_name(events: Seq<JsonView>)
    requires
        counts_fit(events),
    ensures
        tokens_in(events).input == events_count(events, "input"@),
        tokens_in(events).output == events_count(events, "output"@),
        tokens_in(events).cache_read == events_count(events, "cacheRead"@),
        tokens_in(events).cache_write == events_count(events, "cacheWrite"@),
        tokens_in(events).cache_creation == 0,
        tokens_in(events).reasoning == 0,
{
}

/// A task succeeds exactly where it ran to an exit code of zero and its counts fit; its
/// output is then the last that was told, and its session too.
pub proof fn only_clean_ends_succeed(launch: LaunchView, timeout_secs: u64)
    ensures
        task_end(launch, timeout_secs) is Ok <==> (launch matches LaunchView::Ran {
            printed,
            log,
            end,
        } && end == ProcessEnd::Exited(Some(0)) && counts_fit(events_in(printed))),
        task_end(launch, timeout_secs) matches Ok(r) ==> (launch matches LaunchView::Ran {
            printed,
            ..
        } && {
            let events = events_in(printed);
            &&& r.session_id == last_told(events, |e: JsonView| session_told(e))
            &&& (last_told(events, |e: JsonView| output_told(e)) matches Some(text) ==> r.output
                == text)
            &&& (last_told(events, |e: JsonView| output_told(e)) is None ==> r.output.len() == 0)
            &&& r.tokens == tokens_in(events)
        }),
{
}

/// The default model is the one that the settings name, with its service in front; without
/// either there is none.
pub proof fn settings_name_service_and_model(shown_path: Seq<char>, s: JsonView)
    ensures
        settings_model(shown_path, Ok(s)) is Ok <==> s.get_str("defaultProvider"@) is Some
            && s.get_str("defaultModel"@) is Some,
        settings_model(shown_path, Ok(s)) matches Ok(m) ==> m == s.get_str("defaultProvider"@)->0
            + seq!['/'] + s.get_str("defaultModel"@)->0,
{
    reveal_strlit("/");
    assert("/"@ =~= seq!['/']);
}

/// What was judged complete is kept as it is, and what was not is refused.
pub proof fn incomplete_outputs_are_refused(
    res: TaskResultView,
    shape: Seq<char>,
    verdict: Result<(), Seq<char>>,
)
    ensures
        judged(res, shape, verdict) is Ok <==> verdict is Ok,
        judged(res, shape, verdict) matches Ok(r) ==> r == res,
{
}

/// A task that did not end in time or ended with another code than zero has failed, and says
/// so with the time or the code.
pub proof fn failures_say_how_it_ended(timeout_secs: u64, log: Seq<Seq<char>>, code: i32)
    ensures
        task_failure(ProcessEnd::Exited(Some(0)), timeout_secs, log) is None,
        task_failure(ProcessEnd::TimedOut, timeout_secs, log) is Some,
        contains_text(
            task_failure(ProcessEnd::TimedOut, timeout_secs, log)->0,
            decimal(timeout_secs as nat),
        ),
        code != 0 ==> (task_failure(
            ProcessEnd::Exited(Some(code)),
            timeout_secs,
            log,
        ) matches Some(e) && has_prefix(e, "pi exited with code "@ + signed_decimal(code as int))
            && has_suffix(e, trimmed(ended_lines(log)))),
{
    let front = "Timeout: pi did not complete within "@;
    let d = decimal(timeout_secs as nat);
    let e = front + d + "s"@;
    assert(e.subrange(front.len() as int, front.len() + d.len() as int) =~= d);
    assert(occurs_at(e, d, front.len() as int));
    if code != 0 {
        let head = "pi exited with code "@ + signed_decimal(code as int);
        let tail = trimmed(ended_lines(log));
        let t = head + ": "@ + tail;
        assert(t.subrange(0, head.len() as int) =~= head);
        assert(t.subrange(t.len() - tail.len(), t.len() as int) =~= tail);
    }
}

/// A task that could not begin changes nothing; one that did is started with what was asked,
/// and what comes back was judged complete.
pub proof fn tasks_come_back_judged<
    W,
    P: Fn(&str) -> Result<(), String>,
    S: Fn(W, &Vec<String>, u64) -> (W, Launch),
>(
    begin: Result<(Seq<Seq<char>>, u64), Seq<char>>,
    wanted: AiTaskSpec<'_, P>,
    start: S,
    before: W,
    launch: LaunchView,
    verdict: Result<(), Seq<char>>,
    after: W,
    r: Result<TaskResultView, Seq<char>>,
)
    requires
        task_follows(begin, wanted, start, before, launch, verdict, after, r),
    ensures
        begin is Err ==> after == before && r is Err,
        begin matches Ok((args, secs)) ==> launched(start, before, args, secs, after, launch),
        r matches Ok(res) ==> verdict is Ok && may_judge(
            wanted.looks_complete,
            res.output,
            Ok(()),
        ) && begin is Ok,
{
}

/// It is the output that is judged: where it is always judged the same, that is the verdict.
pub proof fn the_output_is_judged<P: Fn(&str) -> Result<(), String>>(
    looks_complete: P,
    output: Seq<char>,
    verdict: Result<(), Seq<char>>,
    complete: bool,
)
    requires
        forall|o: &str, v: Result<(), String>| #[trigger]
            call_ensures(looks_complete, (o,), v) && o@ == output ==> (v is Ok <==> complete),
        may_judge(looks_complete, output, verdict),
    ensures
        verdict is Ok <==> complete,
{
}

} // verus!
