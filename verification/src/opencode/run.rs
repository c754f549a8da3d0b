//! Running an agent with an instruction file.

use crate::json::{Json, JsonView, json_in, parse_json};
use crate::opencode::cache::{
    TokenUsage, build_cache_key, cache_key, is_object_name, object_names_can_be_cut,
    read_object_name,
};
use crate::opencode::nudge::reply_view;
use crate::opencode::parts::is_kind;
use crate::opencode::scan::{
    agent_in_log, default_agent, default_model, first_agent, first_logged, first_model,
};
use crate::steps::Step;
use crate::text::{
    contains_text, decimal, decimal_of, join, joined, lines, lines_of, occurs_at, signed_decimal,
    signed_decimal_of, trimmed,
};
use vstd::prelude::*;

verus! {

/// Seconds that a run may take where nothing else is asked for.
pub const DEFAULT_TIMEOUT_SECS: u64 = 300;

/// What stands before every prompt.
pub const INSTRUCTION_PREFIX: &'static str =
    "To answer, make sure you apply strictly the instruction provided in the attached file context.";

/// The events among printed lines, in order. A line that is no JSON is passed over.
pub open spec fn events_of(lines: Seq<Seq<char>>) -> Seq<JsonView>
    decreases lines.len(),
{
    if lines.len() == 0 {
        Seq::empty()
    } else {
        match json_in(lines.last()) {
            Some(event) => events_of(lines.drop_last()).push(event),
            None => events_of(lines.drop_last()),
        }
    }
}

/// The session that the first event with one names.
pub open spec fn session_in(events: Seq<JsonView>) -> Option<Seq<char>>
    decreases events.len(),
{
    if events.len() == 0 {
        None
    } else {
        match session_in(events.drop_last()) {
            Some(s) => Some(s),
            None => events.last().get_str("sessionID"@),
        }
    }
}

/// The session that the first event with one names.
pub open spec fn first_session(lines: Seq<Seq<char>>) -> Option<Seq<char>> {
    session_in(events_of(lines))
}

/// The tokens that an event counts, where it is the end of a step.
pub open spec fn step_tokens(event: JsonView) -> Option<JsonView> {
    if event.get_str("type"@) == Some("step_finish"@) {
        event.get2("part"@, "tokens"@)
    } else {
        None
    }
}

/// A count, where there is one.
pub open spec fn count_in(counts: Option<JsonView>, key: Seq<char>) -> nat {
    match counts {
        Some(v) => match v.get_u64(key) {
            Some(n) => n as nat,
            None => 0,
        },
        None => 0,
    }
}

/// The counts of cached tokens among the counts of a step.
pub open spec fn cache_counts(counts: Option<JsonView>) -> Option<JsonView> {
    match counts {
        Some(v) => v.get("cache"@),
        None => None,
    }
}

/// What is counted in an event.
pub ghost enum Count {
    Input,
    Output,
    Reasoning,
    CacheRead,
    CacheWrite,
}

/// A count of an event.
pub open spec fn event_count(event: JsonView, which: Count) -> nat {
    let counts = step_tokens(event);
    match which {
        Count::Input => count_in(counts, "input"@),
        Count::Output => count_in(counts, "output"@),
        Count::Reasoning => count_in(counts, "reasoning"@),
        Count::CacheRead => count_in(cache_counts(counts), "read"@),
        Count::CacheWrite => count_in(cache_counts(counts), "write"@),
    }
}

/// A count, summed over events.
pub open spec fn summed_count(events: Seq<JsonView>, which: Count) -> nat
    decreases events.len(),
{
    if events.len() == 0 {
        0
    } else {
        summed_count(events.drop_last(), which) + event_count(events.last(), which)
    }
}

/// What the events of a run tell.
pub struct Stream {
    pub session_id: Option<String>,
    pub tokens: TokenUsage,
}

fn count_of_key(counts: Option<&Json>, key: &str) -> (r: u64)
    ensures
        r == count_in(counts.deep_view(), key@),
{
    match counts {
        Some(v) => match v.get_u64(key) {
            Some(n) => n,
            None => 0,
        },
        None => 0,
    }
}

fn usage_of(event: &Json) -> (r: TokenUsage)
    ensures
        r.input == event_count(event@, Count::Input),
        r.output == event_count(event@, Count::Output),
        r.reasoning == event_count(event@, Count::Reasoning),
        r.cache_read == event_count(event@, Count::CacheRead),
        r.cache_write == event_count(event@, Count::CacheWrite),
{
    let counts = if is_kind(event, "step_finish") {
        event.get2("part", "tokens")
    } else {
        None
    };
    let cached = match counts {
        Some(v) => v.get("cache"),
        None => None,
    };
    TokenUsage {
        input: count_of_key(counts, "input"),
        output: count_of_key(counts, "output"),
        reasoning: count_of_key(counts, "reasoning"),
        cache_read: count_of_key(cached, "read"),
        cache_write: count_of_key(cached, "write"),
    }
}

/// Whether the counts of tokens of events fit in 64 bits.
pub open spec fn totals_fit(events: Seq<JsonView>) -> bool {
    &&& summed_count(events, Count::Input) <= u64::MAX
    &&& summed_count(events, Count::Output) <= u64::MAX
    &&& summed_count(events, Count::Reasoning) <= u64::MAX
    &&& summed_count(events, Count::CacheRead) <= u64::MAX
    &&& summed_count(events, Count::CacheWrite) <= u64::MAX
}

/// The tokens that events count.
pub open spec fn total_usage(events: Seq<JsonView>) -> TokenUsage {
    TokenUsage {
        input: summed_count(events, Count::Input) as u64,
        output: summed_count(events, Count::Output) as u64,
        reasoning: summed_count(events, Count::Reasoning) as u64,
        cache_read: summed_count(events, Count::CacheRead) as u64,
        cache_write: summed_count(events, Count::CacheWrite) as u64,
    }
}

/// The events among printed lines, in order.
pub fn events_of_lines(printed: &Vec<String>) -> (r: Vec<Json>)
    ensures
        r.deep_view() == events_of(printed.deep_view()),
{
    let ghost texts = printed.deep_view();
    let mut out: Vec<Json> = Vec::new();
    let mut i: usize = 0;
    assert(texts.take(0) =~= Seq::<Seq<char>>::empty());
    assert(out.deep_view() =~= Seq::<JsonView>::empty());
    while i < printed.len()
        invariant
            i <= printed.len(),
            texts == printed.deep_view(),
            out.deep_view() == events_of(texts.take(i as int)),
        decreases printed.len() - i,
    {
        assert(texts.take(i + 1).drop_last() =~= texts.take(i as int));
        assert(texts.take(i + 1).last() == printed@[i as int]@);
        let ghost before = out.deep_view();
        match parse_json(printed[i].as_str()) {
            Some(event) => {
                let ghost view = event@;
                out.push(event);
                assert(out.deep_view() =~= before.push(view));
            },
            None => {},
        }
        i += 1;
    }
    assert(texts.take(i as int) =~= texts);
    out
}

/// What events tell: the first session that one names, and the tokens that they
/// count. Nothing comes where a count does not fit in 64 bits.
pub fn read_events(events: &Vec<Json>) -> (r: Option<Stream>)
    ensures
        match r {
            Some(s) => totals_fit(events.deep_view()) && s.tokens == total_usage(
                events.deep_view(),
            ) && s.session_id.deep_view() == session_in(events.deep_view()),
            None => !totals_fit(events.deep_view()),
        },
{
    let ghost all = events.deep_view();
    let mut session_id: Option<String> = None;
    let mut input: u128 = 0;
    let mut output: u128 = 0;
    let mut reasoning: u128 = 0;
    let mut cache_read: u128 = 0;
    let mut cache_write: u128 = 0;
    let mut i: usize = 0;
    assert(all.take(0) =~= Seq::<JsonView>::empty());
    while i < events.len()
        invariant
            i <= events.len(),
            all == events.deep_view(),
            session_id.deep_view() == session_in(all.take(i as int)),
            input == summed_count(all.take(i as int), Count::Input),
            output == summed_count(all.take(i as int), Count::Output),
            reasoning == summed_count(all.take(i as int), Count::Reasoning),
            cache_read == summed_count(all.take(i as int), Count::CacheRead),
            cache_write == summed_count(all.take(i as int), Count::CacheWrite),
            input <= i * u64::MAX,
            output <= i * u64::MAX,
            reasoning <= i * u64::MAX,
            cache_read <= i * u64::MAX,
            cache_write <= i * u64::MAX,
        decreases events.len() - i,
    {
        proof {
            assert(all.take(i + 1).drop_last() =~= all.take(i as int));
            assert(all.take(i + 1).last() == events@[i as int]@);
            assert((i + 1) * u64::MAX == i * u64::MAX + u64::MAX) by (nonlinear_arith);
            assert((i + 1) * u64::MAX <= u128::MAX) by (nonlinear_arith)
                requires
                    i < usize::MAX,
            ;
        }
        let event = &events[i];
        if session_id.is_none() {
            session_id = match event.get_str("sessionID") {
                Some(s) => Some(s.to_string()),
                None => None,
            };
        }
        let usage = usage_of(event);
        input = input + usage.input as u128;
        output = output + usage.output as u128;
        reasoning = reasoning + usage.reasoning as u128;
        cache_read = cache_read + usage.cache_read as u128;
        cache_write = cache_write + usage.cache_write as u128;
        i += 1;
    }
    assert(all.take(i as int) =~= all);
    let most: u128 = 0xffff_ffff_ffff_ffff;
    if input <= most && output <= most && reasoning <= most && cache_read <= most && cache_write
        <= most {
        let tokens = TokenUsage {
            input: input as u64,
            output: output as u64,
            reasoning: reasoning as u64,
            cache_read: cache_read as u64,
            cache_write: cache_write as u64,
        };
        Some(Stream { session_id, tokens })
    } else {
        None
    }
}

/// What the events tell that a run printed, one a line.
pub fn read_stream(printed: &Vec<String>) -> (r: Option<Stream>)
    ensures
        match r {
            Some(s) => {
                let events = events_of(printed.deep_view());
                totals_fit(events) && s.tokens == total_usage(events) && s.session_id.deep_view()
                    == session_in(events)
            },
            None => !totals_fit(events_of(printed.deep_view())),
        },
{
    read_events(&events_of_lines(printed))
}

/// The session that the first event with one names.
pub fn session_of_events(events: &Vec<Json>) -> (r: Option<String>)
    ensures
        r.deep_view() == session_in(events.deep_view()),
{
    let ghost all = events.deep_view();
    let mut found: Option<String> = None;
    let mut i: usize = 0;
    assert(all.take(0) =~= Seq::<JsonView>::empty());
    while i < events.len()
        invariant
            i <= events.len(),
            all == events.deep_view(),
            found.deep_view() == session_in(all.take(i as int)),
        decreases events.len() - i,
    {
        assert(all.take(i + 1).drop_last() =~= all.take(i as int));
        assert(all.take(i + 1).last() == events@[i as int]@);
        if found.is_none() {
            found = match events[i].get_str("sessionID") {
                Some(s) => Some(s.to_string()),
                None => None,
            };
        }
        i += 1;
    }
    assert(all.take(i as int) =~= all);
    found
}

/// The text that an event adds to the answer.
pub open spec fn event_text(event: JsonView) -> Seq<char> {
    match event.get2("part"@, "text"@) {
        Some(t) => match t.as_str() {
            Some(s) => s,
            None => Seq::empty(),
        },
        None => Seq::empty(),
    }
}

/// The texts of events, one behind the other.
pub open spec fn text_in(events: Seq<JsonView>) -> Seq<char>
    decreases events.len(),
{
    if events.len() == 0 {
        Seq::empty()
    } else {
        text_in(events.drop_last()) + event_text(events.last())
    }
}

/// The texts of the events among printed lines, one behind the other.
pub open spec fn answer_text(lines: Seq<Seq<char>>) -> Seq<char> {
    text_in(events_of(lines))
}

/// The texts of events, one behind the other.
pub fn text_of_events(events: &Vec<Json>) -> (r: String)
    ensures
        r@ == text_in(events.deep_view()),
{
    let ghost all = events.deep_view();
    let mut text = String::new();
    let mut i: usize = 0;
    assert(all.take(0) =~= Seq::<JsonView>::empty());
    while i < events.len()
        invariant
            i <= events.len(),
            all == events.deep_view(),
            text@ == text_in(all.take(i as int)),
        decreases events.len() - i,
    {
        assert(all.take(i + 1).drop_last() =~= all.take(i as int));
        assert(all.take(i + 1).last() == events@[i as int]@);
        let ghost before = text@;
        assert(before + Seq::<char>::empty() =~= before);
        match events[i].get2("part", "text") {
            Some(t) => match t.as_str() {
                Some(s) => text.append(s),
                None => {},
            },
            None => {},
        }
        i += 1;
    }
    assert(all.take(i as int) =~= all);
    text
}

/// The texts of the events in a run's output, one behind the other.
pub fn extract_text_content(output: &str) -> (r: String)
    ensures
        r@ == answer_text(lines_of(output@)),
{
    text_of_events(&events_of_lines(&lines(output)))
}

/// The default model, from what `opencode debug config` printed or why it failed.
pub open spec fn config_model(config: Result<Seq<char>, Seq<char>>) -> Result<Seq<char>, Seq<char>> {
    match config {
        Ok(printed) => match first_model(lines_of(printed)) {
            Some(m) => Ok(m),
            None => Err("Could not find default model in opencode config"@),
        },
        Err(e) => Err(e),
    }
}

/// The default model, from what `opencode debug config` printed or why it failed.
pub fn get_default_model(config: Result<String, String>) -> (r: Result<String, String>)
    ensures
        reply_view(r) == config_model(reply_view(config)),
{
    match config {
        Ok(printed) => match default_model(printed.as_str()) {
            Some(m) => Ok(m),
            None => Err("Could not find default model in opencode config".to_string()),
        },
        Err(e) => Err(e),
    }
}

/// The default agent, from what `opencode debug config` printed or why it failed.
/// A configuration may name none.
pub open spec fn config_agent(config: Result<Seq<char>, Seq<char>>) -> Result<
    Option<Seq<char>>,
    Seq<char>,
> {
    match config {
        Ok(printed) => Ok(first_agent(lines_of(printed), false, 0)),
        Err(e) => Err(e),
    }
}

/// The name of an agent, or why it is not known.
pub open spec fn agent_view(r: Result<Option<String>, String>) -> Result<
    Option<Seq<char>>,
    Seq<char>,
> {
    match r {
        Ok(a) => Ok(a.deep_view()),
        Err(e) => Err(e@),
    }
}

/// The default agent, from what `opencode debug config` printed or why it failed.
pub fn get_default_agent(config: Result<String, String>) -> (r: Result<Option<String>, String>)
    ensures
        agent_view(r) == config_agent(reply_view(config)),
{
    match config {
        Ok(printed) => Ok(default_agent(printed.as_str())),
        Err(e) => Err(e),
    }
}

/// What a run gave.
#[derive(Clone, Debug)]
pub struct RunResult {
    /// The text of the answer.
    pub output: String,
    /// The session that the events name.
    pub session_id: Option<String>,
    /// The agent that the log names.
    pub agent: Option<String>,
    /// The tokens that the events count.
    pub tokens: TokenUsage,
}

/// The content of what a run gave.
pub ghost struct RunResultView {
    pub output: Seq<char>,
    pub session_id: Option<Seq<char>>,
    pub agent: Option<Seq<char>>,
    pub tokens: TokenUsage,
}

impl View for RunResult {
    type V = RunResultView;

    open spec fn view(&self) -> RunResultView {
        RunResultView {
            output: self.output@,
            session_id: self.session_id.deep_view(),
            agent: self.agent.deep_view(),
            tokens: self.tokens,
        }
    }
}

impl DeepView for RunResult {
    type V = RunResultView;

    open spec fn deep_view(&self) -> RunResultView {
        self.view()
    }
}

/// How a run is wanted.
#[derive(Clone, Debug)]
pub struct RunOptions<'a> {
    /// The model; the configured one where none is named.
    pub model: Option<&'a str>,
    /// The agent; the configured one where none is named.
    pub agent: Option<&'a str>,
    /// Seconds that the run may take.
    pub timeout_secs: Option<u64>,
    /// The session to go on with.
    pub session_id: Option<&'a str>,
    /// Whether to print what happens.
    pub verbose: bool,
    /// Whether a kept result will do. A new result is kept in any case.
    pub cache: bool,
}

impl<'a> Default for RunOptions<'a> {
    fn default() -> (r: RunOptions<'a>)
        ensures
            r.model is None,
            r.agent is None,
            r.timeout_secs is None,
            r.session_id is None,
            !r.verbose,
            r.cache,
    {
        RunOptions {
            model: None,
            agent: None,
            timeout_secs: None,
            session_id: None,
            verbose: false,
            cache: true,
        }
    }
}

/// A prompt behind the sentence that stands before every prompt.
pub open spec fn prefixed(prompt: Seq<char>) -> Seq<char> {
    INSTRUCTION_PREFIX@ + "\n\n"@ + prompt
}

/// A prompt behind the sentence that stands before every prompt.
pub fn full_prompt(prompt: &str) -> (r: String)
    ensures
        r@ == prefixed(prompt@),
{
    let mut s = INSTRUCTION_PREFIX.to_string();
    s.append("\n\n");
    s.append(prompt);
    s
}

/// An argument with a value, where there is one.
pub open spec fn flag(name: Seq<char>, value: Option<Seq<char>>) -> Seq<Seq<char>> {
    match value {
        Some(v) => seq![name + v],
        None => Seq::empty(),
    }
}

/// The arguments of a run.
pub open spec fn run_args(
    model: Seq<char>,
    instruction_file: Seq<char>,
    agent: Option<Seq<char>>,
    session: Option<Seq<char>>,
    prompt: Seq<char>,
) -> Seq<Seq<char>> {
    seq!["run"@, "--model="@ + model, "-f="@ + instruction_file] + flag("--agent="@, agent) + flag(
        "--session="@,
        session,
    ) + seq!["--format=json"@, "--print-logs"@, "--"@, prefixed(prompt)]
}

fn push_flag(args: &mut Vec<String>, name: &str, value: Option<&str>)
    ensures
        final(args).deep_view() == old(args).deep_view() + flag(name@, value.deep_view()),
{
    let ghost before = args.deep_view();
    match value {
        Some(v) => {
            let mut s = name.to_string();
            s.append(v);
            let ghost view = s@;
            args.push(s);
            assert(args.deep_view() =~= before + seq![view]);
        },
        None => {
            assert(before + Seq::<Seq<char>>::empty() =~= before);
        },
    }
}

/// The arguments of a run.
pub fn build_args(
    model: &str,
    instruction_file: &str,
    agent: Option<&str>,
    session: Option<&str>,
    prompt: &str,
) -> (r: Vec<String>)
    ensures
        r.deep_view() == run_args(
            model@,
            instruction_file@,
            agent.deep_view(),
            session.deep_view(),
            prompt@,
        ),
{
    let mut args: Vec<String> = Vec::new();
    args.push("run".to_string());
    let mut s = "--model=".to_string();
    s.append(model);
    args.push(s);
    let mut s = "-f=".to_string();
    s.append(instruction_file);
    args.push(s);
    let ghost head = seq!["run"@, "--model="@ + model@, "-f="@ + instruction_file@];
    assert(args.deep_view() =~= head);
    push_flag(&mut args, "--agent=", agent);
    push_flag(&mut args, "--session=", session);
    let ghost before = args.deep_view();
    args.push("--format=json".to_string());
    args.push("--print-logs".to_string());
    args.push("--".to_string());
    args.push(full_prompt(prompt));
    assert(args.deep_view() =~= before + seq![
        "--format=json"@,
        "--print-logs"@,
        "--"@,
        prefixed(prompt@),
    ]);
    args
}

/// How a process ended: it did not in time, or with an exit code, where it has one.
#[derive(Clone, Copy, PartialEq, Eq, Structural, Debug)]
pub enum ProcessEnd {
    TimedOut,
    Exited(Option<i32>),
}

/// What came of starting a process.
#[derive(Debug)]
pub enum Launch {
    /// There is no such program.
    NotFound,
    /// It could not be started.
    Failed(String),
    /// It was started and could not be waited for.
    Lost(String),
    /// It ran: the lines it printed, the lines of its log, and how it ended.
    Ran { printed: Vec<String>, log: Vec<String>, end: ProcessEnd },
}

/// The content of what came of starting a process.
pub ghost enum LaunchView {
    NotFound,
    Failed(Seq<char>),
    Lost(Seq<char>),
    Ran { printed: Seq<Seq<char>>, log: Seq<Seq<char>>, end: ProcessEnd },
}

impl View for Launch {
    type V = LaunchView;

    open spec fn view(&self) -> LaunchView {
        match self {
            Launch::NotFound => LaunchView::NotFound,
            Launch::Failed(e) => LaunchView::Failed(e@),
            Launch::Lost(e) => LaunchView::Lost(e@),
            Launch::Ran { printed, log, end } => LaunchView::Ran {
                printed: printed.deep_view(),
                log: log.deep_view(),
                end: *end,
            },
        }
    }
}

/// What is said where the program is not there.
pub open spec fn not_found() -> Seq<char> {
    "opencode not found. Install it or add it to PATH."@
}

/// What is said of a process that did not end well.
pub open spec fn end_failure(end: ProcessEnd, timeout_secs: u64, model: Seq<char>) -> Option<
    Seq<char>,
> {
    match end {
        ProcessEnd::TimedOut => Some(
            "Timeout: opencode did not complete within "@ + decimal(timeout_secs as nat)
                + "s. The model '"@ + model + "' may be slow or unresponsive."@,
        ),
        ProcessEnd::Exited(Some(0)) => None,
        ProcessEnd::Exited(Some(127)) => Some(not_found()),
        ProcessEnd::Exited(Some(code)) => Some(
            "opencode exited with code "@ + signed_decimal(code as int),
        ),
        ProcessEnd::Exited(None) => Some("opencode exited with code "@ + signed_decimal(-1)),
    }
}

/// What is said of a process that did not end well.
pub fn check_end(end: ProcessEnd, timeout_secs: u64, model: &str) -> (r: Option<String>)
    ensures
        r.deep_view() == end_failure(end, timeout_secs, model@),
{
    match end {
        ProcessEnd::TimedOut => {
            let mut s = "Timeout: opencode did not complete within ".to_string();
            s.append(decimal_of(timeout_secs).as_str());
            s.append("s. The model '");
            s.append(model);
            s.append("' may be slow or unresponsive.");
            Some(s)
        },
        ProcessEnd::Exited(Some(0)) => None,
        ProcessEnd::Exited(Some(127)) => Some(
            "opencode not found. Install it or add it to PATH.".to_string(),
        ),
        ProcessEnd::Exited(code) => {
            let code: i64 = match code {
                Some(c) => c as i64,
                None => -1,
            };
            let mut s = "opencode exited with code ".to_string();
            s.append(signed_decimal_of(code).as_str());
            Some(s)
        },
    }
}

/// What a run gave, or why it failed, from what came of starting it.
pub open spec fn run_end(launch: LaunchView, timeout_secs: u64, model: Seq<char>) -> Result<
    RunResultView,
    Seq<char>,
> {
    match launch {
        LaunchView::NotFound => Err(not_found()),
        LaunchView::Failed(e) => Err("Failed to spawn opencode: "@ + e),
        LaunchView::Lost(e) => Err(e),
        LaunchView::Ran { printed, log, end } => if !totals_fit(events_of(printed)) {
            Err("the counts of tokens do not fit in 64 bits"@)
        } else {
            match end_failure(end, timeout_secs, model) {
                Some(e) => Err(e),
                None => Ok(
                    RunResultView {
                        output: answer_text(lines_of(joined(printed, "\n"@))),
                        session_id: first_session(printed),
                        agent: first_logged(log),
                        tokens: total_usage(events_of(printed)),
                    },
                ),
            }
        },
    }
}

/// A result, or why there is none.
pub open spec fn result_view(r: Result<RunResult, String>) -> Result<RunResultView, Seq<char>> {
    match r {
        Ok(res) => Ok(res@),
        Err(e) => Err(e@),
    }
}

/// What a run gave, or why it failed, from what came of starting it.
pub fn finish_run(launch: &Launch, timeout_secs: u64, model: &str) -> (r: Result<RunResult, String>)
    ensures
        result_view(r) == run_end(launch@, timeout_secs, model@),
{
    match launch {
        Launch::NotFound => Err("opencode not found. Install it or add it to PATH.".to_string()),
        Launch::Failed(e) => {
            let mut s = "Failed to spawn opencode: ".to_string();
            s.append(e.as_str());
            Err(s)
        },
        Launch::Lost(e) => Err(e.clone()),
        Launch::Ran { printed, log, end } => match read_stream(printed) {
            Some(stream) => match check_end(*end, timeout_secs, model) {
                Some(e) => Err(e),
                None => {
                    let output = extract_text_content(join(printed, "\n").as_str());
                    let agent = agent_in_log(log);
                    Ok(
                        RunResult {
                            output,
                            session_id: stream.session_id,
                            agent,
                            tokens: stream.tokens,
                        },
                    )
                },
            },
            None => Err("the counts of tokens do not fit in 64 bits".to_string()),
        },
    }
}

/// What was answered to the requests of a run so far.
#[derive(Debug)]
pub struct RunAnswers {
    /// What `opencode debug config` printed when asked for the model.
    pub model_config: Option<Result<String, String>>,
    /// What it printed when asked for the agent.
    pub agent_config: Option<Result<String, String>>,
    /// What `git hash-object` printed for the instruction file.
    pub file_hash: Option<Result<String, String>>,
    /// What it printed for the prompt.
    pub prompt_hash: Option<Result<String, String>>,
    /// The result that was kept, if there was one.
    pub kept: Option<Option<RunResult>>,
    /// What came of starting the process.
    pub launch: Option<Launch>,
    /// Whether the new result was handed over to be kept.
    pub written: bool,
}

/// What was answered to the requests of a run so far.
#[verifier::ext_equal]
pub ghost struct RunAnswersView {
    pub model_config: Option<Result<Seq<char>, Seq<char>>>,
    pub agent_config: Option<Result<Seq<char>, Seq<char>>>,
    pub file_hash: Option<Result<Seq<char>, Seq<char>>>,
    pub prompt_hash: Option<Result<Seq<char>, Seq<char>>>,
    pub kept: Option<Option<RunResultView>>,
    pub launch: Option<LaunchView>,
    pub written: bool,
}

/// The content of a reply, where there is one.
pub open spec fn told(r: Option<Result<String, String>>) -> Option<Result<Seq<char>, Seq<char>>> {
    match r {
        Some(r) => Some(reply_view(r)),
        None => None,
    }
}

impl View for RunAnswers {
    type V = RunAnswersView;

    open spec fn view(&self) -> RunAnswersView {
        RunAnswersView {
            model_config: told(self.model_config),
            agent_config: told(self.agent_config),
            file_hash: told(self.file_hash),
            prompt_hash: told(self.prompt_hash),
            kept: self.kept.deep_view(),
            launch: match self.launch {
                Some(l) => Some(l@),
                None => None,
            },
            written: self.written,
        }
    }
}

/// Before anything was asked.
pub open spec fn no_answers() -> RunAnswersView {
    RunAnswersView {
        model_config: None,
        agent_config: None,
        file_hash: None,
        prompt_hash: None,
        kept: None,
        launch: None,
        written: false,
    }
}

impl RunAnswers {
    /// Before anything was asked.
    pub fn none() -> (r: RunAnswers)
        ensures
            r@ == no_answers(),
    {
        RunAnswers {
            model_config: None,
            agent_config: None,
            file_hash: None,
            prompt_hash: None,
            kept: None,
            launch: None,
            written: false,
        }
    }
}

/// A request of a run.
#[derive(Debug)]
pub enum RunRequest {
    /// What does `opencode debug config` print?
    Config,
    /// What does `git hash-object` print for the file?
    HashFile(String),
    /// What does it print for the text?
    HashText(String),
    /// Which result is kept under the name?
    Read(String),
    /// Run `opencode` with the arguments for so many seconds.
    Start(Vec<String>, u64),
    /// Keep the result under the name.
    Keep(String, RunResult),
}

/// A request of a run.
pub ghost enum RunRequestView {
    Config,
    HashFile(Seq<char>),
    HashText(Seq<char>),
    Read(Seq<char>),
    Start(Seq<Seq<char>>, u64),
    Keep(Seq<char>, RunResultView),
}

impl View for RunRequest {
    type V = RunRequestView;

    open spec fn view(&self) -> RunRequestView {
        match self {
            RunRequest::Config => RunRequestView::Config,
            RunRequest::HashFile(path) => RunRequestView::HashFile(path@),
            RunRequest::HashText(text) => RunRequestView::HashText(text@),
            RunRequest::Read(key) => RunRequestView::Read(key@),
            RunRequest::Start(args, secs) => RunRequestView::Start(args.deep_view(), *secs),
            RunRequest::Keep(key, res) => RunRequestView::Keep(key@, res@),
        }
    }
}

/// The model of a run, as far as it is known.
pub open spec fn model_of(options: RunOptions<'_>, a: RunAnswersView) -> Option<
    Result<Seq<char>, Seq<char>>,
> {
    match (options.model, a.model_config) {
        (Some(m), _) => Some(Ok(m@)),
        (None, Some(config)) => Some(config_model(config)),
        (None, None) => None,
    }
}

/// The agent of a run, as far as it is known.
pub open spec fn agent_of(options: RunOptions<'_>, a: RunAnswersView) -> Option<
    Result<Option<Seq<char>>, Seq<char>>,
> {
    match (options.agent, a.agent_config) {
        (Some(n), _) => Some(Ok(Some(n@))),
        (None, Some(config)) => Some(config_agent(config)),
        (None, None) => None,
    }
}

/// The object name that was printed, or a complaint.
pub open spec fn hash_of(printed: Result<Seq<char>, Seq<char>>, complaint: Seq<char>) -> Result<
    Seq<char>,
    Seq<char>,
> {
    match printed {
        Ok(p) => if is_object_name(trimmed(p)) {
            Ok(trimmed(p))
        } else {
            Err(complaint)
        },
        Err(_) => Err(complaint),
    }
}

/// Seconds that a run may take.
pub open spec fn timeout_of(options: RunOptions<'_>) -> u64 {
    match options.timeout_secs {
        Some(s) => s,
        None => DEFAULT_TIMEOUT_SECS,
    }
}

/// Whether a kept result will do.
pub open spec fn may_use_kept(options: RunOptions<'_>) -> bool {
    options.cache && options.session_id is None
}

/// What is run: the prompt and the instruction file, the model, the agent, and the
/// object names of the file and the prompt.
pub ghost struct RunFacts {
    pub prompt: Seq<char>,
    pub instruction_file: Seq<char>,
    pub model: Seq<char>,
    pub agent: Option<Seq<char>>,
    pub file_hash: Seq<char>,
    pub prompt_hash: Seq<char>,
}

/// What comes next once all names are known: the kept result where one will do,
/// else the process, and then, unless a session goes on, its result is kept under
/// the agent that the log names.
pub open spec fn start_step(f: RunFacts, options: RunOptions<'_>, a: RunAnswersView) -> Step<
    RunRequestView,
    Result<RunResultView, Seq<char>>,
> {
    if may_use_kept(options) && a.kept is None {
        Step::Request(
            RunRequestView::Read(cache_key(f.agent, f.model, f.file_hash, f.prompt_hash)),
        )
    } else if may_use_kept(options) && a.kept->0 is Some {
        Step::Done(Ok(a.kept->0->0))
    } else {
        match a.launch {
            None => Step::Request(
                RunRequestView::Start(
                    run_args(
                        f.model,
                        f.instruction_file,
                        f.agent,
                        options.session_id.deep_view(),
                        f.prompt,
                    ),
                    timeout_of(options),
                ),
            ),
            Some(launch) => match run_end(launch, timeout_of(options), f.model) {
                Err(e) => Step::Done(Err(e)),
                Ok(res) => if options.session_id is None && !a.written {
                    Step::Request(
                        RunRequestView::Keep(
                            cache_key(res.agent, f.model, f.file_hash, f.prompt_hash),
                            res,
                        ),
                    )
                } else {
                    Step::Done(Ok(res))
                },
            },
        }
    }
}

/// What comes next in a run, given the answers so far: the model, the agent, and
/// the object names of the instruction file and the prompt are asked for in turn,
/// up to the first failure.
pub open spec fn run_step(
    prompt: Seq<char>,
    instruction_file: Seq<char>,
    options: RunOptions<'_>,
    a: RunAnswersView,
) -> Step<RunRequestView, Result<RunResultView, Seq<char>>> {
    match model_of(options, a) {
        None => Step::Request(RunRequestView::Config),
        Some(Err(e)) => Step::Done(Err(e)),
        Some(Ok(model)) => match agent_of(options, a) {
            None => Step::Request(RunRequestView::Config),
            Some(Err(e)) => Step::Done(Err(e)),
            Some(Ok(agent)) => match a.file_hash {
                None => Step::Request(RunRequestView::HashFile(instruction_file)),
                Some(printed) => match hash_of(printed, "Failed to hash instruction file"@) {
                    Err(e) => Step::Done(Err(e)),
                    Ok(file_hash) => match a.prompt_hash {
                        None => Step::Request(RunRequestView::HashText(prefixed(prompt))),
                        Some(printed) => match hash_of(printed, "Failed to hash prompt"@) {
                            Err(e) => Step::Done(Err(e)),
                            Ok(prompt_hash) => start_step(
                                RunFacts {
                                    prompt,
                                    instruction_file,
                                    model,
                                    agent,
                                    file_hash,
                                    prompt_hash,
                                },
                                options,
                                a,
                            ),
                        },
                    },
                },
            },
        },
    }
}

/// A kept result saves the run: where one will do and is there, no process is
/// started and nothing is kept. Where a session goes on, no kept result is asked
/// for, and none is kept.
pub proof fn kept_results_save_the_run(
    prompt: Seq<char>,
    instruction_file: Seq<char>,
    options: RunOptions<'_>,
    a: RunAnswersView,
)
    ensures
        may_use_kept(options) && !(a.kept matches Some(None)) ==> (run_step(
            prompt,
            instruction_file,
            options,
            a,
        ) matches Step::Request(q) ==> !(q is Start) && !(q is Keep)),
        options.session_id is Some ==> (run_step(
            prompt,
            instruction_file,
            options,
            a,
        ) matches Step::Request(q) ==> !(q is Read) && !(q is Keep)),
{
}

/// The content of a step.
pub open spec fn run_step_view(s: Step<RunRequest, Result<RunResult, String>>) -> Step<
    RunRequestView,
    Result<RunResultView, Seq<char>>,
> {
    match s {
        Step::Request(q) => Step::Request(q@),
        Step::Done(r) => Step::Done(result_view(r)),
    }
}

fn copied_result(r: &RunResult) -> (c: RunResult)
    ensures
        c@ == r@,
{
    RunResult {
        output: r.output.clone(),
        session_id: copied_text(&r.session_id),
        agent: copied_text(&r.agent),
        tokens: r.tokens,
    }
}

fn copied_text(s: &Option<String>) -> (r: Option<String>)
    ensures
        r.deep_view() == s.deep_view(),
{
    match s {
        Some(t) => Some(t.clone()),
        None => None,
    }
}

fn copied_reply(r: &Result<String, String>) -> (c: Result<String, String>)
    ensures
        reply_view(c) == reply_view(*r),
{
    match r {
        Ok(s) => Ok(s.clone()),
        Err(e) => Err(e.clone()),
    }
}

fn known_model(options: &RunOptions<'_>, a: &RunAnswers) -> (r: Option<Result<String, String>>)
    ensures
        told(r) == model_of(*options, a@),
{
    match options.model {
        Some(m) => Some(Ok(m.to_string())),
        None => match &a.model_config {
            Some(config) => Some(get_default_model(copied_reply(config))),
            None => None,
        },
    }
}

fn known_agent(options: &RunOptions<'_>, a: &RunAnswers) -> (r: Option<
    Result<Option<String>, String>,
>)
    ensures
        match r {
            Some(n) => agent_of(*options, a@) == Some(agent_view(n)),
            None => agent_of(*options, a@) is None,
        },
{
    match options.agent {
        Some(n) => Some(Ok(Some(n.to_string()))),
        None => match &a.agent_config {
            Some(config) => Some(get_default_agent(copied_reply(config))),
            None => None,
        },
    }
}

fn next_start_step(
    prompt: &str,
    instruction_file: &str,
    names: (&str, Option<&str>, &str, &str),
    options: &RunOptions<'_>,
    a: &RunAnswers,
) -> (r: Step<RunRequest, Result<RunResult, String>>)
    requires
        is_object_name(names.2@),
        is_object_name(names.3@),
    ensures
        run_step_view(r) == start_step(
            RunFacts {
                prompt: prompt@,
                instruction_file: instruction_file@,
                model: names.0@,
                agent: names.1.deep_view(),
                file_hash: names.2@,
                prompt_hash: names.3@,
            },
            *options,
            a@,
        ),
{
    let (model, agent, file_hash, prompt_hash) = names;
    proof {
        object_names_can_be_cut(file_hash@, 8);
        object_names_can_be_cut(prompt_hash@, 8);
    }
    if options.cache && options.session_id.is_none() {
        match &a.kept {
            None => {
                return Step::Request(
                    RunRequest::Read(build_cache_key(agent, model, file_hash, prompt_hash)),
                );
            },
            Some(Some(kept)) => {
                return Step::Done(Ok(copied_result(kept)));
            },
            Some(None) => {},
        }
    }
    let timeout_secs: u64 = match options.timeout_secs {
        Some(s) => s,
        None => DEFAULT_TIMEOUT_SECS,
    };
    match &a.launch {
        None => Step::Request(
            RunRequest::Start(
                build_args(model, instruction_file, agent, options.session_id, prompt),
                timeout_secs,
            ),
        ),
        Some(launch) => match finish_run(launch, timeout_secs, model) {
            Err(e) => Step::Done(Err(e)),
            Ok(res) => {
                if options.session_id.is_none() && !a.written {
                    let key = build_cache_key(opt_str(&res.agent), model, file_hash, prompt_hash);
                    Step::Request(RunRequest::Keep(key, res))
                } else {
                    Step::Done(Ok(res))
                }
            },
        },
    }
}

/// What comes next in a run, given the answers so far.
pub fn next_step(
    prompt: &str,
    instruction_file: &str,
    options: &RunOptions<'_>,
    a: &RunAnswers,
) -> (r: Step<RunRequest, Result<RunResult, String>>)
    ensures
        run_step_view(r) == run_step(prompt@, instruction_file@, *options, a@),
        may_use_kept(*options) && !(a@.kept matches Some(None)) ==> (r matches Step::Request(q)
            ==> !(q is Start) && !(q is Keep)),
        options.session_id is Some ==> (r matches Step::Request(q) ==> !(q is Read) && !(
        q is Keep)),
{
    let model = match known_model(options, a) {
        None => {
            return Step::Request(RunRequest::Config);
        },
        Some(Err(e)) => {
            return Step::Done(Err(e));
        },
        Some(Ok(m)) => m,
    };
    let agent = match known_agent(options, a) {
        None => {
            return Step::Request(RunRequest::Config);
        },
        Some(Err(e)) => {
            return Step::Done(Err(e));
        },
        Some(Ok(n)) => n,
    };
    let file_hash = match &a.file_hash {
        None => {
            return Step::Request(RunRequest::HashFile(instruction_file.to_string()));
        },
        Some(printed) => match read_hash(printed) {
            Some(h) => h,
            None => {
                return Step::Done(Err("Failed to hash instruction file".to_string()));
            },
        },
    };
    let prompt_hash = match &a.prompt_hash {
        None => {
            return Step::Request(RunRequest::HashText(full_prompt(prompt)));
        },
        Some(printed) => match read_hash(printed) {
            Some(h) => h,
            None => {
                return Step::Done(Err("Failed to hash prompt".to_string()));
            },
        },
    };
    next_start_step(
        prompt,
        instruction_file,
        (model.as_str(), opt_str(&agent), file_hash.as_str(), prompt_hash.as_str()),
        options,
        a,
    )
}

/// The answers with what `opencode debug config` printed: for the model first.
pub open spec fn with_config(
    options: RunOptions<'_>,
    a: RunAnswersView,
    reply: Result<Seq<char>, Seq<char>>,
) -> RunAnswersView {
    if model_of(options, a) is None {
        RunAnswersView { model_config: Some(reply), ..a }
    } else {
        RunAnswersView { agent_config: Some(reply), ..a }
    }
}

/// Whether starting a process came to this, from one state of what it acts on to
/// another.
pub open spec fn launched<W, P: Fn(W, &Vec<String>, u64) -> (W, Launch)>(
    start: P,
    before: W,
    args: Seq<Seq<char>>,
    timeout_secs: u64,
    after: W,
    reply: LaunchView,
) -> bool {
    exists|v: &Vec<String>, r: Launch| #[trigger]
        call_ensures(start, (before, v, timeout_secs), (after, r)) && v.deep_view() == args && r@
            == reply
}

/// Whether a result was handed over to be kept under a name, from one state of
/// what this acts on to another.
pub open spec fn was_kept<W, K: Fn(W, &str, &RunResult) -> W>(
    keep: K,
    before: W,
    key: Seq<char>,
    result: RunResultView,
    after: W,
) -> bool {
    exists|k: &str, r: &RunResult| #[trigger]
        call_ensures(keep, (before, k, r), after) && k@ == key && r@ == result
}

/// Whether the request that comes next was made, from one state to another. A
/// state is what the requests act on, and the answers so far.
pub open spec fn request_made<
    W,
    C: Fn(W) -> (W, Result<String, String>),
    H: Fn(W, &str) -> (W, Result<String, String>),
    T: Fn(W, &str) -> (W, Result<String, String>),
    R: Fn(W, &str) -> (W, Option<RunResult>),
    P: Fn(W, &Vec<String>, u64) -> (W, Launch),
    K: Fn(W, &str, &RunResult) -> W,
>(
    step: Step<RunRequestView, Result<RunResultView, Seq<char>>>,
    options: RunOptions<'_>,
    doors: (C, H, T, R, P, K),
    before: (W, RunAnswersView),
    after: (W, RunAnswersView),
) -> bool {
    match step {
        Step::Request(RunRequestView::Config) => exists|r: Result<String, String>| #[trigger]
            call_ensures(doors.0, (before.0,), (after.0, r)) && after.1 == with_config(
                options,
                before.1,
                reply_view(r),
            ),
        Step::Request(RunRequestView::HashFile(path)) => exists|t: &str, r: Result<String, String>|
         #[trigger]
            call_ensures(doors.1, (before.0, t), (after.0, r)) && t@ == path && after.1 == (
            RunAnswersView { file_hash: Some(reply_view(r)), ..before.1 }),
        Step::Request(RunRequestView::HashText(text)) => exists|t: &str, r: Result<String, String>|
         #[trigger]
            call_ensures(doors.2, (before.0, t), (after.0, r)) && t@ == text && after.1 == (
            RunAnswersView { prompt_hash: Some(reply_view(r)), ..before.1 }),
        Step::Request(RunRequestView::Read(key)) => exists|k: &str, r: Option<RunResult>|
         #[trigger]
            call_ensures(doors.3, (before.0, k), (after.0, r)) && k@ == key && after.1 == (
            RunAnswersView { kept: Some(r.deep_view()), ..before.1 }),
        Step::Request(RunRequestView::Start(args, secs)) => {
            &&& after.1.launch matches Some(l)
            &&& launched(doors.4, before.0, args, secs, after.0, l)
            &&& after.1 == (RunAnswersView { launch: Some(l), ..before.1 })
        },
        Step::Request(RunRequestView::Keep(key, res)) => {
            &&& was_kept(doors.5, before.0, key, res, after.0)
            &&& after.1 == (RunAnswersView { written: true, ..before.1 })
        },
        Step::Done(_) => false,
    }
}

/// Whether the requests that come next, and no others, lead from one state over
/// those in `path` to another.
pub open spec fn requests_lead<
    W,
    C: Fn(W) -> (W, Result<String, String>),
    H: Fn(W, &str) -> (W, Result<String, String>),
    T: Fn(W, &str) -> (W, Result<String, String>),
    R: Fn(W, &str) -> (W, Option<RunResult>),
    P: Fn(W, &Vec<String>, u64) -> (W, Launch),
    K: Fn(W, &str, &RunResult) -> W,
>(
    prompt: Seq<char>,
    instruction_file: Seq<char>,
    options: RunOptions<'_>,
    doors: (C, H, T, R, P, K),
    path: Seq<(W, RunAnswersView)>,
    from: (W, RunAnswersView),
    to: (W, RunAnswersView),
) -> bool
    decreases path.len(),
{
    if path.len() == 0 {
        from == to
    } else {
        request_made(
            run_step(prompt, instruction_file, options, path.last().1),
            options,
            doors,
            path.last(),
            to,
        ) && requests_lead(
            prompt,
            instruction_file,
            options,
            doors,
            path.drop_last(),
            from,
            path.last(),
        )
    }
}

/// How many requests can still come.
spec fn requests_left(a: RunAnswersView) -> nat {
    (if a.model_config is None {
        1nat
    } else {
        0
    }) + (if a.agent_config is None {
        1nat
    } else {
        0
    }) + (if a.file_hash is None {
        1nat
    } else {
        0
    }) + (if a.prompt_hash is None {
        1nat
    } else {
        0
    }) + (if a.kept is None {
        1nat
    } else {
        0
    }) + (if a.launch is None {
        1nat
    } else {
        0
    }) + (if a.written {
        0
    } else {
        1nat
    })
}

/// Runs an agent with a prompt and an instruction file.
///
/// `config` gives what `opencode debug config` prints, `hash_file` and
/// `hash_text` what `git hash-object` prints for a file and for a text, `read`
/// the result that is kept under a name, `start` runs `opencode` with arguments
/// for so many seconds, and `keep` keeps a result under a name.
///
/// `world` stands for what these act on. Each call takes it over from the one
/// before, so that the calls are told apart by what they leave behind: the
/// requests that come next were made, each once and in order, and no others.
pub fn run<
    W,
    C: Fn(W) -> (W, Result<String, String>),
    H: Fn(W, &str) -> (W, Result<String, String>),
    T: Fn(W, &str) -> (W, Result<String, String>),
    R: Fn(W, &str) -> (W, Option<RunResult>),
    P: Fn(W, &Vec<String>, u64) -> (W, Launch),
    K: Fn(W, &str, &RunResult) -> W,
>(
    prompt: &str,
    instruction_file: &str,
    options: &RunOptions<'_>,
    world: W,
    config: C,
    hash_file: H,
    hash_text: T,
    read: R,
    start: P,
    keep: K,
) -> (r: (W, Result<RunResult, String>))
    requires
        forall|w: W| call_requires(config, (w,)),
        forall|w: W, t: &str| call_requires(hash_file, (w, t)),
        forall|w: W, t: &str| call_requires(hash_text, (w, t)),
        forall|w: W, k: &str| call_requires(read, (w, k)),
        forall|w: W, v: &Vec<String>, s: u64| call_requires(start, (w, v, s)),
        forall|w: W, k: &str, res: &RunResult| call_requires(keep, (w, k, res)),
    ensures
        exists|path: Seq<(W, RunAnswersView)>, a: RunAnswersView| #[trigger]
            requests_lead(
                prompt@,
                instruction_file@,
                *options,
                (config, hash_file, hash_text, read, start, keep),
                path,
                (world, no_answers()),
                (r.0, a),
            ) && run_step(prompt@, instruction_file@, *options, a) == Step::<
                RunRequestView,
                Result<RunResultView, Seq<char>>,
            >::Done(result_view(r.1)),
{
    let ghost doors = (config, hash_file, hash_text, read, start, keep);
    let mut a = RunAnswers::none();
    let mut now = world;
    let ghost mut path: Seq<(W, RunAnswersView)> = Seq::empty();
    loop
        invariant
            forall|w: W| call_requires(config, (w,)),
            forall|w: W, t: &str| call_requires(hash_file, (w, t)),
            forall|w: W, t: &str| call_requires(hash_text, (w, t)),
            forall|w: W, k: &str| call_requires(read, (w, k)),
            forall|w: W, v: &Vec<String>, s: u64| call_requires(start, (w, v, s)),
            forall|w: W, k: &str, res: &RunResult| call_requires(keep, (w, k, res)),
            doors == (config, hash_file, hash_text, read, start, keep),
            requests_lead(
                prompt@,
                instruction_file@,
                *options,
                doors,
                path,
                (world, no_answers()),
                (now, a@),
            ),
        decreases requests_left(a@) + 1,
    {
        let ghost before = (now, a@);
        let ghost step = run_step(prompt@, instruction_file@, *options, a@);
        match next_step(prompt, instruction_file, options, &a) {
            Step::Request(RunRequest::Config) => {
                let (after, reply) = config(now);
                now = after;
                let ghost given = reply;
                if options.model.is_none() && a.model_config.is_none() {
                    a.model_config = Some(reply);
                } else {
                    a.agent_config = Some(reply);
                }
                assert(a@ =~= with_config(*options, before.1, reply_view(given)));
                assert(call_ensures(doors.0, (before.0,), (now, given)));
                assert(request_made(step, *options, doors, before, (now, a@)));
            },
            Step::Request(RunRequest::HashFile(file)) => {
                let file = file.as_str();
                let (after, reply) = hash_file(now, file);
                now = after;
                let ghost given = reply;
                a.file_hash = Some(reply);
                assert(a@ =~= RunAnswersView { file_hash: Some(reply_view(given)), ..before.1 });
                assert(call_ensures(doors.1, (before.0, file), (now, given)));
                assert(request_made(step, *options, doors, before, (now, a@)));
            },
            Step::Request(RunRequest::HashText(text)) => {
                let text = text.as_str();
                let (after, reply) = hash_text(now, text);
                now = after;
                let ghost given = reply;
                a.prompt_hash = Some(reply);
                assert(a@ =~= RunAnswersView { prompt_hash: Some(reply_view(given)), ..before.1 });
                assert(call_ensures(doors.2, (before.0, text), (now, given)));
                assert(request_made(step, *options, doors, before, (now, a@)));
            },
            Step::Request(RunRequest::Read(key)) => {
                let key = key.as_str();
                let (after, kept) = read(now, key);
                now = after;
                let ghost given = kept;
                a.kept = Some(kept);
                assert(a@ =~= RunAnswersView { kept: Some(given.deep_view()), ..before.1 });
                assert(call_ensures(doors.3, (before.0, key), (now, given)));
                assert(request_made(step, *options, doors, before, (now, a@)));
            },
            Step::Request(RunRequest::Start(args, secs)) => {
                assert(step == Step::<RunRequestView, Result<RunResultView, Seq<char>>>::Request(
                    RunRequestView::Start(args.deep_view(), secs),
                ));
                let (after, launch) = start(now, &args, secs);
                now = after;
                let ghost given = launch;
                a.launch = Some(launch);
                assert(a@ =~= RunAnswersView { launch: Some(given@), ..before.1 });
                assert(launched(doors.4, before.0, args.deep_view(), secs, now, given@));
                assert(request_made(step, *options, doors, before, (now, a@)));
            },
            Step::Request(RunRequest::Keep(key, res)) => {
                let key = key.as_str();
                now = keep(now, key, &res);
                a.written = true;
                assert(a@ =~= RunAnswersView { written: true, ..before.1 });
                assert(call_ensures(doors.5, (before.0, key, &res), now));
                assert(was_kept(doors.5, before.0, key@, res@, now));
                assert(request_made(step, *options, doors, before, (now, a@)));
            },
            Step::Done(end) => {
                let r = (now, end);
                assert(requests_lead(
                    prompt@,
                    instruction_file@,
                    *options,
                    doors,
                    path,
                    (world, no_answers()),
                    (r.0, a@),
                ));
                return r;
            },
        }
        proof {
            assert(path.push(before).drop_last() =~= path);
            path = path.push(before);
        }
    }
}

fn opt_str(s: &Option<String>) -> (r: Option<&str>)
    ensures
        r.deep_view() == s.deep_view(),
{
    match s {
        Some(t) => Some(t.as_str()),
        None => None,
    }
}

fn read_hash(printed: &Result<String, String>) -> (r: Option<String>)
    ensures
        match r {
            Some(h) => *printed matches Ok(p) && is_object_name(trimmed(p@)) && h@ == trimmed(p@),
            None => *printed matches Ok(p) ==> !is_object_name(trimmed(p@)),
        },
{
    match printed {
        Ok(p) => match read_object_name(p.as_str()) {
            Ok(h) => Some(h),
            Err(_) => None,
        },
        Err(_) => None,
    }
}

/// What is printed is read line by line; a line that cannot be read says nothing.
pub proof fn printed_lines_are_read_in_order(lines: Seq<Seq<char>>, line: Seq<char>)
    ensures
        json_in(line) matches Some(v) ==> events_of(lines.push(line)) == events_of(lines).push(v),
        json_in(line) is None ==> events_of(lines.push(line)) == events_of(lines),
{
    assert(lines.push(line).drop_last() =~= lines);
}

/// The session of a run is the one that the first event that names one names. Gives which.
pub proof fn the_first_session_counts(events: Seq<JsonView>) -> (i: int)
    ensures
        match session_in(events) {
            Some(s) => 0 <= i < events.len() && events[i].get_str("sessionID"@) == Some(s)
                && forall|j: int|
                0 <= j < i ==> (#[trigger] events[j]).get_str("sessionID"@) is None,
            None => forall|j: int|
                0 <= j < events.len() ==> (#[trigger] events[j]).get_str("sessionID"@) is None,
        },
    decreases events.len(),
{
    if events.len() == 0 {
        0
    } else {
        let rest = events.drop_last();
        let i = the_first_session_counts(rest);
        assert(forall|j: int| 0 <= j < rest.len() ==> rest[j] == #[trigger] events[j]);
        if session_in(rest) is Some {
            i
        } else {
            events.len() - 1
        }
    }
}

/// The answer is what the events say, one behind the other.
pub proof fn texts_are_put_behind_each_other(events: Seq<JsonView>, event: JsonView)
    ensures
        text_in(Seq::empty()).len() == 0,
        (event.get("part"@) matches Some(part) && part.get_str("text"@) is Some) ==> text_in(
            events.push(event),
        ) == text_in(events) + event.get("part"@)->0.get_str("text"@)->0,
        event.get("part"@) is None || event.get("part"@)->0.get_str("text"@) is None ==> text_in(
            events.push(event),
        ) == text_in(events),
{
    assert(events.push(event).drop_last() =~= events);
    assert(text_in(events) + Seq::<char>::empty() =~= text_in(events));
}

/// Tokens are counted at the end of each step and add up.
pub proof fn tokens_add_up_over_steps(events: Seq<JsonView>, event: JsonView)
    ensures
        event.get_str("type"@) != Some("step_finish"@) ==> forall|c: Count| #[trigger]
            summed_count(events.push(event), c) == summed_count(events, c),
        event.get_str("type"@) == Some("step_finish"@) && (event.get("part"@) matches Some(part)
            && part.get("tokens"@) is Some) ==> {
            let tokens = event.get("part"@)->0.get("tokens"@)->0;
            &&& tokens.get_u64("input"@) matches Some(n) ==> summed_count(
                events.push(event),
                Count::Input,
            ) == summed_count(events, Count::Input) + n
            &&& tokens.get_u64("output"@) matches Some(n) ==> summed_count(
                events.push(event),
                Count::Output,
            ) == summed_count(events, Count::Output) + n
            &&& tokens.get_u64("reasoning"@) matches Some(n) ==> summed_count(
                events.push(event),
                Count::Reasoning,
            ) == summed_count(events, Count::Reasoning) + n
            &&& tokens.get("cache"@) matches Some(cache) ==> {
                &&& cache.get_u64("read"@) matches Some(n) ==> summed_count(
                    events.push(event),
                    Count::CacheRead,
                ) == summed_count(events, Count::CacheRead) + n
                &&& cache.get_u64("write"@) matches Some(n) ==> summed_count(
                    events.push(event),
                    Count::CacheWrite,
                ) == summed_count(events, Count::CacheWrite) + n
            }
        },
{
    assert(events.push(event).drop_last() =~= events);
}

/// The usage of a run is its counts, each under its own name.
pub proof fn usage_is_told_by_name(events: Seq<JsonView>)
    requires
        totals_fit(events),
    ensures
        total_usage(events).input == summed_count(events, Count::Input),
        total_usage(events).output == summed_count(events, Count::Output),
        total_usage(events).reasoning == summed_count(events, Count::Reasoning),
        total_usage(events).cache_read == summed_count(events, Count::CacheRead),
        total_usage(events).cache_write == summed_count(events, Count::CacheWrite),
{
}

/// A run is started with the model, the instructions, the agent and the session that are
/// named, and the prompt comes last, behind the instruction to begin with.
pub proof fn runs_are_started_as_told(
    model: Seq<char>,
    instruction_file: Seq<char>,
    agent: Option<Seq<char>>,
    session: Option<Seq<char>>,
    prompt: Seq<char>,
)
    ensures
        ({
            let args = run_args(model, instruction_file, agent, session, prompt);
            &&& args[0] == "run"@
            &&& args[1] == "--model="@ + model
            &&& args[2] == "-f="@ + instruction_file
            &&& agent matches Some(a) ==> args[3] == "--agent="@ + a
            &&& session matches Some(s) ==> args[3 + if agent is Some {
                1int
            } else {
                0int
            }] == "--session="@ + s
            &&& args[args.len() - 4] == "--format=json"@
            &&& args[args.len() - 3] == "--print-logs"@
            &&& args[args.len() - 2] == "--"@
            &&& args.last() == INSTRUCTION_PREFIX@ + seq!['\n', '\n'] + prompt
            &&& args.len() == 7 + (if agent is Some {
                1int
            } else {
                0int
            }) + (if session is Some {
                1int
            } else {
                0int
            })
        }),
{
    reveal_strlit("\n\n");
    assert("\n\n"@ =~= seq!['\n', '\n']);
}

/// A run succeeds exactly where it ran to an exit code of zero and its counts fit; it then
/// tells what was printed and what its log names.
pub proof fn only_clean_ends_succeed(launch: LaunchView, timeout_secs: u64, model: Seq<char>)
    ensures
        run_end(launch, timeout_secs, model) is Ok <==> (launch matches LaunchView::Ran {
            printed,
            log,
            end,
        } && end == ProcessEnd::Exited(Some(0)) && totals_fit(events_of(printed))),
        run_end(launch, timeout_secs, model) matches Ok(r) ==> (launch matches LaunchView::Ran {
            printed,
            log,
            end,
        } && r.session_id == first_session(printed) && r.agent == first_logged(log) && r.tokens
            == total_usage(events_of(printed)) && r.output == answer_text(
            lines_of(joined(printed, seq!['\n'])),
        )),
        end_failure(ProcessEnd::Exited(Some(127)), timeout_secs, model) == Some(not_found()),
{
    reveal_strlit("\n");
    assert("\n"@ =~= seq!['\n']);
}

/// A model or an agent that is named is used; the configuration is asked only where none is.
pub proof fn named_models_and_agents_are_used(options: RunOptions<'_>, a: RunAnswersView)
    ensures
        options.model matches Some(m) ==> model_of(options, a) == Some(Ok::<_, Seq<char>>(m@)),
        options.agent matches Some(n) ==> agent_of(options, a) == Some(
            Ok::<_, Seq<char>>(Some(n@)),
        ),
        options.model is None && a.model_config is None ==> model_of(options, a) is None,
        options.agent is None && a.agent_config is None ==> agent_of(options, a) is None,
        options.timeout_secs matches Some(s) ==> timeout_of(options) == s,
        options.timeout_secs is None ==> timeout_of(options) == 300,
        may_use_kept(options) <==> options.cache && options.session_id is None,
{
}

/// A hash is taken as printed, without the blanks around it, where it has the form of one.
pub proof fn hashes_are_taken_as_printed(
    printed: Result<Seq<char>, Seq<char>>,
    complaint: Seq<char>,
)
    ensures
        hash_of(printed, complaint) matches Ok(h) ==> printed is Ok && h == trimmed(printed->Ok_0)
            && is_object_name(h),
        printed matches Ok(p) ==> (is_object_name(trimmed(p)) ==> hash_of(printed, complaint)
            is Ok),
        hash_of(printed, complaint) matches Err(e) ==> e == complaint,
{
}

/// What is asked for and what is kept goes by the agent, the model and the two hashes; what
/// comes back is what was kept or what the run gave, and only a result of the run is kept.
pub proof fn results_are_kept_under_what_ran(
    f: RunFacts,
    options: RunOptions<'_>,
    a: RunAnswersView,
)
    ensures
        start_step(f, options, a) matches Step::Request(RunRequestView::Read(key)) ==> key
            == cache_key(f.agent, f.model, f.file_hash, f.prompt_hash) && a.kept is None,
        start_step(f, options, a) matches Step::Request(RunRequestView::Keep(key, res)) ==> {
            &&& a.launch is Some
            &&& run_end(a.launch->0, timeout_of(options), f.model) == Ok::<_, Seq<char>>(res)
            &&& key == cache_key(res.agent, f.model, f.file_hash, f.prompt_hash)
            &&& options.session_id is None
        },
        start_step(f, options, a) matches Step::Request(RunRequestView::Start(args, secs)) ==> {
            &&& secs == timeout_of(options)
            &&& args == run_args(
                f.model,
                f.instruction_file,
                f.agent,
                options.session_id.deep_view(),
                f.prompt,
            )
            &&& a.launch is None
        },
        start_step(f, options, a) matches Step::Done(Ok(res)) ==> {
            ||| options.cache && options.session_id is None && a.kept == Some(Some(res))
            ||| a.launch is Some && run_end(a.launch->0, timeout_of(options), f.model) == Ok::<
                _,
                Seq<char>,
            >(res)
        },
{
}

/// The file that is hashed is the instruction file, and the text the whole prompt; a run does
/// not start before both are.
pub proof fn files_and_prompts_are_hashed(
    prompt: Seq<char>,
    instruction_file: Seq<char>,
    options: RunOptions<'_>,
    a: RunAnswersView,
)
    ensures
        run_step(prompt, instruction_file, options, a) matches Step::Request(
            RunRequestView::HashFile(path),
        ) ==> path == instruction_file,
        run_step(prompt, instruction_file, options, a) matches Step::Request(
            RunRequestView::HashText(text),
        ) ==> text == INSTRUCTION_PREFIX@ + seq!['\n', '\n'] + prompt,
        run_step(prompt, instruction_file, options, a) matches Step::Request(RunRequestView::Start(
            args,
            secs,
        )) ==> a.file_hash is Some && a.prompt_hash is Some && args.last() == INSTRUCTION_PREFIX@
            + seq!['\n', '\n'] + prompt && args[2] == "-f="@ + instruction_file,
{
    reveal_strlit("\n\n");
    assert("\n\n"@ =~= seq!['\n', '\n']);
}

/// A run that failed says with which code.
pub proof fn failures_say_their_code(timeout_secs: u64, model: Seq<char>, code: i32)
    ensures
        end_failure(ProcessEnd::Exited(Some(0)), timeout_secs, model) is None,
        code != 0 && code != 127 ==> end_failure(
            ProcessEnd::Exited(Some(code)),
            timeout_secs,
            model,
        ) == Some("opencode exited with code "@ + signed_decimal(code as int)),
        end_failure(ProcessEnd::Exited(None), timeout_secs, model) == Some(
            "opencode exited with code "@ + signed_decimal(-1),
        ),
        end_failure(ProcessEnd::TimedOut, timeout_secs, model) matches Some(e) && contains_text(
            e,
            model,
        ),
{
    let e = end_failure(ProcessEnd::TimedOut, timeout_secs, model)->0;
    let n = ("Timeout: opencode did not complete within "@ + decimal(timeout_secs as nat)
        + "s. The model '"@).len() as int;
    assert(e.subrange(n, n + model.len()) =~= model);
    assert(occurs_at(e, model, n));
}

/// The configuration is asked for the model first and for the agent behind it, and says both
/// by what it prints.
pub proof fn configurations_answer_in_turn(
    options: RunOptions<'_>,
    a: RunAnswersView,
    reply: Result<Seq<char>, Seq<char>>,
)
    ensures
        model_of(options, a) is None ==> with_config(options, a, reply).model_config == Some(reply)
            && with_config(options, a, reply).agent_config == a.agent_config,
        model_of(options, a) is Some ==> with_config(options, a, reply).agent_config == Some(reply)
            && with_config(options, a, reply).model_config == a.model_config,
        config_model(reply) matches Ok(m) ==> reply is Ok && first_model(lines_of(reply->Ok_0))
            == Some(m),
        reply matches Ok(printed) ==> (first_model(lines_of(printed)) is Some ==> config_model(
            reply,
        ) is Ok),
        reply matches Ok(printed) ==> config_agent(reply) == Ok::<_, Seq<char>>(
            first_agent(lines_of(printed), false, 0),
        ),
        reply is Err ==> config_model(reply) is Err && config_agent(reply) is Err,
{
}

/// A process is started with the arguments and the time that were decided on: where the start
/// always leads to the same with these, that is what came of it.
pub proof fn processes_are_started_as_decided<W, P: Fn(W, &Vec<String>, u64) -> (W, Launch)>(
    start: P,
    before: W,
    args: Seq<Seq<char>>,
    timeout_secs: u64,
    after: W,
    reply: LaunchView,
    leads: (W, LaunchView),
)
    requires
        forall|v: &Vec<String>, w: W, r: Launch| #[trigger]
            call_ensures(start, (before, v, timeout_secs), (w, r)) && v.deep_view() == args ==> (
            w,
            r@,
        ) == leads,
        launched(start, before, args, timeout_secs, after, reply),
    ensures
        (after, reply) == leads,
{
}

} // verus!
