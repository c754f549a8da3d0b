//! Calling an agent that is to be rated.

use crate::opencode::run::{
    ProcessEnd, check_end, end_failure, events_of_lines, first_session, not_found,
    session_of_events,
};
use crate::text::{chars_of, has_suffix, lines, lines_of, trim, trimmed};
use vstd::prelude::*;

verus! {

/// What an agent gave.
#[derive(Clone, Debug)]
pub struct AgentResult {
    pub output: String,
    /// The session that the output names.
    pub session_id: Option<String>,
}

/// What came of starting an agent.
#[derive(Debug)]
pub enum AgentLaunch {
    /// There is no such program.
    NotFound,
    /// It could not be started.
    Failed(String),
    /// It was started and could not be waited for, or not be read.
    Lost(String),
    /// It did not end in time.
    TimedOut,
    /// It ended with an exit code, where it has one.
    Ended { stdout: String, stderr: String, code: Option<i32> },
}

/// The content of what came of starting an agent.
pub ghost enum AgentLaunchView {
    NotFound,
    Failed(Seq<char>),
    Lost(Seq<char>),
    TimedOut,
    Ended { stdout: Seq<char>, stderr: Seq<char>, code: Option<i32> },
}

impl View for AgentLaunch {
    type V = AgentLaunchView;

    open spec fn view(&self) -> AgentLaunchView {
        match self {
            AgentLaunch::NotFound => AgentLaunchView::NotFound,
            AgentLaunch::Failed(e) => AgentLaunchView::Failed(e@),
            AgentLaunch::Lost(e) => AgentLaunchView::Lost(e@),
            AgentLaunch::TimedOut => AgentLaunchView::TimedOut,
            AgentLaunch::Ended { stdout, stderr, code } => AgentLaunchView::Ended {
                stdout: stdout@,
                stderr: stderr@,
                code: *code,
            },
        }
    }
}

/// The arguments with which an agent is called.
pub open spec fn agent_args(instruction: Seq<char>, agent: Seq<char>, model: Seq<char>) -> Seq<
    Seq<char>,
> {
    seq![
        "run"@,
        "--agent"@,
        agent,
        "--format"@,
        "json"@,
        "--model="@ + model,
        instruction,
    ]
}

fn build_agent_args(instruction: &str, agent: &str, model: &str) -> (r: Vec<String>)
    ensures
        r.deep_view() == agent_args(instruction@, agent@, model@),
{
    let mut model_flag = "--model=".to_string();
    model_flag.append(model);
    let mut args: Vec<String> = Vec::new();
    args.push("run".to_string());
    args.push("--agent".to_string());
    args.push(agent.to_string());
    args.push("--format".to_string());
    args.push("json".to_string());
    args.push(model_flag);
    args.push(instruction.to_string());
    assert(args.deep_view() =~= agent_args(instruction@, agent@, model@));
    args
}

/// The session that the first line with one names.
pub fn extract_session_id(output: &str) -> (r: Option<String>)
    ensures
        r.deep_view() == first_session(lines_of(output@)),
{
    session_of_events(&events_of_lines(&lines(output)))
}

/// What an agent gave, or why it failed.
pub open spec fn agent_end(launch: AgentLaunchView, timeout_secs: u64, model: Seq<char>) -> Result<
    (Seq<char>, Option<Seq<char>>),
    Seq<char>,
> {
    match launch {
        AgentLaunchView::NotFound => Err(not_found()),
        AgentLaunchView::Failed(e) => Err("Failed to spawn opencode: "@ + e),
        AgentLaunchView::Lost(e) => Err(e),
        AgentLaunchView::TimedOut => Err(
            end_failure(ProcessEnd::TimedOut, timeout_secs, model)->0,
        ),
        AgentLaunchView::Ended { stdout, stderr, code } => match end_failure(
            ProcessEnd::Exited(code),
            timeout_secs,
            model,
        ) {
            None => Ok((stdout, first_session(lines_of(stdout)))),
            Some(e) => Err(
                if code != Some(127i32) && stderr.len() > 0 {
                    e + ": "@ + trimmed(stderr)
                } else {
                    e
                },
            ),
        },
    }
}

/// A result of an agent, or why there is none.
pub open spec fn agent_result_view(r: Result<AgentResult, String>) -> Result<
    (Seq<char>, Option<Seq<char>>),
    Seq<char>,
> {
    match r {
        Ok(res) => Ok((res.output@, res.session_id.deep_view())),
        Err(e) => Err(e@),
    }
}

/// What an agent gave, or why it failed, from what came of starting it.
pub fn finish_agent(launch: AgentLaunch, timeout_secs: u64, model: &str) -> (r: Result<
    AgentResult,
    String,
>)
    ensures
        agent_result_view(r) == agent_end(launch@, timeout_secs, model@),
{
    match launch {
        AgentLaunch::NotFound => Err(
            "opencode not found. Install it or add it to PATH.".to_string(),
        ),
        AgentLaunch::Failed(e) => {
            let mut s = "Failed to spawn opencode: ".to_string();
            s.append(e.as_str());
            Err(s)
        },
        AgentLaunch::Lost(e) => Err(e),
        AgentLaunch::TimedOut => match check_end(ProcessEnd::TimedOut, timeout_secs, model) {
            Some(e) => Err(e),
            None => Err(String::new()),
        },
        AgentLaunch::Ended { stdout, stderr, code } => {
            match check_end(ProcessEnd::Exited(code), timeout_secs, model) {
                None => {
                    let session_id = extract_session_id(stdout.as_str());
                    Ok(AgentResult { output: stdout, session_id })
                },
                Some(e) => {
                    let mut e = e;
                    let is_missing = match code {
                        Some(127) => true,
                        _ => false,
                    };
                    if !is_missing && chars_of(stderr.as_str()).len() > 0 {
                        e.append(": ");
                        e.append(trim(stderr.as_str()).as_str());
                    }
                    Err(e)
                },
            }
        },
    }
}

/// Whether starting an agent came to this, from one state of what it acts on to
/// another.
pub open spec fn agent_started<W, S: Fn(W, &Vec<String>, u64) -> (W, AgentLaunch)>(
    start: S,
    before: W,
    args: Seq<Seq<char>>,
    timeout_secs: u64,
    after: W,
    reply: AgentLaunchView,
) -> bool {
    exists|v: &Vec<String>, r: AgentLaunch| #[trigger]
        call_ensures(start, (before, v, timeout_secs), (after, r)) && v.deep_view() == args && r@
            == reply
}

/// Calls an agent with an instruction file. `start` runs `opencode` with arguments
/// for so many seconds, and is called once. `world` stands for what it acts on.
pub fn invoke_agent<W, S: Fn(W, &Vec<String>, u64) -> (W, AgentLaunch)>(
    instruction_path: &str,
    agent_name: &str,
    model: &str,
    timeout_secs: u64,
    world: W,
    start: S,
) -> (r: (W, Result<AgentResult, String>))
    requires
        forall|w: W, v: &Vec<String>, s: u64| call_requires(start, (w, v, s)),
    ensures
        exists|launch: AgentLaunchView| #[trigger]
            agent_started(
                start,
                world,
                agent_args(instruction_path@, agent_name@, model@),
                timeout_secs,
                r.0,
                launch,
            ) && agent_result_view(r.1) == agent_end(launch, timeout_secs, model@),
{
    let args = build_agent_args(instruction_path, agent_name, model);
    let (after, launch) = start(world, &args, timeout_secs);
    let ghost given = launch@;
    let r = (after, finish_agent(launch, timeout_secs, model));
    assert(agent_started(
        start,
        world,
        agent_args(instruction_path@, agent_name@, model@),
        timeout_secs,
        r.0,
        given,
    ));
    r
}

/// The agent is run on the instruction, as the agent and with the model that are named.
pub proof fn agents_are_run_as_named(instruction: Seq<char>, agent: Seq<char>, model: Seq<char>)
    ensures
        agent_args(instruction, agent, model).last() == instruction,
        agent_args(instruction, agent, model)[0] == "run"@,
        agent_args(instruction, agent, model)[1] == "--agent"@,
        agent_args(instruction, agent, model)[2] == agent,
        agent_args(instruction, agent, model)[3] == "--format"@,
        agent_args(instruction, agent, model)[4] == "json"@,
        agent_args(instruction, agent, model).contains("--model="@ + model),
{
    assert(agent_args(instruction, agent, model)[5] == "--model="@ + model);
}

/// A run succeeds exactly where the agent ended with code zero; its output is what it
/// printed, and its session the first that this names.
pub proof fn only_clean_ends_succeed(launch: AgentLaunchView, timeout_secs: u64, model: Seq<char>)
    ensures
        agent_end(launch, timeout_secs, model) is Ok <==> (launch matches AgentLaunchView::Ended {
            code,
            ..
        } && code == Some(0i32)),
        agent_end(launch, timeout_secs, model) matches Ok((output, session)) ==> (
        launch matches AgentLaunchView::Ended { stdout, .. } && output == stdout && session
            == first_session(lines_of(stdout))),
        launch matches AgentLaunchView::Ended { stderr, code, .. } ==> (code != Some(0i32) && code
            != Some(127i32) && stderr.len() > 0 ==> has_suffix(
            agent_end(launch, timeout_secs, model)->Err_0,
            trimmed(stderr),
        )),
{
    match launch {
        AgentLaunchView::Ended { stdout, stderr, code } => {
            match end_failure(ProcessEnd::Exited(code), timeout_secs, model) {
                Some(e) => {
                    let t = trimmed(stderr);
                    let whole = e + ": "@ + t;
                    assert(whole.subrange(whole.len() - t.len(), whole.len() as int) =~= t);
                },
                None => {},
            }
        },
        _ => {},
    }
}

/// An agent is started with the arguments and the time that were decided on: where the start
/// always leads to the same with these, that is what came of it.
pub proof fn agents_are_started_as_decided<W, S: Fn(W, &Vec<String>, u64) -> (W, AgentLaunch)>(
    start: S,
    before: W,
    args: Seq<Seq<char>>,
    timeout_secs: u64,
    after: W,
    reply: AgentLaunchView,
    leads: (W, AgentLaunchView),
)
    requires
        forall|v: &Vec<String>, w: W, r: AgentLaunch| #[trigger]
            call_ensures(start, (before, v, timeout_secs), (w, r)) && v.deep_view() == args ==> (
            w,
            r@,
        ) == leads,
        agent_started(start, before, args, timeout_secs, after, reply),
    ensures
        (after, reply) == leads,
{
}

} // verus!
