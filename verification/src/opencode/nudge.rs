//! Resuming sessions that have come to a stop.

use crate::opencode::server_client::LiveStatus;
use crate::opencode::status::{ResumeModel, StaticStatus};
use crate::steps::Step;
use vstd::prelude::*;

verus! {

/// How a session is resumed.
#[derive(Clone, Debug)]
pub enum NudgeStrategy {
    /// Go back to a user message, and send it again.
    CleanResume {
        user_msg_id: String,
        text: String,
        agent: Option<String>,
        model: Option<ResumeModel>,
    },
    /// Keep what is there, and send a prompt to go on.
    ContinuePrompt { prompt: String, agent: Option<String>, model: Option<ResumeModel> },
}

/// The agent that the session was driven by.
pub open spec fn strategy_agent(s: NudgeStrategy) -> Option<String> {
    match s {
        NudgeStrategy::CleanResume { agent, .. } => agent,
        NudgeStrategy::ContinuePrompt { agent, .. } => agent,
    }
}

/// The model that the session was driven by.
pub open spec fn strategy_model(s: NudgeStrategy) -> Option<ResumeModel> {
    match s {
        NudgeStrategy::CleanResume { model, .. } => model,
        NudgeStrategy::ContinuePrompt { model, .. } => model,
    }
}

/// The text that is sent.
pub open spec fn strategy_text(s: NudgeStrategy) -> Seq<char> {
    match s {
        NudgeStrategy::CleanResume { text, .. } => text@,
        NudgeStrategy::ContinuePrompt { prompt, .. } => prompt@,
    }
}

impl NudgeStrategy {
    /// The agent that the session was driven by.
    pub fn agent(&self) -> (r: Option<&str>)
        ensures
            r.deep_view() == strategy_agent(*self).deep_view(),
    {
        match self {
            NudgeStrategy::CleanResume { agent, .. } => match agent {
                Some(a) => Some(a.as_str()),
                None => None,
            },
            NudgeStrategy::ContinuePrompt { agent, .. } => match agent {
                Some(a) => Some(a.as_str()),
                None => None,
            },
        }
    }

    /// The model that the session was driven by.
    pub fn model(&self) -> (r: Option<&ResumeModel>)
        ensures
            match r {
                Some(m) => strategy_model(*self) == Some(*m),
                None => strategy_model(*self) is None,
            },
    {
        match self {
            NudgeStrategy::CleanResume { model, .. } => match model {
                Some(m) => Some(m),
                None => None,
            },
            NudgeStrategy::ContinuePrompt { model, .. } => match model {
                Some(m) => Some(m),
                None => None,
            },
        }
    }
}

/// A session to resume, and how.
#[derive(Clone, Debug)]
pub struct NudgePlan {
    pub session_id: String,
    pub static_status: StaticStatus,
    pub live_status: LiveStatus,
    pub project_dir: String,
    pub orphan: bool,
    pub forced: bool,
    pub strategy: NudgeStrategy,
    /// Resume a fork of the session, and leave the session as it is.
    pub fork_first: bool,
}

/// What came of resuming a session.
#[derive(Debug)]
pub struct NudgeOutcome {
    pub session_id: String,
    /// The fork, wherever one was made.
    pub fork_id: Option<String>,
    pub result: Result<(), String>,
}

/// The content of what came of resuming a session.
pub ghost struct OutcomeView {
    pub session_id: Seq<char>,
    pub fork_id: Option<Seq<char>>,
    pub result: Result<(), Seq<char>>,
}

impl View for NudgeOutcome {
    type V = OutcomeView;

    open spec fn view(&self) -> OutcomeView {
        OutcomeView {
            session_id: self.session_id@,
            fork_id: self.fork_id.deep_view(),
            result: match self.result {
                Ok(u) => Ok(u),
                Err(e) => Err(e@),
            },
        }
    }
}

/// A request to the server on a session of the project in a directory.
#[derive(Clone, Debug)]
pub enum NudgeAction {
    /// Copy a session: all of it, or what comes before a message.
    Fork { session_id: String, directory: String, message_id: Option<String> },
    /// Stop what the session is doing.
    Abort { session_id: String, directory: String },
    /// Go back to a message.
    Revert { session_id: String, directory: String, message_id: String },
    /// Send a text to an agent and a model, where these are known.
    Prompt {
        session_id: String,
        directory: String,
        text: String,
        agent: Option<String>,
        model: Option<ResumeModel>,
    },
}

/// A request to the server.
pub ghost enum ActionView {
    Fork { session_id: Seq<char>, directory: Seq<char>, message_id: Option<Seq<char>> },
    Abort { session_id: Seq<char>, directory: Seq<char> },
    Revert { session_id: Seq<char>, directory: Seq<char>, message_id: Seq<char> },
    Prompt {
        session_id: Seq<char>,
        directory: Seq<char>,
        text: Seq<char>,
        agent: Option<Seq<char>>,
        model: Option<(Seq<char>, Seq<char>)>,
    },
}

/// A provider and a model by their content.
pub open spec fn model_names(model: Option<ResumeModel>) -> Option<(Seq<char>, Seq<char>)> {
    match model {
        Some(m) => Some((m.provider_id@, m.model_id@)),
        None => None,
    }
}

impl View for NudgeAction {
    type V = ActionView;

    open spec fn view(&self) -> ActionView {
        match self {
            NudgeAction::Fork { session_id, directory, message_id } => ActionView::Fork {
                session_id: session_id@,
                directory: directory@,
                message_id: message_id.deep_view(),
            },
            NudgeAction::Abort { session_id, directory } => ActionView::Abort {
                session_id: session_id@,
                directory: directory@,
            },
            NudgeAction::Revert { session_id, directory, message_id } => ActionView::Revert {
                session_id: session_id@,
                directory: directory@,
                message_id: message_id@,
            },
            NudgeAction::Prompt { session_id, directory, text, agent, model } => {
                ActionView::Prompt {
                    session_id: session_id@,
                    directory: directory@,
                    text: text@,
                    agent: agent.deep_view(),
                    model: model_names(*model),
                }
            },
        }
    }
}

/// The message before which a fork ends.
pub open spec fn fork_point(s: NudgeStrategy) -> Option<Seq<char>> {
    match s {
        NudgeStrategy::CleanResume { user_msg_id, .. } => Some(user_msg_id@),
        NudgeStrategy::ContinuePrompt { .. } => None,
    }
}

/// The requests on the session that is resumed: stop it, go back where the
/// message to send again is still there, and send the text to the agent and the
/// model that the session was driven by.
pub open spec fn resume_script(plan: NudgePlan, target: Seq<char>) -> Seq<ActionView> {
    let directory = plan.project_dir@;
    let abort = ActionView::Abort { session_id: target, directory };
    let prompt = ActionView::Prompt {
        session_id: target,
        directory,
        text: strategy_text(plan.strategy),
        agent: strategy_agent(plan.strategy).deep_view(),
        model: model_names(strategy_model(plan.strategy)),
    };
    match plan.strategy {
        NudgeStrategy::CleanResume { user_msg_id, .. } => if plan.fork_first {
            seq![abort, prompt]
        } else {
            seq![
                abort,
                ActionView::Revert { session_id: target, directory, message_id: user_msg_id@ },
                prompt,
            ]
        },
        NudgeStrategy::ContinuePrompt { .. } => seq![abort, prompt],
    }
}

/// All requests of a plan, where a fork gets the identifier `fork`.
pub open spec fn script(plan: NudgePlan, fork: Seq<char>) -> Seq<ActionView> {
    if plan.fork_first {
        seq![
            ActionView::Fork {
                session_id: plan.session_id@,
                directory: plan.project_dir@,
                message_id: fork_point(plan.strategy),
            },
        ] + resume_script(plan, fork)
    } else {
        resume_script(plan, plan.session_id@)
    }
}

/// The content of a reply.
pub open spec fn reply_view(r: Result<String, String>) -> Result<Seq<char>, Seq<char>> {
    match r {
        Ok(s) => Ok(s@),
        Err(e) => Err(e@),
    }
}

/// The content of replies.
pub open spec fn replies_view(replies: Seq<Result<String, String>>) -> Seq<
    Result<Seq<char>, Seq<char>>,
> {
    replies.map_values(|r: Result<String, String>| reply_view(r))
}

/// The identifier of the fork, as the reply to the first request gives it.
pub open spec fn fork_of(replies: Seq<Result<Seq<char>, Seq<char>>>) -> Seq<char> {
    if replies.len() > 0 && replies[0] is Ok {
        replies[0]->Ok_0
    } else {
        Seq::empty()
    }
}

/// The fork that was made.
pub open spec fn fork_made(plan: NudgePlan, replies: Seq<Result<Seq<char>, Seq<char>>>) -> Option<
    Seq<char>,
> {
    if plan.fork_first && replies.len() > 0 && replies[0] is Ok {
        Some(fork_of(replies))
    } else {
        None
    }
}

/// The first failure among replies.
pub open spec fn first_failure(replies: Seq<Result<Seq<char>, Seq<char>>>) -> Option<Seq<char>>
    decreases replies.len(),
{
    if replies.len() == 0 {
        None
    } else {
        match first_failure(replies.drop_last()) {
            Some(e) => Some(e),
            None => match replies.last() {
                Ok(_) => None,
                Err(e) => Some(e),
            },
        }
    }
}

/// What comes next, given the replies so far: the next request of the script
/// where none has failed, else the end. The fork is named wherever one was made.
pub open spec fn nudge_step(plan: NudgePlan, replies: Seq<Result<Seq<char>, Seq<char>>>) -> Step<
    ActionView,
    OutcomeView,
> {
    let requests = script(plan, fork_of(replies));
    let outcome = OutcomeView {
        session_id: plan.session_id@,
        fork_id: fork_made(plan, replies),
        result: Ok(()),
    };
    match first_failure(replies) {
        Some(e) => Step::Done(OutcomeView { result: Err(e), ..outcome }),
        None => if replies.len() < requests.len() {
            Step::Request(requests[replies.len() as int])
        } else {
            Step::Done(outcome)
        },
    }
}

/// The content of a step.
pub open spec fn nudge_step_view(s: Step<NudgeAction, NudgeOutcome>) -> Step<
    ActionView,
    OutcomeView,
> {
    match s {
        Step::Request(a) => Step::Request(a@),
        Step::Done(o) => Step::Done(o@),
    }
}

fn copied_model(m: Option<&ResumeModel>) -> (r: Option<ResumeModel>)
    ensures
        model_names(r) == (match m {
            Some(m) => Some((m.provider_id@, m.model_id@)),
            None => None,
        }),
{
    match m {
        Some(m) => Some(
            ResumeModel { provider_id: m.provider_id.clone(), model_id: m.model_id.clone() },
        ),
        None => None,
    }
}

fn find_failure(replies: &Vec<Result<String, String>>) -> (r: Option<String>)
    ensures
        r.deep_view() == first_failure(replies_view(replies@)),
{
    let ghost all = replies_view(replies@);
    let mut i: usize = 0;
    assert(all.take(0) =~= Seq::empty());
    while i < replies.len()
        invariant
            i <= replies.len(),
            all == replies_view(replies@),
            first_failure(all.take(i as int)) is None,
        decreases replies.len() - i,
    {
        assert(all.take(i + 1).drop_last() =~= all.take(i as int));
        assert(all.take(i + 1).last() == reply_view(replies@[i as int]));
        match &replies[i] {
            Ok(_) => {},
            Err(e) => {
                proof {
                    failures_stay(all, i + 1);
                }
                return Some(e.clone());
            },
        }
        i += 1;
    }
    assert(all.take(i as int) =~= all);
    None
}

proof fn failures_stay(replies: Seq<Result<Seq<char>, Seq<char>>>, n: int)
    requires
        0 <= n <= replies.len(),
        first_failure(replies.take(n)) is Some,
    ensures
        first_failure(replies) == first_failure(replies.take(n)),
    decreases replies.len() - n,
{
    if n < replies.len() {
        assert(replies.take(n + 1).drop_last() =~= replies.take(n));
        failures_stay(replies, n + 1);
    } else {
        assert(replies.take(n) =~= replies);
    }
}

/// What comes next in resuming a session, given the replies so far: for a fork
/// its identifier, or why a request failed.
pub fn next_step(plan: &NudgePlan, replies: &Vec<Result<String, String>>) -> (r: Step<
    NudgeAction,
    NudgeOutcome,
>)
    ensures
        nudge_step_view(r) == nudge_step(*plan, replies_view(replies@)),
{
    let ghost views = replies_view(replies@);
    let mut fork_id: Option<String> = None;
    if plan.fork_first && replies.len() > 0 {
        assert(views[0] == reply_view(replies@[0]));
        match &replies[0] {
            Ok(id) => {
                fork_id = Some(id.clone());
            },
            Err(_) => {},
        }
    }
    assert(fork_id.deep_view() == fork_made(*plan, views));
    match find_failure(replies) {
        Some(e) => {
            return Step::Done(
                NudgeOutcome { session_id: plan.session_id.clone(), fork_id, result: Err(e) },
            );
        },
        None => {},
    }
    proof {
        if replies.len() > 0 {
            nothing_failed(views, 0);
        }
    }
    let ghost requests = script(*plan, fork_of(views));
    let mut at: usize = replies.len();
    let directory = plan.project_dir.clone();
    let target: String;
    if plan.fork_first {
        if at == 0 {
            let message_id = match &plan.strategy {
                NudgeStrategy::CleanResume { user_msg_id, .. } => Some(user_msg_id.clone()),
                NudgeStrategy::ContinuePrompt { .. } => None,
            };
            let action = NudgeAction::Fork {
                session_id: plan.session_id.clone(),
                directory,
                message_id,
            };
            assert(requests[0] == action@);
            return Step::Request(action);
        }
        at = at - 1;
        target = match &fork_id {
            Some(id) => id.clone(),
            None => String::new(),
        };
    } else {
        target = plan.session_id.clone();
    }
    let ghost rest = resume_script(*plan, target@);
    assert(requests =~= script(*plan, target@));
    if at == 0 {
        let action = NudgeAction::Abort { session_id: target, directory };
        assert(requests[views.len() as int] == rest[0]);
        return Step::Request(action);
    }
    at = at - 1;
    let text = match &plan.strategy {
        NudgeStrategy::CleanResume { user_msg_id, text, .. } => {
            if !plan.fork_first {
                if at == 0 {
                    let action = NudgeAction::Revert {
                        session_id: target,
                        directory,
                        message_id: user_msg_id.clone(),
                    };
                    assert(requests[views.len() as int] == rest[1]);
                    return Step::Request(action);
                }
                at = at - 1;
            }
            text.clone()
        },
        NudgeStrategy::ContinuePrompt { prompt, .. } => prompt.clone(),
    };
    if at == 0 {
        let agent = match plan.strategy.agent() {
            Some(a) => Some(a.to_string()),
            None => None,
        };
        let model = copied_model(plan.strategy.model());
        let action = NudgeAction::Prompt { session_id: target, directory, text, agent, model };
        assert(requests[views.len() as int] == rest.last());
        return Step::Request(action);
    }
    Step::Done(NudgeOutcome { session_id: plan.session_id.clone(), fork_id, result: Ok(()) })
}

proof fn nothing_failed(replies: Seq<Result<Seq<char>, Seq<char>>>, i: int)
    requires
        first_failure(replies) is None,
        0 <= i < replies.len(),
    ensures
        replies[i] is Ok,
    decreases replies.len(),
{
    if i < replies.len() - 1 {
        nothing_failed(replies.drop_last(), i);
    }
}

/// Whether a request that comes next was made, from one state to another. A
/// state is what the requests act on, and the replies so far.
pub open spec fn request_made<W, C: Fn(W, &NudgeAction) -> (W, Result<String, String>)>(
    plan: NudgePlan,
    call: C,
    before: (W, Seq<Result<Seq<char>, Seq<char>>>),
    after: (W, Seq<Result<Seq<char>, Seq<char>>>),
) -> bool {
    exists|action: NudgeAction, reply: Result<String, String>| #[trigger]
        call_ensures(call, (before.0, &action), (after.0, reply)) && nudge_step(plan, before.1)
            == Step::<ActionView, OutcomeView>::Request(action@) && after.1 == before.1.push(
            reply_view(reply),
        )
}

/// Whether the requests that come next, and no others, lead from one state over
/// those in `path` to another.
pub open spec fn requests_lead<W, C: Fn(W, &NudgeAction) -> (W, Result<String, String>)>(
    plan: NudgePlan,
    call: C,
    path: Seq<(W, Seq<Result<Seq<char>, Seq<char>>>)>,
    from: (W, Seq<Result<Seq<char>, Seq<char>>>),
    to: (W, Seq<Result<Seq<char>, Seq<char>>>),
) -> bool
    decreases path.len(),
{
    if path.len() == 0 {
        from == to
    } else {
        request_made(plan, call, path.last(), to) && requests_lead(
            plan,
            call,
            path.drop_last(),
            from,
            path.last(),
        )
    }
}

/// Resumes one session. `call` makes a request and gives the reply: for a fork
/// its identifier, or why the request failed.
///
/// `world` stands for what the requests act on. Each call takes it over from the
/// one before, so that the calls are told apart by what they leave behind: the
/// requests that come next were made, each once and in order, and no others.
pub fn execute_one<W, C: Fn(W, &NudgeAction) -> (W, Result<String, String>)>(
    plan: &NudgePlan,
    world: W,
    call: C,
) -> (r: (W, NudgeOutcome))
    requires
        forall|w: W, a: &NudgeAction| call_requires(call, (w, a)),
    ensures
        exists|
            path: Seq<(W, Seq<Result<Seq<char>, Seq<char>>>)>,
            replies: Seq<Result<Seq<char>, Seq<char>>>,
        | #[trigger]
            requests_lead(*plan, call, path, (world, Seq::empty()), (r.0, replies)) && nudge_step(
                *plan,
                replies,
            ) == Step::<ActionView, OutcomeView>::Done(r.1@),
{
    let mut replies: Vec<Result<String, String>> = Vec::new();
    let mut now = world;
    let ghost mut path: Seq<(W, Seq<Result<Seq<char>, Seq<char>>>)> = Seq::empty();
    assert(replies_view(replies@) =~= Seq::empty());
    loop
        invariant
            forall|w: W, a: &NudgeAction| call_requires(call, (w, a)),
            replies.len() <= 4,
            requests_lead(*plan, call, path, (world, Seq::empty()), (now, replies_view(replies@))),
        decreases 5 - replies.len(),
    {
        let ghost views = replies_view(replies@);
        match next_step(plan, &replies) {
            Step::Request(action) => {
                let ghost before = (now, views);
                let (after, reply) = call(now, &action);
                now = after;
                replies.push(reply);
                proof {
                    assert(replies_view(replies@) =~= views.push(reply_view(reply)));
                    assert(request_made(*plan, call, before, (now, replies_view(replies@))));
                    assert(path.push(before).drop_last() =~= path);
                    path = path.push(before);
                }
            },
            Step::Done(outcome) => {
                let r = (now, outcome);
                assert(requests_lead(*plan, call, path, (world, Seq::empty()), (r.0, views)));
                return r;
            },
        }
    }
}

/// The session that a request works on.
pub open spec fn action_session(a: ActionView) -> Seq<char> {
    match a {
        ActionView::Fork { session_id, .. } => session_id,
        ActionView::Abort { session_id, .. } => session_id,
        ActionView::Revert { session_id, .. } => session_id,
        ActionView::Prompt { session_id, .. } => session_id,
    }
}

/// The text is sent last, and before going back or sending anything, the session
/// is stopped. A session that is forked is only copied: every other request works
/// on the fork. What a session holds is only given up to send its message again.
pub proof fn scripts_are_safe(plan: NudgePlan, fork: Seq<char>)
    ensures
        script(plan, fork).last() is Prompt,
        forall|i: int|
            0 <= i < script(plan, fork).len() - 1 ==> !((#[trigger] script(plan, fork)[i]) is Prompt),
        forall|i: int|
            0 <= i < script(plan, fork).len() && ((#[trigger] script(plan, fork)[i]) is Revert
                || script(plan, fork)[i] is Prompt) ==> exists|j: int|
                0 <= j < i && (#[trigger] script(plan, fork)[j]) is Abort && action_session(
                    script(plan, fork)[j],
                ) == action_session(script(plan, fork)[i]),
        plan.fork_first ==> forall|i: int|
            0 <= i < script(plan, fork).len() && !((#[trigger] script(plan, fork)[i]) is Fork)
                ==> action_session(script(plan, fork)[i]) == fork,
        !plan.fork_first ==> forall|i: int|
            0 <= i < script(plan, fork).len() ==> !((#[trigger] script(plan, fork)[i]) is Fork)
                && action_session(script(plan, fork)[i]) == plan.session_id@,
        (plan.strategy is ContinuePrompt || plan.fork_first) ==> forall|i: int|
            0 <= i < script(plan, fork).len() ==> !((#[trigger] script(plan, fork)[i]) is Revert),
{
    let s = script(plan, fork);
    let k: int = if plan.fork_first {
        1
    } else {
        0
    };
    assert(s[k] is Abort);
}

/// How plans are handed out: groups of at most `width`, one after the other.
pub open spec fn group_starts(n: int, width: int, from: int) -> Seq<(int, int)>
    decreases n - from,
    when width > 0
{
    if from >= n {
        Seq::empty()
    } else {
        let end = if from + width < n {
            from + width
        } else {
            n
        };
        seq![(from, end)] + group_starts(n, width, end)
    }
}

/// The groups in which `n` plans are handed out, each as its first plan and the
/// one behind its last. There is at least one plan in a group.
pub fn plan_groups(n: usize, concurrency: usize) -> (r: Vec<(usize, usize)>)
    ensures
        ({
            let width: int = if concurrency == 0 {
                1
            } else {
                concurrency as int
            };
            Seq::new(r@.len(), |i: int| (r@[i].0 as int, r@[i].1 as int)) == group_starts(
                n as int,
                width,
                0,
            )
        }),
{
    let width: usize = if concurrency == 0 {
        1
    } else {
        concurrency
    };
    let mut out: Vec<(usize, usize)> = Vec::new();
    let mut from: usize = 0;
    let ghost all = group_starts(n as int, width as int, 0);
    assert(Seq::new(out@.len(), |i: int| (out@[i].0 as int, out@[i].1 as int)) == Seq::<
        (int, int),
    >::empty());
    while from < n
        invariant
            from <= n,
            width > 0,
            all == group_starts(n as int, width as int, 0),
            Seq::new(out@.len(), |i: int| (out@[i].0 as int, out@[i].1 as int)) + group_starts(
                n as int,
                width as int,
                from as int,
            ) == all,
        decreases n - from,
    {
        let ghost before = Seq::new(out@.len(), |i: int| (out@[i].0 as int, out@[i].1 as int));
        let end: usize = if width < n - from {
            from + width
        } else {
            n
        };
        out.push((from, end));
        proof {
            let now = Seq::new(out@.len(), |i: int| (out@[i].0 as int, out@[i].1 as int));
            assert(now == before.push((from as int, end as int)));
            let rest = group_starts(n as int, width as int, end as int);
            assert(group_starts(n as int, width as int, from as int) == seq![
                (from as int, end as int),
            ] + rest);
            assert(now + rest == before + (seq![(from as int, end as int)] + rest));
        }
        from = end;
    }
    assert(Seq::new(out@.len(), |i: int| (out@[i].0 as int, out@[i].1 as int)) + Seq::<
        (int, int),
    >::empty() == Seq::new(out@.len(), |i: int| (out@[i].0 as int, out@[i].1 as int)));
    out
}

/// What is sent is what the plan says, to the agent and the model that it names, in the
/// directory of the session.
pub proof fn prompts_are_what_is_planned(plan: NudgePlan, fork: Seq<char>)
    ensures
        script(plan, fork).last() matches ActionView::Prompt {
            session_id,
            directory,
            text,
            agent,
            model,
        } && directory == plan.project_dir@ && session_id == (if plan.fork_first {
            fork
        } else {
            plan.session_id@
        }) && (match plan.strategy {
            NudgeStrategy::CleanResume { text: t, agent: a, model: m, .. } => text == t@ && agent
                == a.deep_view() && (model is Some <==> m is Some) && (m is Some ==> model->0
                == (m->0.provider_id@, m->0.model_id@)),
            NudgeStrategy::ContinuePrompt { prompt: t, agent: a, model: m } => text == t@ && agent
                == a.deep_view() && (model is Some <==> m is Some) && (m is Some ==> model->0
                == (m->0.provider_id@, m->0.model_id@)),
        }),
{
}

/// A fork is made first, of the session itself: up to the message that is sent again, or
/// whole where the session is to go on. Where none is made and a message is sent again, the
/// session goes back to that message before.
pub proof fn forks_and_reverts_are_at_the_message(plan: NudgePlan, fork: Seq<char>)
    ensures
        plan.fork_first ==> script(plan, fork)[0] == (ActionView::Fork {
            session_id: plan.session_id@,
            directory: plan.project_dir@,
            message_id: match plan.strategy {
                NudgeStrategy::CleanResume { user_msg_id, .. } => Some(user_msg_id@),
                NudgeStrategy::ContinuePrompt { .. } => None,
            },
        }),
        !plan.fork_first ==> (plan.strategy matches NudgeStrategy::CleanResume { user_msg_id, .. }
            ==> script(plan, fork).len() == 3 && script(plan, fork)[1] == (ActionView::Revert {
            session_id: plan.session_id@,
            directory: plan.project_dir@,
            message_id: user_msg_id@,
        })),
{
}

/// A failure ends the nudge at once, with the first thing that failed; without one the nudge
/// goes on until everything was done.
pub proof fn failures_end_the_nudge(plan: NudgePlan, replies: Seq<Result<Seq<char>, Seq<char>>>) -> (i:
    int)
    ensures
        nudge_step(plan, replies) matches Step::Done(outcome) ==> {
            &&& outcome.session_id == plan.session_id@
            &&& (outcome.result matches Err(e) ==> 0 <= i < replies.len() && replies[i] == Err::<
                Seq<char>,
                _,
            >(e) && forall|j: int| 0 <= j < i ==> (#[trigger] replies[j]) is Ok)
            &&& (outcome.result is Ok ==> forall|j: int|
                0 <= j < replies.len() ==> (#[trigger] replies[j]) is Ok)
            &&& (outcome.result is Ok ==> replies.len() >= script(plan, fork_of(replies)).len())
            &&& (plan.fork_first && replies.len() > 0 && replies[0] is Ok ==> outcome.fork_id
                == Some(replies[0]->Ok_0))
            &&& (!plan.fork_first ==> outcome.fork_id is None)
        },
        nudge_step(plan, replies) matches Step::Request(action) ==> {
            &&& replies.len() < script(plan, fork_of(replies)).len()
            &&& action == script(plan, fork_of(replies))[replies.len() as int]
            &&& forall|j: int| 0 <= j < replies.len() ==> (#[trigger] replies[j]) is Ok
        },
{
    the_first_failure_counts(replies)
}

proof fn the_first_failure_counts(replies: Seq<Result<Seq<char>, Seq<char>>>) -> (i: int)
    ensures
        match first_failure(replies) {
            Some(e) => 0 <= i < replies.len() && replies[i] == Err::<Seq<char>, _>(e) && forall|
                j: int,
            |
                0 <= j < i ==> (#[trigger] replies[j]) is Ok,
            None => forall|j: int| 0 <= j < replies.len() ==> (#[trigger] replies[j]) is Ok,
        },
    decreases replies.len(),
{
    if replies.len() == 0 {
        0
    } else {
        let rest = replies.drop_last();
        let i = the_first_failure_counts(rest);
        assert(forall|j: int| 0 <= j < rest.len() ==> rest[j] == #[trigger] replies[j]);
        if first_failure(rest) is Some {
            i
        } else {
            replies.len() - 1
        }
    }
}

/// Groups follow each other without a gap from the first to the last, none wider than is
/// allowed, and only the last narrower.
pub proof fn groups_cover_everything(n: int, width: int, from: int, k: int)
    requires
        width > 0,
        0 <= from,
        0 <= k < group_starts(n, width, from).len(),
    ensures
        group_starts(n, width, from)[0].0 == from,
        group_starts(n, width, from).last().1 == n,
        group_starts(n, width, from)[k].0 < group_starts(n, width, from)[k].1,
        group_starts(n, width, from)[k].1 - group_starts(n, width, from)[k].0 <= width,
        k + 1 < group_starts(n, width, from).len() ==> {
            &&& group_starts(n, width, from)[k].1 == group_starts(n, width, from)[k + 1].0
            &&& group_starts(n, width, from)[k].1 - group_starts(n, width, from)[k].0 == width
        },
    decreases n - from,
{
    if from < n {
        let end = if from + width < n {
            from + width
        } else {
            n
        };
        let rest = group_starts(n, width, end);
        let all = group_starts(n, width, from);
        assert(all =~= seq![(from, end)] + rest);
        if rest.len() > 0 {
            groups_cover_everything(n, width, end, 0);
            if k > 0 {
                groups_cover_everything(n, width, end, k - 1);
            }
        }
    }
}

} // verus!
