use ai_audit::json::print_json;
use ai_audit::opencode::nudge::{
    execute_one, next_step, plan_groups, NudgeAction, NudgePlan, NudgeStrategy,
};
use ai_audit::opencode::server_client::{LiveStatus, ServerClient, ServerCredentials};
use ai_audit::opencode::status::{ResumeModel, StaticStatus};
use ai_audit::steps::Step;

fn make_plan(session_id: &str, strategy: NudgeStrategy) -> NudgePlan {
    NudgePlan {
        session_id: session_id.to_string(),
        static_status: StaticStatus::UserPending,
        live_status: LiveStatus::Idle,
        project_dir: "/tmp/p".to_string(),
        orphan: false,
        forced: false,
        strategy,
        fork_first: false,
    }
}

/// The request that an action stands for: where it goes, the directory that it
/// carries, and what it says.
fn told(action: &NudgeAction) -> String {
    let client = ServerClient::new(ServerCredentials { url: String::new(), password: None });
    let request = match action {
        NudgeAction::Fork { session_id, directory, message_id } => {
            client.fork_request(session_id, directory, message_id.as_deref())
        }
        NudgeAction::Abort { session_id, directory } => client.abort_request(session_id, directory),
        NudgeAction::Revert { session_id, directory, message_id } => {
            client.revert_request(session_id, directory, message_id)
        }
        NudgeAction::Prompt { session_id, directory, text, agent, model } => client.nudge_request(
            session_id,
            directory,
            text,
            agent.as_deref(),
            model.as_ref(),
        ),
    };
    let body = request.body.as_ref().map(print_json).unwrap_or_default();
    format!("{} {} {}", request.url, request.directory.unwrap_or_default(), body)
}

/// A server that writes down the requests it gets.
fn server<F: Fn(&NudgeAction) -> Result<String, String>>(
    reply: F,
) -> impl Fn(Vec<String>, &NudgeAction) -> (Vec<String>, Result<String, String>) {
    move |mut log: Vec<String>, action: &NudgeAction| {
        log.push(told(action));
        (log, reply(action))
    }
}

const ABORT: &str = "/session/ses_1/abort /tmp/p ";
const REVERT: &str = r#"/session/ses_1/revert /tmp/p {"messageID":"msg_user"}"#;

fn concat_prompt(session_id: &str, members: &str, text: &str) -> String {
    format!(
        r#"/session/{}/prompt_async /tmp/p {{{}"parts":[{{"text":"{}","type":"text"}}]}}"#,
        session_id, members, text
    )
}

fn clean_resume(text: &str) -> NudgeStrategy {
    NudgeStrategy::CleanResume {
        user_msg_id: "msg_user".to_string(),
        text: text.to_string(),
        agent: None,
        model: None,
    }
}

fn continue_prompt() -> NudgeStrategy {
    NudgeStrategy::ContinuePrompt { prompt: "continue".into(), agent: None, model: None }
}

#[test]
fn strategy_accessors_work() {
    let strategy = NudgeStrategy::CleanResume {
        user_msg_id: "msg_1".into(),
        text: "do stuff".into(),
        agent: Some("conductor".into()),
        model: Some(ResumeModel {
            provider_id: "anthropic".into(),
            model_id: "opus-4-5".into(),
        }),
    };
    assert_eq!(strategy.agent(), Some("conductor"));
    assert_eq!(
        strategy.model().map(|m| m.provider_id.as_str()),
        Some("anthropic")
    );

    let strategy = NudgeStrategy::ContinuePrompt {
        prompt: "continue".into(),
        agent: None,
        model: None,
    };
    assert_eq!(strategy.agent(), None);
    assert!(strategy.model().is_none());
}

#[test]
fn execute_one_clean_resume_calls_abort_then_revert_then_prompt_async() {
    let plan = make_plan(
        "ses_1",
        NudgeStrategy::CleanResume {
            user_msg_id: "msg_user".to_string(),
            text: "do the original thing".to_string(),
            agent: Some("conductor".to_string()),
            model: Some(ResumeModel {
                provider_id: "anthropic".to_string(),
                model_id: "opus-4-5".to_string(),
            }),
        },
    );
    let (log, outcome) = execute_one(&plan, Vec::new(), server(|_| Ok(String::new())));
    assert_eq!(outcome.result, Ok(()));
    assert_eq!(
        log,
        vec![
            ABORT,
            REVERT,
            concat_prompt(
                "ses_1",
                r#""agent":"conductor","model":{"modelID":"opus-4-5","providerID":"anthropic"},"#,
                "do the original thing",
            )
            .as_str(),
        ]
    );
}

#[test]
fn execute_one_clean_resume_aborts_when_revert_fails() {
    // Sending the text again without the revert would leave the broken answer in
    // place.
    let replies = server(|action| match action {
        NudgeAction::Revert { .. } => Err("boom".to_string()),
        _ => Ok(String::new()),
    });
    let (log, outcome) =
        execute_one(&make_plan("ses_1", clean_resume("do thing")), Vec::new(), replies);
    let error = outcome.result.unwrap_err();
    assert!(error.contains("boom"), "got: {}", error);
    assert_eq!(log, vec![ABORT, REVERT]);
}

#[test]
fn execute_one_continue_prompt_calls_abort_then_prompt_async() {
    let plan = make_plan(
        "ses_1",
        NudgeStrategy::ContinuePrompt {
            prompt: "continue".to_string(),
            agent: Some("conductor".to_string()),
            model: None,
        },
    );
    let (log, outcome) = execute_one(&plan, Vec::new(), server(|_| Ok(String::new())));
    assert_eq!(outcome.result, Ok(()));
    let prompt = concat_prompt("ses_1", r#""agent":"conductor","#, "continue");
    assert_eq!(log, vec![ABORT, prompt.as_str()]);
}

#[test]
fn execute_one_abort_failure_aborts_the_nudge() {
    let replies = server(|_| Err("abort failed".to_string()));
    let (log, outcome) = execute_one(&make_plan("ses_1", continue_prompt()), Vec::new(), replies);
    let error = outcome.result.unwrap_err();
    assert!(error.contains("abort failed"), "got: {}", error);
    assert_eq!(log, vec![ABORT]);
}

#[test]
fn forks_are_nudged_in_place_of_the_session() {
    let mut plan = make_plan("ses_1", clean_resume("do thing"));
    plan.fork_first = true;
    let replies = server(|action| match action {
        NudgeAction::Fork { .. } => Ok("ses_fork".to_string()),
        _ => Ok(String::new()),
    });
    let (log, outcome) = execute_one(&plan, Vec::new(), replies);
    assert_eq!(outcome.session_id, "ses_1");
    assert_eq!(outcome.fork_id.as_deref(), Some("ses_fork"));
    assert_eq!(
        log,
        vec![
            r#"/session/ses_1/fork /tmp/p {"messageID":"msg_user"}"#,
            "/session/ses_fork/abort /tmp/p ",
            concat_prompt("ses_fork", "", "do thing").as_str(),
        ]
    );
}

#[test]
fn groups_cover_all_plans() {
    assert_eq!(plan_groups(5, 2), vec![(0, 2), (2, 4), (4, 5)]);
    assert!(plan_groups(0, 3).is_empty());
}

#[test]
fn a_fork_is_named_even_where_it_cannot_be_stopped() {
    let mut plan = make_plan("ses_1", continue_prompt());
    plan.fork_first = true;
    let replies = server(|action| match action {
        NudgeAction::Fork { .. } => Ok("f".to_string()),
        _ => Err("busy".to_string()),
    });
    let (log, outcome) = execute_one(&plan, Vec::new(), replies);
    assert_eq!(log.len(), 2);
    assert_eq!(outcome.session_id, "ses_1");
    assert_eq!(outcome.result, Err("busy".to_string()));
    assert_eq!(outcome.fork_id.as_deref(), Some("f"));
    let (_, refused) = execute_one(&plan, Vec::new(), server(|_| Err("no".to_string())));
    assert_eq!(refused.fork_id, None);
}

#[test]
fn steps_follow_the_replies() {
    let plan = make_plan("ses_1", clean_resume("again"));
    let mut replies = Vec::new();
    let mut seen = Vec::new();
    let outcome = loop {
        match next_step(&plan, &replies) {
            Step::Request(action) => seen.push(told(&action)),
            Step::Done(outcome) => break outcome,
        }
        replies.push(Ok(String::new()));
    };
    assert_eq!(outcome.result, Ok(()));
    assert_eq!(seen[..2], [ABORT, REVERT]);
    assert_eq!(seen.len(), 3);
    match next_step(&plan, &vec![Ok(String::new()), Err("no".to_string())]) {
        Step::Done(outcome) => assert_eq!(outcome.result, Err("no".to_string())),
        Step::Request(_) => panic!("nothing is asked for behind a failure"),
    }
}
