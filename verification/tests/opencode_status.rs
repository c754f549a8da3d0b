use ai_audit::opencode::status::{classify_static, LastMessageMeta, StaticStatus};

#[test]
fn classify_static_shapes() {
    let meta = |last_role: &str, last_completed: bool, parts_total: i64, stuck_tools: i64| {
        LastMessageMeta {
            session_id: "ses_1".to_string(),
            msg_id: "msg_1".to_string(),
            last_msg_ts: 1,
            session_updated_ts: 2,
            last_role: last_role.to_string(),
            last_completed,
            parts_total,
            stuck_tools,
        }
    };

    assert_eq!(
        classify_static(&meta("assistant", true, 1, 0)),
        StaticStatus::Completed
    );
    assert_eq!(
        classify_static(&meta("user", false, 0, 0)),
        StaticStatus::UserPending
    );
    assert_eq!(
        classify_static(&meta("assistant", false, 0, 0)),
        StaticStatus::AssistantEmpty
    );
    assert_eq!(
        classify_static(&meta("assistant", false, 1, 0)),
        StaticStatus::AssistantPartial
    );
    assert_eq!(
        classify_static(&meta("assistant", false, 1, 1)),
        StaticStatus::AssistantToolStuck
    );
}

#[test]
fn resumable_set_is_exact() {
    assert_eq!(
        StaticStatus::resumable_set(),
        vec![
            StaticStatus::UserPending,
            StaticStatus::AssistantEmpty,
            StaticStatus::AssistantPartial,
            StaticStatus::AssistantToolStuck,
        ]
    );
}
