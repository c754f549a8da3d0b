use ai_audit::opencode::enrich::{live_status_predicate, static_status_predicate};
use ai_audit::opencode::server_client::{LiveStatus, ServerBusyKind};
use ai_audit::opencode::status::{LastMessageMeta, StaticStatus};
use ai_audit::provider::{Provider, Session};
use ai_audit::session_filter::{
    list_filtered, matches_primary_filters, request_records, EnrichedSession, SessionFilter,
};
use ai_audit::table::TextMap;
use ai_audit::time::Timestamp;

fn session(id: &str, parent_id: Option<&str>) -> Session {
    Session {
        session_id: id.to_string(),
        provider: Provider::OpenCode,
        started_at: Timestamp { secs: 10, nanos: 0 },
        updated_at: Timestamp { secs: 20, nanos: 0 },
        project_dir: "/tmp/project".to_string(),
        title: id.to_string(),
        parent_id: parent_id.map(str::to_string),
    }
}

fn open_filter() -> SessionFilter {
    SessionFilter {
        session_type: Some(Provider::OpenCode),
        session_id: None,
        project: None,
        search: None,
        file: None,
        timespan: None,
        last_message_in: None,
        all: false,
        children_of: None,
        static_enrich: false,
        live_enrich: false,
    }
}

type Predicate = fn(&EnrichedSession) -> bool;
type Records = Result<TextMap<LastMessageMeta>, String>;
type Busy = Result<Option<TextMap<ServerBusyKind>>, String>;

const ANY: Option<Predicate> = None;

fn ids(sessions: &[EnrichedSession]) -> Vec<&str> {
    sessions.iter().map(|s| s.base.session_id.as_str()).collect()
}

fn meta(id: &str, role: &str) -> LastMessageMeta {
    LastMessageMeta {
        session_id: id.to_string(),
        msg_id: "msg".to_string(),
        last_msg_ts: 100,
        session_updated_ts: 20,
        last_role: role.to_string(),
        last_completed: true,
        parts_total: 1,
        stuck_tools: 0,
    }
}

#[test]
fn combined_filters_intersect() {
    let filter = SessionFilter {
        project: Some("/tmp/project".to_string()),
        search: Some("needle".to_string()),
        file: Some("/tmp/project/file.rs".to_string()),
        timespan: Some((0, 30)),
        ..open_filter()
    };
    let hit = |s: &Session, _: &String| s.session_id == "ses_hit";
    let sessions = list_filtered(
        &filter,
        vec![session("ses_hit", None), session("ses_miss", None)],
        &vec![Provider::OpenCode],
        (),
        hit,
        hit,
        |_: (), _: &Vec<String>| ((), Ok(TextMap::new())),
        ANY,
        |_: (), _: &Vec<EnrichedSession>| ((), Ok(None)),
        ANY,
    )
    .1
    .unwrap();

    assert_eq!(ids(&sessions), vec!["ses_hit"]);
}

/// How many sessions the records, and then the server, were asked about.
type Seen = (Vec<usize>, Vec<usize>);

#[test]
fn enrichers_only_see_survivors_in_order() {
    let filter = SessionFilter {
        file: Some("/tmp/project/file.rs".to_string()),
        static_enrich: true,
        live_enrich: true,
        ..open_filter()
    };
    let (seen, sessions) = list_filtered(
        &filter,
        vec![session("ses_a", None), session("ses_b", None), session("ses_c", None)],
        &vec![Provider::OpenCode],
        (Vec::new(), Vec::new()),
        |s: &Session, _: &String| s.session_id != "ses_c",
        |_: &Session, _: &String| true,
        |mut seen: Seen, asked: &Vec<String>| -> (Seen, Records) {
            seen.0.push(asked.len());
            let mut known = TextMap::new();
            known.insert("ses_a".to_string(), meta("ses_a", "assistant"));
            known.insert("ses_b".to_string(), meta("ses_b", "user"));
            (seen, Ok(known))
        },
        Some(|s: &EnrichedSession| s.base.session_id == "ses_b"),
        |mut seen: Seen, asked: &Vec<EnrichedSession>| -> (Seen, Busy) {
            seen.1.push(asked.len());
            (seen, Ok(Some(TextMap::new())))
        },
        ANY,
    );
    let sessions = sessions.unwrap();

    assert_eq!(seen.0, vec![2]);
    assert_eq!(seen.1, vec![1]);
    assert_eq!(sessions.len(), 1);
    assert_eq!(sessions[0].base.session_id, "ses_b");
    assert_eq!(sessions[0].live_ext.as_ref().map(|l| l.status), Some(LiveStatus::Idle));
    assert_eq!(sessions[0].last_message_ts, Some(100));
}

#[test]
fn statuses_select_sessions() {
    let filter = SessionFilter { static_enrich: true, live_enrich: true, ..open_filter() };
    let list = |live: LiveStatus| {
        list_filtered(
            &filter,
            vec![session("ses_a", None), session("ses_b", None)],
            &vec![Provider::OpenCode],
            (),
            |_: &Session, _: &String| true,
            |_: &Session, _: &String| true,
            |_: (), _: &Vec<String>| {
                let mut known = TextMap::new();
                known.insert("ses_a".to_string(), meta("ses_a", "assistant"));
                known.insert("ses_b".to_string(), meta("ses_b", "user"));
                ((), Ok(known))
            },
            Some(|s: &EnrichedSession| {
                static_status_predicate(&vec![StaticStatus::UserPending], s)
            }),
            |_: (), _: &Vec<EnrichedSession>| ((), Ok(None)),
            Some(|s: &EnrichedSession| live_status_predicate(&vec![live], s)),
        )
        .1
        .unwrap()
    };
    assert_eq!(ids(&list(LiveStatus::ServerUnreachable)), vec!["ses_b"]);
    assert!(list(LiveStatus::Idle).is_empty());
}

#[test]
fn live_enrichment_is_not_called_when_absent() {
    let (asked, sessions) = list_filtered(
        &open_filter(),
        vec![session("ses_a", None)],
        &vec![Provider::OpenCode],
        0,
        |_: &Session, _: &String| true,
        |_: &Session, _: &String| true,
        |asked: u32, _: &Vec<String>| -> (u32, Records) { (asked + 1, Ok(TextMap::new())) },
        ANY,
        |_: u32, _: &Vec<EnrichedSession>| -> (u32, Busy) {
            panic!("live enrich called unexpectedly")
        },
        ANY,
    );

    assert_eq!(sessions.unwrap().len(), 1);
    assert_eq!(asked, 0);
}

#[test]
fn sessions_of_other_providers_are_left_out() {
    let pi = Session { provider: Provider::Pi, ..session("p", None) };
    let filter = |session_type| SessionFilter { session_type, ..open_filter() };
    assert!(!matches_primary_filters(&pi, &filter(Some(Provider::OpenCode))));
    assert!(matches_primary_filters(&pi, &filter(Some(Provider::Pi))));
    assert!(matches_primary_filters(&pi, &filter(None)));
}

#[test]
fn the_time_of_the_last_message_needs_records() {
    let filter = SessionFilter { last_message_in: Some((0, 9)), ..open_filter() };
    assert!(request_records(&filter, &Vec::new()).is_err());
    assert_eq!(request_records(&open_filter(), &Vec::new()), Ok(Vec::new()));
}

#[test]
fn children_are_listed_only_when_asked_for() {
    let list = |filter: &SessionFilter| {
        let sessions = list_filtered(
            filter,
            vec![session("ses_a", None), session("ses_b", Some("ses_a"))],
            &vec![Provider::OpenCode],
            (),
            |_: &Session, _: &String| true,
            |_: &Session, _: &String| true,
            |_: (), _: &Vec<String>| ((), Ok(TextMap::new())),
            ANY,
            |_: (), _: &Vec<EnrichedSession>| ((), Ok(None)),
            ANY,
        )
        .1
        .unwrap();
        ids(&sessions).iter().map(|id| id.to_string()).collect::<Vec<String>>()
    };
    assert_eq!(list(&open_filter()), vec!["ses_a"]);
    assert_eq!(list(&SessionFilter { all: true, ..open_filter() }), vec!["ses_a", "ses_b"]);
    let of_a = SessionFilter { children_of: Some("ses_a".to_string()), ..open_filter() };
    assert_eq!(list(&of_a), vec!["ses_b"]);
}

#[test]
fn failures_of_the_server_are_passed_on() {
    let filter = SessionFilter { live_enrich: true, ..open_filter() };
    let failed = list_filtered(
        &filter,
        vec![session("ses_a", None)],
        &vec![Provider::OpenCode],
        (),
        |_: &Session, _: &String| true,
        |_: &Session, _: &String| true,
        |_: (), _: &Vec<String>| ((), Ok(TextMap::new())),
        ANY,
        |_: (), _: &Vec<EnrichedSession>| -> ((), Busy) { ((), Err("refused".to_string())) },
        ANY,
    )
    .1;
    assert_eq!(failed.err(), Some("refused".to_string()));
}
