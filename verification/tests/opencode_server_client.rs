use ai_audit::json::print_json;
use ai_audit::opencode::config::{OpencodeConfig, OpencodeServerConfig};
use ai_audit::opencode::server_client::{
    compute_live, fork_reply, nudge_reply, plain_reply, resolve_server_credentials, status_reply,
    LiveStatus, ServerBusyKind, ServerClient, ServerCredentials, ServerReply, ServerRequest,
};
use ai_audit::opencode::status::ResumeModel;
use ai_audit::table::TextMap;

fn client(password: Option<&str>) -> ServerClient {
    ServerClient::new(ServerCredentials {
        url: "http://server".to_string(),
        password: password.map(str::to_string),
    })
}

fn reply(status: u16, body: &str) -> ServerReply {
    ServerReply { status, status_text: status.to_string(), body: body.to_string() }
}

fn body_of(request: &ServerRequest) -> serde_json::Value {
    serde_json::from_str(&print_json(request.body.as_ref().unwrap())).unwrap()
}

fn document(text: &str) -> serde_json::Value {
    serde_json::from_str(text).unwrap()
}

/// The word for each session in the body of a reply.
fn words_in(body: &str) -> TextMap<String> {
    let mut words = TextMap::new();
    for (id, status) in document(body).as_object().unwrap() {
        words.insert(id.clone(), status["type"].as_str().unwrap().to_string());
    }
    words
}

#[test]
fn compute_live_running() {
    let mut map = TextMap::new();
    map.insert("ses_1".to_string(), ServerBusyKind::Busy);
    assert_eq!(
        compute_live("ses_1", Some(&map), false),
        LiveStatus::Running
    );
}

#[test]
fn compute_live_idle() {
    let map = TextMap::new();
    assert_eq!(compute_live("ses_1", Some(&map), false), LiveStatus::Idle);
}

#[test]
fn compute_live_server_unreachable() {
    assert_eq!(
        compute_live("ses_1", None, true),
        LiveStatus::ServerUnreachable
    );
}

#[test]
fn session_status_parses_map() {
    let request = client(None).status_request();
    assert_eq!(request.url, "http://server/session/status");
    let reply = reply(
        200,
        r#"
        {
          "ses_a": {"type": "busy"},
          "ses_b": {"type": "retry", "attempt": 2},
          "ses_c": {"type": "fallback", "from": "a", "to": "b"}
        }
        "#,
    );
    let map = status_reply(&request.url, &reply, Some(&words_in(&reply.body))).unwrap();
    assert_eq!(map.get("ses_a"), Some(&ServerBusyKind::Busy));
    assert_eq!(map.get("ses_b"), Some(&ServerBusyKind::Retry));
    assert_eq!(map.get("ses_c"), Some(&ServerBusyKind::Fallback));
}

#[test]
fn session_status_401_is_error() {
    let error =
        status_reply("http://server/session/status", &reply(401, "nope"), None).err().unwrap();
    assert!(error.contains("401"));
    let error = status_reply("http://s/status", &reply(200, "nope"), None).err().unwrap();
    assert_eq!(error, "Failed to parse http://s/status response");
}

#[test]
fn nudge_204_is_ok_and_sends_directory_header() {
    let request = client(None).nudge_request("ses_1", "/tmp/proj-a", "continue", None, None);
    assert_eq!(request.url, "http://server/session/ses_1/prompt_async");
    assert_eq!(request.directory.as_deref(), Some("/tmp/proj-a"));
    assert_eq!(
        body_of(&request),
        document(r#"{"parts": [{ "type": "text", "text": "continue" }]}"#)
    );
    assert!(nudge_reply(&request.url, &reply(204, "")).is_ok());
}

#[test]
fn nudge_includes_agent_when_provided() {
    let request = client(None).nudge_request("ses_1", "/p", "continue", Some("conductor"), None);
    assert_eq!(request.directory.as_deref(), Some("/p"));
    assert_eq!(
        body_of(&request),
        document(r#"{"parts": [{ "type": "text", "text": "continue" }], "agent": "conductor"}"#)
    );
}

#[test]
fn nudge_includes_agent_and_model_when_provided() {
    let request = client(None).nudge_request(
        "ses_1",
        "/p",
        "go",
        Some("conductor"),
        Some(&ResumeModel {
            provider_id: "anthropic".to_string(),
            model_id: "opus-4-5".to_string(),
        }),
    );
    assert_eq!(
        body_of(&request),
        document(
            r#"{
                "parts": [{ "type": "text", "text": "go" }],
                "agent": "conductor",
                "model": { "providerID": "anthropic", "modelID": "opus-4-5" }
            }"#
        )
    );
}

#[test]
fn nudge_error_includes_body() {
    let error = nudge_reply("u", &reply(500, "boom")).err().unwrap();
    assert!(error.contains("boom"));
    // Of all answers only the one without content is right.
    assert!(nudge_reply("u", &reply(200, "{}")).is_err());
}

#[test]
fn nudge_sends_authorization_header() {
    // The encoding of `opencode:testpw`.
    assert_eq!(
        client(Some("testpw")).auth_header.as_deref(),
        Some("Basic b3BlbmNvZGU6dGVzdHB3")
    );
}

#[test]
fn revert_200_is_ok_and_sends_directory_header() {
    let request = client(None).revert_request("ses_1", "/tmp/proj-a", "msg_42");
    assert_eq!(request.url, "http://server/session/ses_1/revert");
    assert_eq!(request.directory.as_deref(), Some("/tmp/proj-a"));
    assert_eq!(body_of(&request), document(r#"{ "messageID": "msg_42" }"#));
    assert!(plain_reply(&request.url, &reply(200, "{}")).is_ok());
}

#[test]
fn revert_error_includes_body() {
    let error = plain_reply("u", &reply(404, "not found")).err().unwrap();
    assert!(error.contains("not found"), "got: {}", error);
    assert!(error.contains("404"), "got: {}", error);
}

#[test]
fn revert_sends_authorization_header() {
    // The encoding of `opencode:secret`.
    assert_eq!(
        client(Some("secret")).auth_header.as_deref(),
        Some("Basic b3BlbmNvZGU6c2VjcmV0")
    );
    assert!(client(None).auth_header.is_none());
}

#[test]
fn fork_returns_new_session_id_and_sends_directory_header() {
    let request = client(None).fork_request("ses_orig", "/p", Some("msg_42"));
    assert_eq!(request.url, "http://server/session/ses_orig/fork");
    assert_eq!(request.directory.as_deref(), Some("/p"));
    assert_eq!(body_of(&request), document(r#"{ "messageID": "msg_42" }"#));
    let fork_id = fork_reply(
        &request.url,
        &reply(200, r#"{"id":"ses_fork","directory":"/p","title":"orig (fork #1)"}"#),
    )
    .unwrap();
    assert_eq!(fork_id, "ses_fork");
}

#[test]
fn fork_without_message_id_sends_empty_body() {
    let request = client(None).fork_request("ses_orig", "/p", None);
    assert_eq!(request.directory.as_deref(), Some("/p"));
    assert_eq!(body_of(&request), document("{}"));
    assert!(fork_reply(&request.url, &reply(200, r#"{"id":"ses_fork"}"#)).is_ok());
}

#[test]
fn fork_error_includes_body() {
    let error = fork_reply("u", &reply(500, "forked sideways")).err().unwrap();
    assert!(error.contains("forked sideways"), "got: {}", error);
    assert!(fork_reply("u", &reply(200, "no document")).is_err());
    assert!(fork_reply("u", &reply(200, "{}")).is_err());
}

#[test]
fn abort_200_is_ok_and_sends_directory_header() {
    let request = client(None).abort_request("ses_1", "/p");
    assert_eq!(request.url, "http://server/session/ses_1/abort");
    assert_eq!(request.directory.as_deref(), Some("/p"));
    assert!(request.body.is_none());
    assert!(plain_reply(&request.url, &reply(200, "true")).is_ok());
}

#[test]
fn abort_error_includes_body() {
    let error = plain_reply("u", &reply(500, "boom")).err().unwrap();
    assert!(error.contains("boom"));
}

fn config(url: Option<&str>, password: Option<&str>) -> OpencodeConfig {
    OpencodeConfig {
        server: OpencodeServerConfig {
            url: url.map(str::to_string),
            password: password.map(str::to_string),
        },
    }
}

#[test]
fn resolve_server_credentials_priority() {
    let env_url = Some("http://env".to_string());
    let env_password = Some("envpw".to_string());
    let resolved = resolve_server_credentials(
        Some("http://cli"),
        Some("clipw"),
        env_url.clone(),
        env_password.clone(),
        config(Some("http://config"), Some("configpw")),
    );
    assert_eq!(resolved.url, "http://cli");
    assert_eq!(resolved.password.as_deref(), Some("clipw"));
    let resolved = resolve_server_credentials(
        None,
        None,
        env_url,
        env_password,
        config(Some("http://config"), Some("configpw")),
    );
    assert_eq!(resolved.url, "http://env");
    assert_eq!(resolved.password.as_deref(), Some("envpw"));
    let configured = config(Some("http://config"), Some("configpw"));
    let resolved = resolve_server_credentials(None, None, None, None, configured);
    assert_eq!(resolved.url, "http://config");
    assert_eq!(resolved.password.as_deref(), Some("configpw"));
}

#[test]
fn resolve_server_credentials_defaults() {
    let resolved = resolve_server_credentials(None, None, None, None, config(None, None));
    assert_eq!(resolved.url, "http://127.0.0.1:4096");
    assert!(resolved.password.is_none());
}

#[test]
fn missing_block_defaults() {
    let parsed = OpencodeConfig::default();
    assert!(parsed.server.url.is_none());
    assert!(parsed.server.password.is_none());
}

#[test]
fn slashes_behind_the_server_address_are_dropped() {
    let client = ServerClient::new(ServerCredentials {
        url: "http://server//".to_string(),
        password: None,
    });
    assert_eq!(client.base_url, "http://server");
}
