//! Talking to an OpenCode server: what is sent, and what a reply means.

use crate::json::{Json, JsonView, json_in, json_text, member, parse_json, print_json};
use crate::opencode::config::OpencodeConfig;
use crate::opencode::nudge::reply_view;
use crate::opencode::status::ResumeModel;
use crate::table::{TextMap, entry_is_mapped, keys_differ};
use crate::text::{
    chars_of, contains_text, has_prefix, has_suffix, occurs_at, str_eq, string_of, trim, trimmed,
};
use base64::Engine;
use vstd::prelude::*;
use vstd::slice::slice_subrange;

verus! {

/// Where a server is, and the password for it.
#[derive(Clone, PartialEq, Eq, Debug)]
pub struct ServerCredentials {
    pub url: String,
    pub password: Option<String>,
}

/// What a session is doing.
#[derive(Clone, Copy, PartialEq, Eq, Structural, Debug)]
pub enum LiveStatus {
    Running,
    Idle,
    ServerUnreachable,
}

/// The name of a live status in options and reports.
pub open spec fn live_name(s: LiveStatus) -> Seq<char> {
    match s {
        LiveStatus::Running => "running"@,
        LiveStatus::Idle => "idle"@,
        LiveStatus::ServerUnreachable => "server-unreachable"@,
    }
}

/// All live statuses, in the order in which they are listed.
pub open spec fn all_live() -> Seq<LiveStatus> {
    seq![LiveStatus::Running, LiveStatus::Idle, LiveStatus::ServerUnreachable]
}

/// Names tell live statuses apart, and all are listed.
pub proof fn live_names_are_distinct(a: LiveStatus, b: LiveStatus)
    ensures
        live_name(a) == live_name(b) <==> a == b,
        all_live().contains(a),
{
    reveal_strlit("running");
    reveal_strlit("idle");
    reveal_strlit("server-unreachable");
    assert(live_name(LiveStatus::Running).len() == 7);
    assert(live_name(LiveStatus::Idle).len() == 4);
    assert(live_name(LiveStatus::ServerUnreachable).len() == 18);
    assert(all_live()[0] == LiveStatus::Running);
    assert(all_live()[1] == LiveStatus::Idle);
    assert(all_live()[2] == LiveStatus::ServerUnreachable);
}

impl LiveStatus {
    /// The name of the status in options and reports.
    pub fn as_str(&self) -> (r: &'static str)
        ensures
            r@ == live_name(*self),
    {
        match self {
            LiveStatus::Running => "running",
            LiveStatus::Idle => "idle",
            LiveStatus::ServerUnreachable => "server-unreachable",
        }
    }

    /// The status with a name.
    pub fn parse(value: &str) -> (r: Result<LiveStatus, String>)
        ensures
            match r {
                Ok(s) => live_name(s) == value@,
                Err(e) => (forall|s: LiveStatus| #[trigger] live_name(s) != value@) && e@
                    == "invalid status; valid live values: running, idle, server-unreachable"@,
            },
    {
        if str_eq(value, "running") {
            return Ok(LiveStatus::Running);
        }
        if str_eq(value, "idle") {
            return Ok(LiveStatus::Idle);
        }
        if str_eq(value, "server-unreachable") {
            return Ok(LiveStatus::ServerUnreachable);
        }
        Err("invalid status; valid live values: running, idle, server-unreachable".to_owned())
    }

    /// All live statuses.
    pub fn all() -> (r: Vec<LiveStatus>)
        ensures
            r@ == all_live(),
    {
        vec![LiveStatus::Running, LiveStatus::Idle, LiveStatus::ServerUnreachable]
    }
}

/// What a server says a session is busy with.
#[derive(Clone, Copy, PartialEq, Eq, Structural, Debug)]
pub enum ServerBusyKind {
    Busy,
    Retry,
    Fallback,
}

/// What the word of a server means. A word that is not known means busy.
pub open spec fn busy_kind(word: Seq<char>) -> ServerBusyKind {
    if word == "retry"@ {
        ServerBusyKind::Retry
    } else if word == "fallback"@ {
        ServerBusyKind::Fallback
    } else {
        ServerBusyKind::Busy
    }
}

/// What a session is doing, given the sessions that the server lists as busy.
pub fn compute_live(
    session_id: &str,
    map: Option<&TextMap<ServerBusyKind>>,
    server_unreachable: bool,
) -> (r: LiveStatus)
    requires
        !server_unreachable ==> map is Some,
    ensures
        r == (if server_unreachable {
            LiveStatus::ServerUnreachable
        } else if map->0@.dom().contains(session_id@) {
            LiveStatus::Running
        } else {
            LiveStatus::Idle
        }),
{
    if server_unreachable {
        return LiveStatus::ServerUnreachable;
    }
    match map {
        Some(map) => {
            if map.contains_key(session_id) {
                LiveStatus::Running
            } else {
                LiveStatus::Idle
            }
        },
        None => LiveStatus::ServerUnreachable,
    }
}

/// The server of which nothing else was said.
pub const DEFAULT_SERVER_URL: &'static str = "http://127.0.0.1:4096";

/// The first of three that is there.
pub open spec fn first_of(
    a: Option<Seq<char>>,
    b: Option<Seq<char>>,
    c: Option<Seq<char>>,
) -> Option<Seq<char>> {
    if a is Some {
        a
    } else if b is Some {
        b
    } else {
        c
    }
}

fn first_present(a: Option<&str>, b: Option<String>, c: Option<String>) -> (r: Option<String>)
    ensures
        r.deep_view() == first_of(a.deep_view(), b.deep_view(), c.deep_view()),
{
    match a {
        Some(a) => Some(a.to_owned()),
        None => {
            if b.is_some() {
                b
            } else {
                c
            }
        },
    }
}

/// Where the server is and the password for it: as the command line says, else
/// the environment, else the configuration, else the server on this machine.
pub fn resolve_server_credentials(
    cli_url: Option<&str>,
    cli_password: Option<&str>,
    env_url: Option<String>,
    env_password: Option<String>,
    config: OpencodeConfig,
) -> (r: ServerCredentials)
    ensures
        r.url@ == (match first_of(
            cli_url.deep_view(),
            env_url.deep_view(),
            config.server.url.deep_view(),
        ) {
            Some(url) => url,
            None => DEFAULT_SERVER_URL@,
        }),
        r.password.deep_view() == first_of(
            cli_password.deep_view(),
            env_password.deep_view(),
            config.server.password.deep_view(),
        ),
{
    let url = match first_present(cli_url, env_url, config.server.url) {
        Some(url) => url,
        None => DEFAULT_SERVER_URL.to_owned(),
    };
    let password = first_present(cli_password, env_password, config.server.password);
    ServerCredentials { url, password }
}

/// The base64 notation of the UTF-8 bytes of a text.
pub uninterp spec fn base64_text(s: Seq<char>) -> Seq<char>;

/// The standard engine of the crate base64 encodes bytes with padding. What it
/// writes depends on the bytes alone.
#[verifier::external_body]
fn base64_encode(s: &str) -> (r: String)
    ensures
        r@ == base64_text(s@),
{
    base64::engine::general_purpose::STANDARD.encode(s)
}

/// The text without slashes at its end.
pub open spec fn without_slashes(s: Seq<char>) -> Seq<char>
    decreases s.len(),
{
    if s.len() > 0 && s.last() == '/' {
        without_slashes(s.drop_last())
    } else {
        s
    }
}

fn trim_slashes(s: &str) -> (r: String)
    ensures
        r@ == without_slashes(s@),
{
    let v = chars_of(s);
    let mut n: usize = v.len();
    assert(v@.take(n as int) == v@);
    while n > 0
        invariant_except_break
            without_slashes(v@.take(n as int)) == without_slashes(v@),
        invariant
            n <= v.len(),
        ensures
            v@.take(n as int) == without_slashes(v@),
        decreases n,
    {
        if v[n - 1] != '/' {
            break;
        }
        assert(v@.take(n as int).drop_last() == v@.take(n - 1));
        n -= 1;
    }
    string_of(slice_subrange(v.as_slice(), 0, n))
}

/// What requests to a server begin with and carry.
#[derive(Clone, Debug)]
pub struct ServerClient {
    pub base_url: String,
    pub auth_header: Option<String>,
}

/// A request. A directory is the one that the session works in.
pub struct ServerRequest {
    pub url: String,
    pub directory: Option<String>,
    pub body: Option<Json>,
}

/// A text member of an object.
pub open spec fn text_member(key: Seq<char>, value: Seq<char>) -> (Seq<char>, JsonView) {
    (key, JsonView::Str(value))
}

/// The body of a prompt: the text as one part, and the agent and the model
/// where they are known.
pub open spec fn prompt_body(
    prompt: Seq<char>,
    agent: Option<Seq<char>>,
    model: Option<(Seq<char>, Seq<char>)>,
) -> JsonView {
    let parts = (
        "parts"@,
        JsonView::Array(
            seq![JsonView::Object(seq![text_member("type"@, "text"@), text_member("text"@, prompt)])],
        ),
    );
    let with_agent = match agent {
        Some(agent) => seq![parts, text_member("agent"@, agent)],
        None => seq![parts],
    };
    JsonView::Object(
        match model {
            Some((provider_id, model_id)) => with_agent.push(
                (
                    "model"@,
                    JsonView::Object(
                        seq![text_member("providerID"@, provider_id), text_member("modelID"@, model_id)],
                    ),
                ),
            ),
            None => with_agent,
        },
    )
}

/// The provider and model by their content.
pub open spec fn model_view(model: Option<&ResumeModel>) -> Option<(Seq<char>, Seq<char>)> {
    match model {
        Some(m) => Some((m.provider_id@, m.model_id@)),
        None => None,
    }
}

/// The address of a request on a session.
pub open spec fn session_url(base: Seq<char>, session_id: Seq<char>, verb: Seq<char>) -> Seq<char> {
    base + "/session/"@ + session_id + "/"@ + verb
}

fn text_object(key: &str, value: &str) -> (r: (String, Json))
    ensures
        (r.0@, r.1@) == text_member(key@, value@),
{
    (key.to_owned(), Json::Str(value.to_owned()))
}

/// An object with one member.
fn object1(a: (String, Json)) -> (r: Json)
    ensures
        r@ == JsonView::Object(seq![(a.0@, a.1@)]),
{
    let ghost av = (a.0@, a.1@);
    let r = Json::Object(vec![a]);
    assert(r@->Object_0 =~= seq![av]);
    r
}

/// An object with two members.
fn object2(a: (String, Json), b: (String, Json)) -> (r: Json)
    ensures
        r@ == JsonView::Object(seq![(a.0@, a.1@), (b.0@, b.1@)]),
{
    let ghost av = (a.0@, a.1@);
    let ghost bv = (b.0@, b.1@);
    let r = Json::Object(vec![a, b]);
    assert(r@->Object_0 =~= seq![av, bv]);
    r
}

/// An array with one element.
fn array1(a: Json) -> (r: Json)
    ensures
        r@ == JsonView::Array(seq![a@]),
{
    let ghost av = a@;
    let r = Json::Array(vec![a]);
    assert(r@->Array_0 =~= seq![av]);
    r
}

fn with_member(
    object: Vec<(String, Json)>,
    member: (String, Json),
    Ghost(before): Ghost<Seq<(Seq<char>, JsonView)>>,
) -> (r: Vec<(String, Json)>)
    requires
        Json::Object(object)@ == JsonView::Object(before),
    ensures
        Json::Object(r)@ == JsonView::Object(before.push((member.0@, member.1@))),
{
    let ghost mv = (member.0@, member.1@);
    let ghost had = object@;
    let mut r = object;
    r.push(member);
    assert(before == Json::Object(object)@->Object_0);
    assert(r@ == had.push(member));
    assert(Json::Object(r)@->Object_0 =~= before.push(mv));
    r
}

impl ServerClient {
    /// What requests to a server begin with and carry, given where the server is
    /// and the password for it.
    pub fn new(creds: ServerCredentials) -> (r: ServerClient)
        ensures
            r.base_url@ == without_slashes(creds.url@),
            r.auth_header.deep_view() == (match creds.password.deep_view() {
                Some(password) => Some("Basic "@ + base64_text("opencode:"@ + password)),
                None => None,
            }),
    {
        let auth_header = match creds.password {
            Some(password) => {
                let mut user = "opencode:".to_owned();
                user.append(password.as_str());
                let mut header = "Basic ".to_owned();
                header.append(base64_encode(user.as_str()).as_str());
                Some(header)
            },
            None => None,
        };
        ServerClient { base_url: trim_slashes(creds.url.as_str()), auth_header }
    }

    fn url(&self, session_id: &str, verb: &str) -> (r: String)
        ensures
            r@ == session_url(self.base_url@, session_id@, verb@),
    {
        let mut url = self.base_url.clone();
        url.append("/session/");
        url.append(session_id);
        url.append("/");
        url.append(verb);
        url
    }

    /// The request for the sessions that are busy.
    pub fn status_request(&self) -> (r: ServerRequest)
        ensures
            r.url@ == self.base_url@ + "/session/status"@,
            r.directory is None,
            r.body is None,
    {
        let mut url = self.base_url.clone();
        url.append("/session/status");
        ServerRequest { url, directory: None, body: None }
    }

    /// The request that sends a text to a session.
    pub fn nudge_request(
        &self,
        session_id: &str,
        directory: &str,
        prompt: &str,
        agent: Option<&str>,
        model: Option<&ResumeModel>,
    ) -> (r: ServerRequest)
        ensures
            r.url@ == session_url(self.base_url@, session_id@, "prompt_async"@),
            r.directory.deep_view() == Some(directory@),
            r.body.deep_view() == Some(
                prompt_body(prompt@, agent.deep_view(), model_view(model)),
            ),
    {
        let part = object2(text_object("type", "text"), text_object("text", prompt));
        let parts = ("parts".to_owned(), array1(part));
        let ghost first = (parts.0@, parts.1@);
        let mut members = vec![parts];
        let ghost mut view = seq![first];
        assert(Json::Object(members)@->Object_0 =~= view);
        match agent {
            Some(agent) => {
                let member = text_object("agent", agent);
                members = with_member(members, member, Ghost(view));
                proof {
                    view = view.push((member.0@, member.1@));
                }
                assert(view =~= seq![first, text_member("agent"@, agent@)]);
            },
            None => {},
        }
        match model {
            Some(model) => {
                let ids = object2(
                    text_object("providerID", model.provider_id.as_str()),
                    text_object("modelID", model.model_id.as_str()),
                );
                let member = ("model".to_owned(), ids);
                members = with_member(members, member, Ghost(view));
                proof {
                    view = view.push((member.0@, member.1@));
                }
            },
            None => {},
        }
        ServerRequest {
            url: self.url(session_id, "prompt_async"),
            directory: Some(directory.to_owned()),
            body: Some(Json::Object(members)),
        }
    }

    /// The request that goes back to a message.
    pub fn revert_request(&self, session_id: &str, directory: &str, message_id: &str) -> (r:
        ServerRequest)
        ensures
            r.url@ == session_url(self.base_url@, session_id@, "revert"@),
            r.directory.deep_view() == Some(directory@),
            r.body.deep_view() == Some(
                JsonView::Object(seq![text_member("messageID"@, message_id@)]),
            ),
    {
        ServerRequest {
            url: self.url(session_id, "revert"),
            directory: Some(directory.to_owned()),
            body: Some(object1(text_object("messageID", message_id))),
        }
    }

    /// The request that copies a session: all of it, or what comes before a message.
    pub fn fork_request(&self, session_id: &str, directory: &str, message_id: Option<&str>) -> (r:
        ServerRequest)
        ensures
            r.url@ == session_url(self.base_url@, session_id@, "fork"@),
            r.directory.deep_view() == Some(directory@),
            r.body.deep_view() == Some(
                JsonView::Object(
                    match message_id.deep_view() {
                        Some(id) => seq![text_member("messageID"@, id)],
                        None => Seq::empty(),
                    },
                ),
            ),
    {
        let body = match message_id {
            Some(id) => object1(text_object("messageID", id)),
            None => {
                let none = Json::Object(Vec::new());
                assert(none@->Object_0 =~= Seq::<(Seq<char>, JsonView)>::empty());
                none
            },
        };
        ServerRequest {
            url: self.url(session_id, "fork"),
            directory: Some(directory.to_owned()),
            body: Some(body),
        }
    }

    /// The request that stops what a session is doing.
    pub fn abort_request(&self, session_id: &str, directory: &str) -> (r: ServerRequest)
        ensures
            r.url@ == session_url(self.base_url@, session_id@, "abort"@),
            r.directory.deep_view() == Some(directory@),
            r.body is None,
    {
        ServerRequest {
            url: self.url(session_id, "abort"),
            directory: Some(directory.to_owned()),
            body: None,
        }
    }
}

/// What a server replied. The status text is the code with its reason.
#[derive(Clone, Debug)]
pub struct ServerReply {
    pub status: u16,
    pub status_text: String,
    pub body: String,
}

/// Whether a code means success.
pub open spec fn is_success(status: u16) -> bool {
    200 <= status < 300
}

/// What is said of a request that failed.
pub open spec fn failure_text(method: Seq<char>, url: Seq<char>, reply: ServerReply) -> Seq<char> {
    method + " "@ + url + " failed: "@ + reply.status_text@ + " "@ + trimmed(reply.body@)
}

fn failure(method: &str, url: &str, reply: &ServerReply) -> (r: String)
    ensures
        r@ == failure_text(method@, url@, *reply),
{
    let mut text = method.to_owned();
    text.append(" ");
    text.append(url);
    text.append(" failed: ");
    text.append(reply.status_text.as_str());
    text.append(" ");
    text.append(trim(reply.body.as_str()).as_str());
    text
}

/// What the reply to a sent text means: only a reply without content is success.
pub fn nudge_reply(url: &str, reply: &ServerReply) -> (r: Result<(), String>)
    ensures
        match r {
            Ok(_) => reply.status == 204,
            Err(e) => reply.status != 204 && e@ == failure_text("POST"@, url@, *reply),
        },
{
    if reply.status == 204 {
        Ok(())
    } else {
        Err(failure("POST", url, reply))
    }
}

/// What the reply to a request means of which nothing but success is asked.
pub fn plain_reply(url: &str, reply: &ServerReply) -> (r: Result<(), String>)
    ensures
        match r {
            Ok(_) => is_success(reply.status),
            Err(e) => !is_success(reply.status) && e@ == failure_text("POST"@, url@, *reply),
        },
{
    if 200 <= reply.status && reply.status < 300 {
        Ok(())
    } else {
        Err(failure("POST", url, reply))
    }
}

/// The identifier of a fork in the document that a reply holds.
pub open spec fn fork_id_in(text: Seq<char>, document: Option<JsonView>) -> Result<
    Seq<char>,
    Seq<char>,
> {
    match document {
        Some(v) => match v.get_str("id"@) {
            Some(id) => Ok(id),
            None => Err("/fork response missing `id`: "@ + json_text(v)),
        },
        None => Err("parsing /fork response: "@ + text),
    }
}

/// The identifier of a fork in the document that a reply holds.
pub fn fork_id(text: &str, document: Option<Json>) -> (r: Result<String, String>)
    ensures
        reply_view(r) == fork_id_in(text@, document.deep_view()),
{
    match document {
        Some(v) => match v.get_str("id") {
            Some(id) => Ok(id.to_owned()),
            None => {
                let mut e = "/fork response missing `id`: ".to_owned();
                e.append(print_json(&v).as_str());
                Err(e)
            },
        },
        None => {
            let mut e = "parsing /fork response: ".to_owned();
            e.append(text);
            Err(e)
        },
    }
}

/// What the reply to a request for a fork means: the identifier of the fork.
pub fn fork_reply(url: &str, reply: &ServerReply) -> (r: Result<String, String>)
    ensures
        reply_view(r) == (if is_success(reply.status) {
            fork_id_in(reply.body@, json_in(reply.body@))
        } else {
            Err(failure_text("POST"@, url@, *reply))
        }),
{
    if 200 <= reply.status && reply.status < 300 {
        fork_id(reply.body.as_str(), parse_json(reply.body.as_str()))
    } else {
        Err(failure("POST", url, reply))
    }
}

/// The sessions that a server lists, and what they are busy with, given its word
/// for each.
pub open spec fn busy_sessions(words: Map<Seq<char>, String>) -> Map<Seq<char>, ServerBusyKind> {
    words.map_values(|word: String| busy_kind(word@))
}

/// The sessions that a server lists, and what they are busy with, given its word
/// for each.
pub fn read_busy_sessions(words: &TextMap<String>) -> (r: TextMap<ServerBusyKind>)
    ensures
        r@ == busy_sessions(words@),
{
    let n: usize = words.len();
    let ghost items = words.items();
    let mut map: TextMap<ServerBusyKind> = TextMap::new();
    let mut i: usize = 0;
    while i < n
        invariant
            i <= n,
            n == items.len(),
            items == words.items(),
            keys_differ(items),
            forall|id: Seq<char>| #[trigger]
                map@.dom().contains(id) <==> exists|a: int| 0 <= a < i && (#[trigger] items[a]).0 == id,
            forall|a: int|
                0 <= a < i ==> map@[(#[trigger] items[a]).0] == busy_kind(items[a].1@),
        decreases n - i,
    {
        let word = words.value_at(i).as_str();
        let kind = if str_eq(word, "retry") {
            ServerBusyKind::Retry
        } else if str_eq(word, "fallback") {
            ServerBusyKind::Fallback
        } else {
            ServerBusyKind::Busy
        };
        let id = words.key_at(i).clone();
        let ghost before = map@;
        let ghost key = id@;
        map.insert(id, kind);
        proof {
            assert(items[i as int].0 == key);
            assert forall|x: Seq<char>| #[trigger] map@.dom().contains(x) <==> exists|a: int|
                0 <= a < i + 1 && (#[trigger] items[a]).0 == x by {
                if before.dom().contains(x) {
                    let a = choose|a: int| 0 <= a < i && (#[trigger] items[a]).0 == x;
                    assert(items[a].0 == x);
                }
            }
        }
        i += 1;
    }
    proof {
        let all = busy_sessions(words@);
        assert forall|id: Seq<char>| map@.dom().contains(id) <==> #[trigger] all.dom().contains(
            id,
        ) by {
            if map@.dom().contains(id) {
                let a = choose|a: int| 0 <= a < n && (#[trigger] items[a]).0 == id;
                entry_is_mapped(items, a);
            }
            if words@.dom().contains(id) {
                let a = choose|a: int| 0 <= a < items.len() && (#[trigger] items[a]).0 == id;
                assert(items[a].0 == id);
            }
        }
        assert forall|id: Seq<char>| #[trigger] all.dom().contains(id) implies map@[id]
            == all[id] by {
            let a = choose|a: int| 0 <= a < items.len() && (#[trigger] items[a]).0 == id;
            entry_is_mapped(items, a);
        }
        assert(map@ =~= all);
    }
    map
}

/// What the reply to a request for the busy sessions means. `words` is what its
/// body says, the word for each session; nothing where it could not be read.
pub fn status_reply(url: &str, reply: &ServerReply, words: Option<&TextMap<String>>) -> (r: Result<
    TextMap<ServerBusyKind>,
    String,
>)
    ensures
        match r {
            Ok(map) => {
                &&& is_success(reply.status)
                &&& words matches Some(w)
                &&& map@ == busy_sessions(w@)
            },
            Err(e) => if is_success(reply.status) {
                &&& words is None
                &&& e@ == "Failed to parse "@ + url@ + " response"@
            } else {
                e@ == failure_text("GET"@, url@, *reply)
            },
        },
{
    if 200 <= reply.status && reply.status < 300 {
        match words {
            Some(w) => Ok(read_busy_sessions(w)),
            None => {
                let mut e = "Failed to parse ".to_owned();
                e.append(url);
                e.append(" response");
                Err(e)
            },
        }
    } else {
        Err(failure("GET", url, reply))
    }
}

/// A state of work is shown by its name.
pub proof fn live_names_are_known()
    ensures
        live_name(LiveStatus::Running) == "running"@,
        live_name(LiveStatus::Idle) == "idle"@,
        live_name(LiveStatus::ServerUnreachable) == "server-unreachable"@,
{
}

/// A session that the server lists is at work: trying again or falling back where it says so.
pub proof fn busy_words_are_known(word: Seq<char>)
    ensures
        busy_kind(word) == ServerBusyKind::Retry <==> word == "retry"@,
        busy_kind(word) == ServerBusyKind::Fallback <==> word == "fallback"@,
        busy_kind(word) == ServerBusyKind::Busy <==> word != "retry"@ && word != "fallback"@,
{
    reveal_strlit("retry");
    reveal_strlit("fallback");
    assert("retry"@.len() == 5);
    assert("fallback"@.len() == 8);
}

/// Of three places the first that says anything counts.
pub proof fn the_first_place_counts(
    a: Option<Seq<char>>,
    b: Option<Seq<char>>,
    c: Option<Seq<char>>,
    x: Seq<char>,
)
    ensures
        first_of(Some(x), b, c) == Some(x),
        first_of(None, Some(x), c) == Some(x),
        first_of(None, None, c) == c,
        first_of(a, b, c) is None <==> a is None && b is None && c is None,
{
}

/// An address is used without the strokes at its end and is otherwise as given. Gives how
/// many there were.
pub proof fn addresses_lose_strokes_only(s: Seq<char>) -> (n: int)
    ensures
        0 <= n <= s.len(),
        without_slashes(s) == s.take(s.len() - n),
        forall|i: int| s.len() - n <= i < s.len() ==> #[trigger] s[i] == '/',
        without_slashes(s).len() > 0 ==> without_slashes(s).last() != '/',
    decreases s.len(),
{
    if s.len() > 0 && s.last() == '/' {
        let rest = s.drop_last();
        let n = addresses_lose_strokes_only(rest);
        assert(rest.take(rest.len() - n) =~= s.take(s.len() - (n + 1)));
        assert forall|i: int| s.len() - (n + 1) <= i < s.len() implies #[trigger] s[i] == '/' by {
            if i < rest.len() {
                assert(rest[i] == s[i]);
            }
        }
        n + 1
    } else {
        assert(s.take(s.len() as int) =~= s);
        0
    }
}

/// What is sent to a session is the prompt, as one text, with the agent and the model where
/// they are named.
pub proof fn prompts_are_sent_whole(
    prompt: Seq<char>,
    agent: Option<Seq<char>>,
    model: Option<(Seq<char>, Seq<char>)>,
)
    ensures
        ({
            let body = prompt_body(prompt, agent, model);
            &&& body.get_array("parts"@) is Some
            &&& body.get_array("parts"@)->0.len() == 1
            &&& body.get_array("parts"@)->0[0].get_str("type"@) == Some("text"@)
            &&& body.get_array("parts"@)->0[0].get_str("text"@) == Some(prompt)
            &&& body.get_str("agent"@) == agent
            &&& (model matches Some((provider_id, model_id)) ==> (body.get(
                "model"@,
            ) matches Some(m) && m.get_str("providerID"@) == Some(provider_id) && m.get_str(
                "modelID"@,
            ) == Some(model_id)))
            &&& (model is None ==> body.get("model"@) is None)
        }),
{
    members_of_prompts_differ();
    reveal_with_fuel(member, 4);
    let text = JsonView::Object(seq![text_member("type"@, "text"@), text_member("text"@, prompt)]);
    let members = match prompt_body(prompt, agent, model) {
        JsonView::Object(m) => m,
        _ => Seq::empty(),
    };
    let inner = seq![text_member("type"@, "text"@), text_member("text"@, prompt)];
    assert(inner.skip(1)[0] == text_member("text"@, prompt));
    assert(member(inner, "type"@) == Some(JsonView::Str("text"@)));
    assert(member(inner, "text"@) == Some(JsonView::Str(prompt)));
    assert(members[0] == ("parts"@, JsonView::Array(seq![text])));
    if agent is Some {
        assert(members.skip(1)[0] == text_member("agent"@, agent->0));
        if model is Some {
            assert(members.skip(1).skip(1)[0] == members[2]);
            assert(members[2].0 == "model"@);
            assert(members.skip(1).skip(1).skip(1).len() == 0);
        } else {
            assert(members.skip(1).skip(1).len() == 0);
        }
    } else if model is Some {
        assert(members.skip(1)[0] == members[1]);
        assert(members[1].0 == "model"@);
        assert(members.skip(1).skip(1).len() == 0);
    } else {
        assert(members.skip(1).len() == 0);
    }
    match model {
        Some((provider_id, model_id)) => {
            let names = seq![
                text_member("providerID"@, provider_id),
                text_member("modelID"@, model_id),
            ];
            assert(names.skip(1)[0] == text_member("modelID"@, model_id));
            assert(member(names, "providerID"@) == Some(JsonView::Str(provider_id)));
            assert(member(names, "modelID"@) == Some(JsonView::Str(model_id)));
        },
        None => {},
    }
}

/// A session is addressed by its identifier and by what is to be done with it.
pub proof fn sessions_are_addressed_by_identifier(
    base: Seq<char>,
    session_id: Seq<char>,
    verb: Seq<char>,
)
    ensures
        has_prefix(session_url(base, session_id, verb), base + "/session/"@ + session_id),
        has_suffix(session_url(base, session_id, verb), "/"@ + verb),
        session_url(base, session_id, verb).len() == base.len() + 9 + session_id.len() + 1
            + verb.len(),
{
    reveal_strlit("/session/");
    reveal_strlit("/");
    let url = session_url(base, session_id, verb);
    let front = base + "/session/"@ + session_id;
    let end = "/"@ + verb;
    assert(url.subrange(0, front.len() as int) =~= front);
    assert(url.subrange(url.len() - end.len(), url.len() as int) =~= end);
}

/// A fork is named by the reply; a reply that names none is refused.
pub proof fn forks_are_named_by_the_reply(text: Seq<char>, v: JsonView)
    ensures
        fork_id_in(text, Some(v)) is Ok <==> v.get_str("id"@) is Some,
        fork_id_in(text, Some(v)) matches Ok(id) ==> v.get_str("id"@) == Some(id),
        fork_id_in(text, None) is Err,
{
}

/// What the server lists as at work is what its words say, session by session.
pub proof fn every_listed_session_is_at_work(words: Map<Seq<char>, String>, id: Seq<char>)
    ensures
        busy_sessions(words).dom().contains(id) <==> words.dom().contains(id),
        words.dom().contains(id) ==> busy_sessions(words)[id] == busy_kind(words[id]@),
{
}

proof fn members_of_prompts_differ()
    ensures
        "parts"@ != "agent"@,
        "parts"@ != "model"@,
        "parts"@ != "type"@,
        "parts"@ != "text"@,
        "parts"@ != "providerID"@,
        "parts"@ != "modelID"@,
        "agent"@ != "model"@,
        "agent"@ != "type"@,
        "agent"@ != "text"@,
        "agent"@ != "providerID"@,
        "agent"@ != "modelID"@,
        "model"@ != "type"@,
        "model"@ != "text"@,
        "model"@ != "providerID"@,
        "model"@ != "modelID"@,
        "type"@ != "text"@,
        "type"@ != "providerID"@,
        "type"@ != "modelID"@,
        "text"@ != "providerID"@,
        "text"@ != "modelID"@,
        "providerID"@ != "modelID"@,
{
    reveal_strlit("parts");
    reveal_strlit("agent");
    reveal_strlit("model");
    reveal_strlit("type");
    reveal_strlit("text");
    reveal_strlit("providerID");
    reveal_strlit("modelID");
    assert("parts"@.len() == 5);
    assert("agent"@.len() == 5);
    assert("model"@.len() == 5);
    assert("type"@.len() == 4);
    assert("text"@.len() == 4);
    assert("providerID"@.len() == 10);
    assert("modelID"@.len() == 7);
    assert("parts"@[0] != "agent"@[0]);
    assert("parts"@[0] != "model"@[0]);
    assert("agent"@[0] != "model"@[0]);
    assert("type"@[1] != "text"@[1]);
}

/// A reply is a success where its code is of the two hundreds, and a failure says what was
/// asked, of whom, and what came back.
pub proof fn failures_say_what_was_asked(method: Seq<char>, url: Seq<char>, reply: ServerReply)
    ensures
        is_success(reply.status) <==> reply.status / 100 == 2,
        has_prefix(failure_text(method, url, reply), method + seq![' '] + url),
        has_suffix(failure_text(method, url, reply), trimmed(reply.body@)),
        contains_text(failure_text(method, url, reply), reply.status_text@),
{
    reveal_strlit(" ");
    assert(" "@ =~= seq![' ']);
    let text = failure_text(method, url, reply);
    let front = method + seq![' '] + url;
    let tail = trimmed(reply.body@);
    let n = (front + " failed: "@).len() as int;
    assert(text.subrange(0, front.len() as int) =~= front);
    assert(text.subrange(text.len() - tail.len(), text.len() as int) =~= tail);
    assert(text.subrange(n, n + reply.status_text@.len()) =~= reply.status_text@);
    assert(occurs_at(text, reply.status_text@, n));
}

} // verus!
