//! Which model of which service worked in a session.

use crate::json::{Json, JsonView};
use crate::opencode::info::either;
use crate::opencode::parts::is_kind;
use crate::pi::jsonl::{entries_in, entry_time, entry_timestamp, parse_entries};
use crate::pi::session::{messages_in, messages_of};
use crate::provider::{Message, MessageView, ModelAttribution, Provider};
use crate::text::{contains_text, lines, lines_of, occurs_at, str_eq};
use crate::time::{Timestamp, rfc3339_instant};
use vstd::prelude::*;

verus! {

/// A change of the model.
#[derive(Clone, Debug)]
pub struct ModelChange {
    pub timestamp: Timestamp,
    pub provider: Option<String>,
    pub model: Option<String>,
}

/// The content of a change of the model.
pub ghost struct ChangeView {
    pub timestamp: Timestamp,
    pub provider: Option<Seq<char>>,
    pub model: Option<Seq<char>>,
}

impl View for ModelChange {
    type V = ChangeView;

    open spec fn view(&self) -> ChangeView {
        ChangeView {
            timestamp: self.timestamp,
            provider: self.provider.deep_view(),
            model: self.model.deep_view(),
        }
    }
}

impl DeepView for ModelChange {
    type V = ChangeView;

    open spec fn deep_view(&self) -> ChangeView {
        self.view()
    }
}

/// The change of the model that an entry records.
pub open spec fn change_in(entry: JsonView) -> Option<ChangeView> {
    match entry_time(entry) {
        Some(timestamp) => if entry.get_str("type"@) == Some("model_change"@) {
            Some(
                ChangeView {
                    timestamp,
                    provider: entry.get_str("provider"@),
                    model: either(entry.get_str("modelId"@), entry.get_str("modelID"@)),
                },
            )
        } else {
            None
        },
        None => None,
    }
}

/// The changes of the model that entries record, in order.
pub open spec fn changes_in(entries: Seq<JsonView>) -> Seq<ChangeView>
    decreases entries.len(),
{
    if entries.len() == 0 {
        Seq::empty()
    } else {
        match change_in(entries.last()) {
            Some(c) => changes_in(entries.drop_last()).push(c),
            None => changes_in(entries.drop_last()),
        }
    }
}

fn change_of_entry(entry: &Json) -> (r: Option<ModelChange>)
    ensures
        r.deep_view() == change_in(entry@),
{
    if !is_kind(entry, "model_change") {
        return None;
    }
    match entry_timestamp(entry) {
        Some(timestamp) => {
            let provider = match entry.get_str("provider") {
                Some(p) => Some(p.to_string()),
                None => None,
            };
            let model = match (entry.get_str("modelId"), entry.get_str("modelID")) {
                (Some(m), _) => Some(m.to_string()),
                (None, Some(m)) => Some(m.to_string()),
                (None, None) => None,
            };
            Some(ModelChange { timestamp, provider, model })
        },
        None => None,
    }
}

/// The changes of the model that entries record, in order.
pub fn parse_model_changes(entries: &Vec<Json>) -> (r: Vec<ModelChange>)
    ensures
        r.deep_view() == changes_in(entries.deep_view()),
{
    let ghost all = entries.deep_view();
    let mut out: Vec<ModelChange> = Vec::new();
    let mut i: usize = 0;
    assert(all.take(0) =~= Seq::<JsonView>::empty());
    assert(out.deep_view() =~= Seq::<ChangeView>::empty());
    while i < entries.len()
        invariant
            i <= entries.len(),
            all == entries.deep_view(),
            out.deep_view() == changes_in(all.take(i as int)),
        decreases entries.len() - i,
    {
        assert(all.take(i + 1).drop_last() =~= all.take(i as int));
        assert(all.take(i + 1).last() == entries@[i as int]@);
        let ghost before = out.deep_view();
        match change_of_entry(&entries[i]) {
            Some(c) => {
                let ghost view = c@;
                out.push(c);
                assert(out.deep_view() =~= before.push(view));
            },
            None => {},
        }
        i += 1;
    }
    assert(all.take(i as int) =~= all);
    out
}

/// The last answer.
pub open spec fn last_assistant(messages: Seq<MessageView>) -> Option<MessageView>
    decreases messages.len(),
{
    if messages.len() == 0 {
        None
    } else if messages.last().role == "assistant"@ {
        Some(messages.last())
    } else {
        last_assistant(messages.drop_last())
    }
}

fn find_last_assistant(messages: &Vec<Message>) -> (r: Option<&Message>)
    ensures
        r.deep_view() == last_assistant(messages.deep_view()),
{
    let ghost all = messages.deep_view();
    let mut i: usize = messages.len();
    assert(all.take(i as int) =~= all);
    while i > 0
        invariant
            i <= messages.len(),
            all == messages.deep_view(),
            last_assistant(all) == last_assistant(all.take(i as int)),
        decreases i,
    {
        i -= 1;
        assert(all.take(i + 1).drop_last() =~= all.take(i as int));
        assert(all.take(i + 1).last() == messages@[i as int]@);
        if str_eq(messages[i].role.as_str(), "assistant") {
            return Some(&messages[i]);
        }
    }
    None
}

/// The last change of the model that is no later than an instant.
pub open spec fn change_before(changes: Seq<ChangeView>, at: Timestamp) -> Option<ChangeView>
    decreases changes.len(),
{
    if changes.len() == 0 {
        None
    } else if changes.last().timestamp.spec_le(at) {
        Some(changes.last())
    } else {
        change_before(changes.drop_last(), at)
    }
}

fn find_change_before(changes: &Vec<ModelChange>, at: Timestamp) -> (r: Option<&ModelChange>)
    ensures
        r.deep_view() == change_before(changes.deep_view(), at),
{
    let ghost all = changes.deep_view();
    let mut i: usize = changes.len();
    assert(all.take(i as int) =~= all);
    while i > 0
        invariant
            i <= changes.len(),
            all == changes.deep_view(),
            change_before(all, at) == change_before(all.take(i as int), at),
        decreases i,
    {
        i -= 1;
        assert(all.take(i + 1).drop_last() =~= all.take(i as int));
        assert(all.take(i + 1).last() == changes@[i as int]@);
        if changes[i].timestamp.le(at) {
            return Some(&changes[i]);
        }
    }
    None
}

/// A text in quotes, as `Debug` writes it.
pub uninterp spec fn debug_quoted(s: Seq<char>) -> Seq<char>;

/// `Debug` of `str` writes a text in quotes, with what cannot stand there
/// escaped. What it writes depends on the text alone.
#[verifier::external_body]
fn debug_text(s: &str) -> (r: String)
    ensures
        r@ == debug_quoted(s@),
{
    format!("{:?}", s)
}

/// What the records of a session say of the model: the last answer where it says
/// it, else the last change of the model before it.
pub ghost struct Recorded {
    pub message: MessageView,
    pub model: Option<Seq<char>>,
    pub provider: Option<Seq<char>>,
}

/// What the records of a session say of the model.
pub open spec fn recorded(messages: Seq<MessageView>, changes: Seq<ChangeView>) -> Option<Recorded> {
    match last_assistant(messages) {
        Some(m) => {
            let change = change_before(changes, m.timestamp);
            Some(
                Recorded {
                    message: m,
                    model: either(
                        m.model,
                        match change {
                            Some(c) => c.model,
                            None => None,
                        },
                    ),
                    provider: either(
                        m.provider_id,
                        match change {
                            Some(c) => c.provider,
                            None => None,
                        },
                    ),
                },
            )
        },
        None => None,
    }
}

/// Whether a service may be concluded from a model so.
pub open spec fn may_infer<I: Fn(&str) -> Option<String>>(
    infer: I,
    model: Seq<char>,
    reply: Option<Seq<char>>,
) -> bool {
    exists|m: &str, r: Option<String>| #[trigger]
        call_ensures(infer, (m,), r) && m@ == model && r.deep_view() == reply
}

/// Whether a service may have a brand or not.
pub open spec fn may_brand<B: Fn(&str) -> bool>(has_brand: B, provider: Seq<char>, reply: bool) -> bool {
    exists|p: &str| #[trigger] call_ensures(has_brand, (p,), reply) && p@ == provider
}

/// Whether this is the attribution of a session.
pub open spec fn is_attribution(
    attribution: ModelAttribution,
    record: Recorded,
    provider: Seq<char>,
    inferred: bool,
) -> bool {
    &&& attribution.harness == Provider::Pi
    &&& attribution.llm_provider.deep_view() == Some(provider)
    &&& attribution.llm_provider_inferred == inferred
    &&& Some(attribution.model_id@) == record.model
    &&& attribution.access_surface@ == "Pi"@
    &&& attribution.agent.deep_view() == record.message.agent
    &&& attribution.mode.deep_view() == record.message.mode
    &&& attribution.variant is None
}

/// Why a session without an answer has no attribution.
pub open spec fn no_answer(session_id: Seq<char>) -> Seq<char> {
    "no assistant message found in Pi session "@ + session_id
        + " \u{2014} cannot resolve attribution"@
}

/// Why a session whose model is not known has no attribution.
pub open spec fn no_model(session_id: Seq<char>) -> Seq<char> {
    "Pi session "@ + session_id
        + " has no model id on the last assistant message nor in any prior model_change event"@
}

/// Why a session whose service has no brand has no attribution.
pub open spec fn no_brand(session_id: Seq<char>, provider: Seq<char>) -> Seq<char> {
    "Pi session "@ + session_id + " resolved llm_provider "@ + debug_quoted(provider)
        + " which has no brand mapping; teach `provider::brand_for_llm_provider` if this is a real provider"@
}

/// Why a session whose service is not known has no attribution.
pub open spec fn no_provider(session_id: Seq<char>, model: Seq<char>) -> Seq<char> {
    "Pi session "@ + session_id + " has model="@ + debug_quoted(model)
        + " but no provider field on the assistant message, no prior model_change event, and no inferable family \u{2014} cannot build a kernel-canonical Assisted-by trailer"@
}

/// Whether an attribution came of the records of a session: the service is the
/// one recorded, else the one concluded from the model. Nothing is made up.
pub open spec fn attribution_follows<I: Fn(&str) -> Option<String>, B: Fn(&str) -> bool>(
    record: Option<Recorded>,
    session_id: Seq<char>,
    doors: (I, B),
    concluded: Option<Seq<char>>,
    branded: bool,
    r: Result<ModelAttribution, String>,
) -> bool {
    match record {
        None => r matches Err(e) && e@ == no_answer(session_id),
        Some(record) => match record.model {
            None => r matches Err(e) && e@ == no_model(session_id),
            Some(model) => {
                &&& record.provider is None ==> may_infer(doors.0, model, concluded)
                &&& match either(record.provider, concluded) {
                    None => r matches Err(e) && e@ == no_provider(session_id, model),
                    Some(provider) => {
                        &&& may_brand(doors.1, provider, branded)
                        &&& if branded {
                            r matches Ok(attribution) && is_attribution(
                                attribution,
                                record,
                                provider,
                                record.provider is None,
                            )
                        } else {
                            r matches Err(e) && e@ == no_brand(session_id, provider)
                        }
                    },
                }
            },
        },
    }
}

fn one_of(a: &Option<String>, b: Option<&Option<String>>) -> (r: Option<String>)
    ensures
        r.deep_view() == either(
            a.deep_view(),
            match b {
                Some(o) => o.deep_view(),
                None => None,
            },
        ),
{
    match a {
        Some(s) => Some(s.clone()),
        None => match b {
            Some(o) => match o {
                Some(s) => Some(s.clone()),
                None => None,
            },
            None => None,
        },
    }
}

fn opt_clone(s: &Option<String>) -> (r: Option<String>)
    ensures
        r.deep_view() == s.deep_view(),
{
    match s {
        Some(t) => Some(t.clone()),
        None => None,
    }
}

/// Which model of which service gave the last answer of a session. `infer`
/// concludes a service from the name of a model, and `has_brand` tells whether a
/// service has a brand.
pub fn resolve_attribution<I: Fn(&str) -> Option<String>, B: Fn(&str) -> bool>(
    messages: &Vec<Message>,
    changes: &Vec<ModelChange>,
    session_id: &str,
    infer: I,
    has_brand: B,
) -> (r: Result<ModelAttribution, String>)
    requires
        forall|m: &str| call_requires(infer, (m,)),
        forall|p: &str| call_requires(has_brand, (p,)),
    ensures
        exists|concluded: Option<Seq<char>>, branded: bool| #[trigger]
            attribution_follows(
                recorded(messages.deep_view(), changes.deep_view()),
                session_id@,
                (infer, has_brand),
                concluded,
                branded,
                r,
            ),
{
    let ghost record = recorded(messages.deep_view(), changes.deep_view());
    let ghost doors = (infer, has_brand);
    let last = match find_last_assistant(messages) {
        Some(m) => m,
        None => {
            let mut e = "no assistant message found in Pi session ".to_string();
            e.append(session_id);
            e.append(" \u{2014} cannot resolve attribution");
            let r: Result<ModelAttribution, String> = Err(e);
            assert(attribution_follows(record, session_id@, doors, None, false, r));
            return r;
        },
    };
    let change = find_change_before(changes, last.timestamp);
    let (change_model, change_provider) = match change {
        Some(c) => (Some(&c.model), Some(&c.provider)),
        None => (None, None),
    };
    let model = match one_of(&last.model, change_model) {
        Some(m) => m,
        None => {
            let mut e = "Pi session ".to_string();
            e.append(session_id);
            e.append(
                " has no model id on the last assistant message nor in any prior model_change event",
            );
            let r: Result<ModelAttribution, String> = Err(e);
            assert(attribution_follows(record, session_id@, doors, None, false, r));
            return r;
        },
    };
    let known = one_of(&last.provider_id, change_provider);
    let inferred = known.is_none();
    let ghost mut concluded: Option<Seq<char>> = None;
    let provider = match known {
        Some(p) => Some(p),
        None => {
            let reply = infer(model.as_str());
            proof {
                concluded = reply.deep_view();
                assert(may_infer(infer, model@, concluded));
            }
            reply
        },
    };
    let provider = match provider {
        Some(p) => p,
        None => {
            let mut e = "Pi session ".to_string();
            e.append(session_id);
            e.append(" has model=");
            e.append(debug_text(model.as_str()).as_str());
            e.append(
                " but no provider field on the assistant message, no prior model_change event, and no inferable family \u{2014} cannot build a kernel-canonical Assisted-by trailer",
            );
            let r: Result<ModelAttribution, String> = Err(e);
            assert(attribution_follows(record, session_id@, doors, concluded, false, r));
            return r;
        },
    };
    let branded = has_brand(provider.as_str());
    assert(may_brand(has_brand, provider@, branded));
    if !branded {
        let mut e = "Pi session ".to_string();
        e.append(session_id);
        e.append(" resolved llm_provider ");
        e.append(debug_text(provider.as_str()).as_str());
        e.append(
            " which has no brand mapping; teach `provider::brand_for_llm_provider` if this is a real provider",
        );
        let r: Result<ModelAttribution, String> = Err(e);
        assert(attribution_follows(record, session_id@, doors, concluded, branded, r));
        return r;
    }
    let attribution = ModelAttribution {
        harness: Provider::Pi,
        llm_provider: Some(provider),
        llm_provider_inferred: inferred,
        model_id: model,
        access_surface: "Pi".to_string(),
        agent: opt_clone(&last.agent),
        mode: opt_clone(&last.mode),
        variant: None,
    };
    let r: Result<ModelAttribution, String> = Ok(attribution);
    assert(attribution_follows(record, session_id@, doors, concluded, branded, r));
    r
}

/// Which model of which service gave the last answer in a session file.
pub fn resolve_attribution_from_jsonl<I: Fn(&str) -> Option<String>, B: Fn(&str) -> bool>(
    content: &str,
    session_id: &str,
    infer: I,
    has_brand: B,
) -> (r: Result<ModelAttribution, String>)
    requires
        forall|m: &str| call_requires(infer, (m,)),
        forall|p: &str| call_requires(has_brand, (p,)),
    ensures
        exists|concluded: Option<Seq<char>>, branded: bool| #[trigger]
            attribution_follows(
                recorded(
                    messages_in(entries_in(lines_of(content@)), session_id@),
                    changes_in(entries_in(lines_of(content@))),
                ),
                session_id@,
                (infer, has_brand),
                concluded,
                branded,
                r,
            ),
{
    let entries = parse_entries(&lines(content));
    let messages = messages_of(&entries, session_id);
    let changes = parse_model_changes(&entries);
    resolve_attribution(&messages, &changes, session_id, infer, has_brand)
}

/// The service of an attribution is recorded or concluded, and has a brand.
pub proof fn attributions_are_not_made_up<I: Fn(&str) -> Option<String>, B: Fn(&str) -> bool>(
    record: Option<Recorded>,
    session_id: Seq<char>,
    doors: (I, B),
    concluded: Option<Seq<char>>,
    branded: bool,
    r: Result<ModelAttribution, String>,
)
    requires
        attribution_follows(record, session_id, doors, concluded, branded, r),
        r is Ok,
    ensures
        record is Some,
        r->Ok_0.llm_provider is Some,
        r->Ok_0.llm_provider.deep_view() == (if r->Ok_0.llm_provider_inferred {
            concluded
        } else {
            record->0.provider
        }),
        branded,
{
}

/// The answer that an attribution is taken from is the last: an answer, with no answer
/// behind it. Gives where it stands.
pub proof fn the_last_answer_counts(messages: Seq<MessageView>) -> (i: int)
    ensures
        match last_assistant(messages) {
            Some(m) => 0 <= i < messages.len() && messages[i] == m && m.role == "assistant"@
                && forall|j: int|
                i < j < messages.len() ==> (#[trigger] messages[j]).role != "assistant"@,
            None => forall|j: int|
                0 <= j < messages.len() ==> (#[trigger] messages[j]).role != "assistant"@,
        },
    decreases messages.len(),
{
    if messages.len() == 0 {
        0
    } else if messages.last().role == "assistant"@ {
        messages.len() - 1
    } else {
        let rest = messages.drop_last();
        let i = the_last_answer_counts(rest);
        assert forall|j: int|
            0 <= j < messages.len() && (last_assistant(messages) is Some ==> i < j) implies (
        #[trigger] messages[j]).role != "assistant"@ by {
            if j < rest.len() {
                assert(rest[j] == messages[j]);
            }
        }
        i
    }
}

/// One more answer that names its service and its model is what the session is then
/// attributed to, whatever was answered before.
pub proof fn a_new_answer_takes_over(
    messages: Seq<MessageView>,
    changes: Seq<ChangeView>,
    answer: MessageView,
)
    requires
        answer.role == "assistant"@,
        answer.model is Some,
        answer.provider_id is Some,
    ensures
        recorded(messages.push(answer), changes) is Some,
        recorded(messages.push(answer), changes)->0.message == answer,
        recorded(messages.push(answer), changes)->0.model == answer.model,
        recorded(messages.push(answer), changes)->0.provider == answer.provider_id,
{
    let all = messages.push(answer);
    let i = the_last_answer_counts(all);
    assert(all[all.len() - 1] == answer);
}

/// What is not an answer does not change what a session is attributed to.
pub proof fn questions_change_no_attribution(
    messages: Seq<MessageView>,
    changes: Seq<ChangeView>,
    question: MessageView,
)
    requires
        question.role != "assistant"@,
    ensures
        recorded(messages.push(question), changes) == recorded(messages, changes),
{
    assert(messages.push(question).drop_last() =~= messages);
}

/// The change of the model that fills the gaps of an answer is the last that was not
/// later than it. Gives where it stands.
pub proof fn the_last_earlier_change_counts(changes: Seq<ChangeView>, at: Timestamp) -> (i: int)
    ensures
        match change_before(changes, at) {
            Some(c) => 0 <= i < changes.len() && changes[i] == c && c.timestamp.spec_le(at)
                && forall|j: int|
                i < j < changes.len() ==> !(#[trigger] changes[j]).timestamp.spec_le(at),
            None => forall|j: int|
                0 <= j < changes.len() ==> !(#[trigger] changes[j]).timestamp.spec_le(at),
        },
    decreases changes.len(),
{
    if changes.len() == 0 {
        0
    } else if changes.last().timestamp.spec_le(at) {
        changes.len() - 1
    } else {
        let rest = changes.drop_last();
        let i = the_last_earlier_change_counts(rest, at);
        assert forall|j: int|
            0 <= j < changes.len() && (change_before(changes, at) is Some ==> i < j) implies !(
        #[trigger] changes[j]).timestamp.spec_le(at) by {
            if j < rest.len() {
                assert(rest[j] == changes[j]);
            }
        }
        i
    }
}

/// What an answer does not say of its model and its service, the change of the model
/// before it says; what it does say, no change overrides.
pub proof fn changes_fill_gaps_only(messages: Seq<MessageView>, changes: Seq<ChangeView>)
    ensures
        recorded(messages, changes) is Some <==> exists|i: int|
            0 <= i < messages.len() && (#[trigger] messages[i]).role == "assistant"@,
        recorded(messages, changes) matches Some(record) ==> {
            let m = record.message;
            let change = change_before(changes, m.timestamp);
            &&& messages.contains(m)
            &&& m.role == "assistant"@
            &&& m.model is Some ==> record.model == m.model
            &&& m.provider_id is Some ==> record.provider == m.provider_id
            &&& m.model is None && change is Some ==> record.model == change->0.model
            &&& m.provider_id is None && change is Some ==> record.provider == change->0.provider
            &&& m.model is None && change is None ==> record.model is None
            &&& m.provider_id is None && change is None ==> record.provider is None
        },
{
    let i = the_last_answer_counts(messages);
    if recorded(messages, changes) is Some {
        assert(messages[i].role == "assistant"@);
        assert(messages.contains(messages[i]));
    }
}

/// A change of the model is told by an entry of that type with a time; it names the
/// service and the model.
pub proof fn changes_are_told_by_their_entries(entry: JsonView)
    ensures
        change_in(entry) is Some <==> entry.get_str("type"@) == Some("model_change"@) && (
        entry.get_str("timestamp"@) matches Some(t) && rfc3339_instant(t) is Some),
        change_in(entry) matches Some(c) ==> {
            &&& Some(c.timestamp) == rfc3339_instant(entry.get_str("timestamp"@)->0)
            &&& c.provider == entry.get_str("provider"@)
            &&& entry.get_str("modelId"@) is Some ==> c.model == entry.get_str("modelId"@)
            &&& entry.get_str("modelId"@) is None ==> c.model == entry.get_str("modelID"@)
        },
{
}

/// An attribution names what was recorded: the model and the service of the answer, with
/// its agent and mode, and Pi as the way to it.
pub proof fn attributions_name_what_was_recorded<
    I: Fn(&str) -> Option<String>,
    B: Fn(&str) -> bool,
>(
    record: Option<Recorded>,
    session_id: Seq<char>,
    doors: (I, B),
    concluded: Option<Seq<char>>,
    branded: bool,
    r: Result<ModelAttribution, String>,
)
    requires
        attribution_follows(record, session_id, doors, concluded, branded, r),
    ensures
        r matches Ok(named) ==> {
            &&& record is Some
            &&& record->0.model == Some(named.model_id@)
            &&& named.harness == Provider::Pi
            &&& named.access_surface@ == "Pi"@
            &&& named.variant is None
            &&& named.agent.deep_view() == record->0.message.agent
            &&& named.mode.deep_view() == record->0.message.mode
            &&& record->0.provider is Some ==> named.llm_provider.deep_view()
                == record->0.provider && !named.llm_provider_inferred
            &&& record->0.provider is None ==> named.llm_provider.deep_view() == concluded
                && named.llm_provider_inferred && may_infer(
                doors.0,
                named.model_id@,
                concluded,
            )
            &&& named.llm_provider is Some && may_brand(
                doors.1,
                named.llm_provider->0@,
                true,
            )
        },
        record is None || record->0.model is None || (record->0.provider is None && concluded
            is None) ==> r is Err,
{
}

/// A session whose last answer names its service and its model is attributed to these, if
/// it is attributed at all.
pub proof fn the_newest_answer_is_attributed<I: Fn(&str) -> Option<String>, B: Fn(&str) -> bool>(
    messages: Seq<MessageView>,
    changes: Seq<ChangeView>,
    answer: MessageView,
    session_id: Seq<char>,
    doors: (I, B),
    concluded: Option<Seq<char>>,
    branded: bool,
    r: Result<ModelAttribution, String>,
)
    requires
        answer.role == "assistant"@,
        answer.model is Some,
        answer.provider_id is Some,
        attribution_follows(
            recorded(messages.push(answer), changes),
            session_id,
            doors,
            concluded,
            branded,
            r,
        ),
    ensures
        r matches Ok(named) ==> named.model_id@ == answer.model->0 && named.llm_provider is Some
            && named.llm_provider->0@ == answer.provider_id->0 && !named.llm_provider_inferred,
        r is Ok <==> branded,
        may_brand(doors.1, answer.provider_id->0, branded),
{
    a_new_answer_takes_over(messages, changes, answer);
}

/// The changes of a session's model are those that its entries tell, in their order.
pub proof fn changes_are_told_in_order(entries: Seq<JsonView>, entry: JsonView)
    ensures
        change_in(entry) matches Some(c) ==> changes_in(entries.push(entry)) == changes_in(
            entries,
        ).push(c),
        change_in(entry) is None ==> changes_in(entries.push(entry)) == changes_in(entries),
{
    assert(entries.push(entry).drop_last() =~= entries);
}

/// A refusal names the session.
pub proof fn refusals_name_the_session(
    session_id: Seq<char>,
    provider: Seq<char>,
    model: Seq<char>,
)
    ensures
        contains_text(no_answer(session_id), session_id),
        contains_text(no_model(session_id), session_id),
        contains_text(no_brand(session_id, provider), session_id),
        contains_text(no_provider(session_id, model), session_id),
{
    let n = "no assistant message found in Pi session "@.len() as int;
    let k = "Pi session "@.len() as int;
    let l = session_id.len() as int;
    assert(no_answer(session_id).subrange(n, n + l) =~= session_id);
    assert(occurs_at(no_answer(session_id), session_id, n));
    assert(no_model(session_id).subrange(k, k + l) =~= session_id);
    assert(occurs_at(no_model(session_id), session_id, k));
    assert(no_brand(session_id, provider).subrange(k, k + l) =~= session_id);
    assert(occurs_at(no_brand(session_id, provider), session_id, k));
    assert(no_provider(session_id, model).subrange(k, k + l) =~= session_id);
    assert(occurs_at(no_provider(session_id, model), session_id, k));
}

/// The service is concluded from the model of the session and no other: where the outside
/// always concludes the same from that model, that is concluded, and likewise for the brand.
pub proof fn conclusions_are_from_the_model<I: Fn(&str) -> Option<String>, B: Fn(&str) -> bool>(
    doors: (I, B),
    model: Seq<char>,
    reply: Option<Seq<char>>,
    service: Option<Seq<char>>,
    branded: bool,
    known: bool,
)
    requires
        forall|m: &str, r: Option<String>| #[trigger]
            call_ensures(doors.0, (m,), r) && m@ == model ==> r.deep_view() == service,
        forall|p: &str, r: bool| #[trigger]
            call_ensures(doors.1, (p,), r) && p@ == model ==> r == known,
    ensures
        may_infer(doors.0, model, reply) ==> reply == service,
        may_brand(doors.1, model, branded) ==> branded == known,
{
}

} // verus!
