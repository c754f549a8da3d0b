//! Who a session belongs to, and what is known of a session whoever it belongs to.

use crate::text::{has_prefix, starts_with};
use crate::time::Timestamp;
use vstd::prelude::*;

verus! {

/// The coding agents whose sessions can be audited.
#[derive(Clone, Copy, PartialEq, Eq, Structural, Hash, Debug)]
pub enum Provider {
    ClaudeCode,
    OpenCode,
    Pi,
}

/// The name of a provider in options and reports.
pub open spec fn provider_name(p: Provider) -> Seq<char> {
    match p {
        Provider::ClaudeCode => "claudecode"@,
        Provider::OpenCode => "opencode"@,
        Provider::Pi => "pi"@,
    }
}

/// The name of a provider in diagnostics.
pub open spec fn provider_label(p: Provider) -> Seq<char> {
    match p {
        Provider::ClaudeCode => "ClaudeCode"@,
        Provider::OpenCode => "OpenCode"@,
        Provider::Pi => "Pi"@,
    }
}

impl Provider {
    /// The name of the provider in options and reports.
    pub fn as_str(&self) -> (r: &'static str)
        ensures
            r@ == provider_name(*self),
    {
        match self {
            Provider::ClaudeCode => "claudecode",
            Provider::OpenCode => "opencode",
            Provider::Pi => "pi",
        }
    }

    /// The name of the provider in diagnostics.
    pub fn label(&self) -> (r: &'static str)
        ensures
            r@ == provider_label(*self),
    {
        match self {
            Provider::ClaudeCode => "ClaudeCode",
            Provider::OpenCode => "OpenCode",
            Provider::Pi => "Pi",
        }
    }
}

/// Names tell providers apart.
pub proof fn provider_names_are_distinct(a: Provider, b: Provider)
    ensures
        provider_name(a) == provider_name(b) <==> a == b,
{
    reveal_strlit("claudecode");
    reveal_strlit("opencode");
    reveal_strlit("pi");
    assert(provider_name(Provider::ClaudeCode).len() == 10);
    assert(provider_name(Provider::OpenCode).len() == 8);
    assert(provider_name(Provider::Pi).len() == 2);
}

/// The provider that a session belongs to, by the form of its identifier.
pub fn detect_provider(session_id: &str) -> (r: Provider)
    ensures
        r == (if has_prefix(session_id@, "ses_"@) {
            Provider::OpenCode
        } else {
            Provider::ClaudeCode
        }),
{
    if starts_with(session_id, "ses_") {
        Provider::OpenCode
    } else {
        Provider::ClaudeCode
    }
}

/// What is known of a session, whichever provider it belongs to.
#[derive(Clone, Debug)]
pub struct Session {
    pub session_id: String,
    pub provider: Provider,
    pub started_at: Timestamp,
    pub updated_at: Timestamp,
    pub project_dir: String,
    pub title: String,
    /// The session that started this one, for the session of a sub-agent.
    pub parent_id: Option<String>,
}

/// The tokens that an answer used.
#[derive(Clone, Copy, PartialEq, Eq, Structural, Debug)]
pub struct TokenUsage {
    pub input: u64,
    pub output: u64,
    pub cache_read: u64,
    pub cache_write: u64,
    pub cache_creation: u64,
    pub reasoning: u64,
}

/// A message of a session, whichever provider it belongs to.
#[derive(Clone, Debug)]
pub struct Message {
    pub message_id: String,
    pub session_id: String,
    pub provider: Provider,
    pub role: String,
    /// The model that answered.
    pub model: Option<String>,
    /// The service that the model belongs to.
    pub provider_id: Option<String>,
    pub agent: Option<String>,
    pub mode: Option<String>,
    pub timestamp: Timestamp,
    /// The tokens of an answer.
    pub tokens: Option<TokenUsage>,
}

/// The content of a message.
pub ghost struct MessageView {
    pub message_id: Seq<char>,
    pub session_id: Seq<char>,
    pub provider: Provider,
    pub role: Seq<char>,
    pub model: Option<Seq<char>>,
    pub provider_id: Option<Seq<char>>,
    pub agent: Option<Seq<char>>,
    pub mode: Option<Seq<char>>,
    pub timestamp: Timestamp,
    pub tokens: Option<TokenUsage>,
}

impl View for Message {
    type V = MessageView;

    open spec fn view(&self) -> MessageView {
        MessageView {
            message_id: self.message_id@,
            session_id: self.session_id@,
            provider: self.provider,
            role: self.role@,
            model: self.model.deep_view(),
            provider_id: self.provider_id.deep_view(),
            agent: self.agent.deep_view(),
            mode: self.mode.deep_view(),
            timestamp: self.timestamp,
            tokens: self.tokens,
        }
    }
}

impl DeepView for Message {
    type V = MessageView;

    open spec fn deep_view(&self) -> MessageView {
        self.view()
    }
}

/// Which model of which service worked in a session.
#[derive(Clone, Debug)]
pub struct ModelAttribution {
    pub harness: Provider,
    pub llm_provider: Option<String>,
    /// Whether the service was concluded from the name of the model.
    pub llm_provider_inferred: bool,
    pub model_id: String,
    pub access_surface: String,
    pub agent: Option<String>,
    pub mode: Option<String>,
    pub variant: Option<String>,
}

proof fn first_letters_differ()
    ensures
        "claudecode"@ != "opencode"@,
        "claudecode"@ != "pi"@,
        "claudecode"@ != "ClaudeCode"@,
        "claudecode"@ != "OpenCode"@,
        "claudecode"@ != "Pi"@,
        "opencode"@ != "pi"@,
        "opencode"@ != "ClaudeCode"@,
        "opencode"@ != "OpenCode"@,
        "opencode"@ != "Pi"@,
        "pi"@ != "ClaudeCode"@,
        "pi"@ != "OpenCode"@,
        "pi"@ != "Pi"@,
        "ClaudeCode"@ != "OpenCode"@,
        "ClaudeCode"@ != "Pi"@,
        "OpenCode"@ != "Pi"@,
{
    reveal_strlit("claudecode");
    reveal_strlit("opencode");
    reveal_strlit("pi");
    reveal_strlit("ClaudeCode");
    reveal_strlit("OpenCode");
    reveal_strlit("Pi");
    assert("claudecode"@.len() == 10);
    assert("opencode"@.len() == 8);
    assert("pi"@.len() == 2);
    assert("ClaudeCode"@.len() == 10);
    assert("OpenCode"@.len() == 8);
    assert("Pi"@.len() == 2);
    assert("claudecode"@[0] != "ClaudeCode"@[0]);
    assert("opencode"@[0] != "OpenCode"@[0]);
    assert("pi"@[0] != "Pi"@[0]);
}

/// A harness is known by its name, and shown by its label.
pub proof fn providers_are_known_by_name(p: Provider)
    ensures
        provider_name(p) == "pi"@ <==> p == Provider::Pi,
        provider_name(p) == "opencode"@ <==> p == Provider::OpenCode,
        provider_name(p) == "claudecode"@ <==> p == Provider::ClaudeCode,
        provider_label(p) == "Pi"@ <==> p == Provider::Pi,
        provider_label(p) == "OpenCode"@ <==> p == Provider::OpenCode,
        provider_label(p) == "ClaudeCode"@ <==> p == Provider::ClaudeCode,
{
    first_letters_differ();
}

/// An identifier is OpenCode's exactly where it begins with its mark, and never Pi's.
pub proof fn identifiers_tell_their_harness(session_id: &str, r: Provider)
    requires
        call_ensures(detect_provider, (session_id,), r),
    ensures
        r == Provider::OpenCode <==> session_id@.len() >= 4 && session_id@.take(4) == seq![
            's',
            'e',
            's',
            '_',
        ],
        r == Provider::OpenCode || r == Provider::ClaudeCode,
{
    reveal_strlit("ses_");
    assert("ses_"@ =~= seq!['s', 'e', 's', '_']);
    if session_id@.len() >= 4 {
        assert(session_id@.subrange(0, 4) =~= session_id@.take(4));
    }
}

} // verus!
