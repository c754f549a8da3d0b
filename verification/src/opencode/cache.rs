//! Where the results of runs are kept: one file for each agent, model,
//! instruction and prompt.

use crate::paths::{below, join_path};
use crate::text::{
    alphanumeric, ascii_positions, between_bytes, boundary_in_range, byte_len, byte_slice, chars_of,
    is_alphanumeric, len_bytes, on_boundary, trim, trimmed,
};
use vstd::prelude::*;

verus! {

/// The tokens that a run used.
#[derive(Clone, Copy, PartialEq, Eq, Structural, Debug)]
pub struct TokenUsage {
    pub input: u64,
    pub output: u64,
    pub reasoning: u64,
    pub cache_read: u64,
    pub cache_write: u64,
}

/// No tokens.
pub open spec fn no_tokens() -> TokenUsage {
    TokenUsage { input: 0, output: 0, reasoning: 0, cache_read: 0, cache_write: 0 }
}

impl Default for TokenUsage {
    fn default() -> (r: TokenUsage)
        ensures
            r == no_tokens(),
    {
        TokenUsage { input: 0, output: 0, reasoning: 0, cache_read: 0, cache_write: 0 }
    }
}

/// Whether a character may stand in a file name as it is.
pub open spec fn is_kept(c: char) -> bool {
    alphanumeric(c) || c == '-' || c == '_'
}

/// A text for a file name: each character that may not stand there is an underscore.
pub open spec fn sanitized(s: Seq<char>) -> Seq<char> {
    s.map_values(
        |c: char|
            if is_kept(c) {
                c
            } else {
                '_'
            },
    )
}

/// Whether an ASCII character is a letter, a digit, a hyphen or an underscore.
pub open spec fn is_plain(c: char) -> bool {
    'a' <= c <= 'z' || 'A' <= c <= 'Z' || '0' <= c <= '9' || c == '-' || c == '_'
}

/// Makes a text fit for a file name. Of ASCII nothing is left but letters,
/// digits, hyphens and underscores.
pub fn sanitize_for_filename(s: &str) -> (r: String)
    ensures
        r@ == sanitized(s@),
        forall|i: int|
            0 <= i < r@.len() && (#[trigger] r@[i] as u32) < 128 ==> is_plain(r@[i]),
{
    let chars = chars_of(s);
    let mut out = String::new();
    let mut i: usize = 0;
    while i < chars.len()
        invariant
            i <= chars.len(),
            chars@ == s@,
            out@ == sanitized(s@.take(i as int)),
            forall|j: int|
                0 <= j < out@.len() && (#[trigger] out@[j] as u32) < 128 ==> is_plain(out@[j]),
        decreases chars.len() - i,
    {
        let c: char = chars[i];
        let ghost before = out@;
        if is_alphanumeric(c) || c == '-' || c == '_' {
            out.push(c);
        } else {
            out.push('_');
        }
        assert(out@ =~= sanitized(s@.take(i + 1)));
        i += 1;
    }
    assert(s@.take(i as int) =~= s@);
    out
}

/// The first eight bytes of a hash, or all where it has fewer.
pub open spec fn short_len(hash: Seq<char>) -> int {
    if byte_len(hash) < 8 {
        byte_len(hash) as int
    } else {
        8
    }
}

/// The name of the file for a run.
pub open spec fn cache_key(
    agent: Option<Seq<char>>,
    model: Seq<char>,
    instruction_hash: Seq<char>,
    prompt_hash: Seq<char>,
) -> Seq<char> {
    let agent = match agent {
        Some(a) => a,
        None => "sisyphus"@,
    };
    sanitized(agent) + "-"@ + sanitized(model) + "-"@ + between_bytes(
        instruction_hash,
        0,
        short_len(instruction_hash),
    ) + "-"@ + between_bytes(prompt_hash, 0, short_len(prompt_hash)) + ".json"@
}

fn short_hash(hash: &str) -> (r: String)
    requires
        on_boundary(hash@, short_len(hash@)),
    ensures
        r@ == between_bytes(hash@, 0, short_len(hash@)),
{
    let n: usize = len_bytes(hash);
    let end: usize = if n < 8 {
        n
    } else {
        8
    };
    proof {
        boundary_in_range(hash@, 0);
    }
    byte_slice(hash, 0, end).to_string()
}

/// The name of the file for a run: the agent, `sisyphus` where none is named, the
/// model, and the beginnings of the two hashes.
pub fn build_cache_key(
    agent: Option<&str>,
    model: &str,
    instruction_hash: &str,
    prompt_hash: &str,
) -> (r: String)
    requires
        on_boundary(instruction_hash@, short_len(instruction_hash@)),
        on_boundary(prompt_hash@, short_len(prompt_hash@)),
    ensures
        r@ == cache_key(agent.deep_view(), model@, instruction_hash@, prompt_hash@),
{
    let agent = match agent {
        Some(a) => a,
        None => "sisyphus",
    };
    let mut s = sanitize_for_filename(agent);
    s.append("-");
    s.append(sanitize_for_filename(model).as_str());
    s.append("-");
    s.append(short_hash(instruction_hash).as_str());
    s.append("-");
    s.append(short_hash(prompt_hash).as_str());
    s.append(".json");
    s
}

/// The directory of results below a cache directory.
pub fn cache_dir(base: Option<&str>) -> (r: Result<String, String>)
    ensures
        match base {
            Some(b) => r matches Ok(d) && d@ == below(b@, "ai-audit/opencode/run"@),
            None => r matches Err(e) && e@ == "Could not determine cache directory"@,
        },
{
    match base {
        Some(b) => Ok(join_path(b, "ai-audit/opencode/run")),
        None => Err("Could not determine cache directory".to_string()),
    }
}

/// The file for a run below a cache directory.
pub fn cache_path(
    base: Option<&str>,
    agent: Option<&str>,
    model: &str,
    instruction_hash: &str,
    prompt_hash: &str,
) -> (r: Result<String, String>)
    requires
        on_boundary(instruction_hash@, short_len(instruction_hash@)),
        on_boundary(prompt_hash@, short_len(prompt_hash@)),
    ensures
        match base {
            Some(b) => r matches Ok(p) && p@ == below(
                below(b@, "ai-audit/opencode/run"@),
                cache_key(agent.deep_view(), model@, instruction_hash@, prompt_hash@),
            ),
            None => r matches Err(e) && e@ == "Could not determine cache directory"@,
        },
{
    match cache_dir(base) {
        Ok(dir) => {
            let key = build_cache_key(agent, model, instruction_hash, prompt_hash);
            Ok(join_path(dir.as_str(), key.as_str()))
        },
        Err(e) => Err(e),
    }
}

/// Whether a character is a hexadecimal digit.
pub open spec fn is_hex(c: char) -> bool {
    '0' <= c <= '9' || 'a' <= c <= 'f' || 'A' <= c <= 'F'
}

/// Whether a text consists of hexadecimal digits.
pub open spec fn all_hex(s: Seq<char>) -> bool {
    forall|i: int| 0 <= i < s.len() ==> is_hex(#[trigger] s[i])
}

/// Whether a text consists of hexadecimal digits.
pub fn is_all_hex(s: &str) -> (r: bool)
    ensures
        r == all_hex(s@),
{
    let chars = chars_of(s);
    let mut i: usize = 0;
    while i < chars.len()
        invariant
            i <= chars.len(),
            chars@ == s@,
            forall|j: int| 0 <= j < i ==> is_hex(#[trigger] s@[j]),
        decreases chars.len() - i,
    {
        let c: char = chars[i];
        if !(('0' <= c && c <= '9') || ('a' <= c && c <= 'f') || ('A' <= c && c <= 'F')) {
            assert(!is_hex(s@[i as int]));
            return false;
        }
        i += 1;
    }
    true
}

/// Whether a text is the name of a git object: forty hexadecimal digits.
pub open spec fn is_object_name(s: Seq<char>) -> bool {
    byte_len(s) == 40 && all_hex(s)
}

/// The name of a git object has forty characters, and can be cut anywhere.
pub proof fn object_names_can_be_cut(s: Seq<char>, n: int)
    requires
        is_object_name(s),
        0 <= n <= 40,
    ensures
        s.len() == 40,
        on_boundary(s, n),
        between_bytes(s, 0, n) == s.take(n),
{
    assert(vstd::utf8::is_ascii_chars(s)) by {
        assert forall|i: int| 0 <= i < s.len() implies (#[trigger] s[i] as u32) < 128 by {
            assert(is_hex(s[i]));
        }
    }
    ascii_positions(s, 0);
    ascii_positions(s, n);
}

/// The object name in what `git hash-object` printed.
pub fn read_object_name(printed: &str) -> (r: Result<String, String>)
    ensures
        match r {
            Ok(h) => h@ == trimmed(printed@) && is_object_name(trimmed(printed@)),
            Err(e) => !is_object_name(trimmed(printed@)) && e@ == "Invalid hash format: "@
                + trimmed(printed@),
        },
{
    let hash = trim(printed);
    if len_bytes(hash.as_str()) != 40 || !is_all_hex(hash.as_str()) {
        let mut e = "Invalid hash format: ".to_string();
        e.append(hash.as_str());
        return Err(e);
    }
    Ok(hash)
}

/// The name of the file for a run under object names as hashes: it begins each
/// with eight digits.
pub proof fn keys_of_object_names(
    agent: Option<Seq<char>>,
    model: Seq<char>,
    instruction_hash: Seq<char>,
    prompt_hash: Seq<char>,
)
    requires
        is_object_name(instruction_hash),
        is_object_name(prompt_hash),
    ensures
        cache_key(agent, model, instruction_hash, prompt_hash) == sanitized(
            match agent {
                Some(a) => a,
                None => "sisyphus"@,
            },
        ) + "-"@ + sanitized(model) + "-"@ + instruction_hash.take(8) + "-"@ + prompt_hash.take(8)
            + ".json"@,
{
    object_names_can_be_cut(instruction_hash, 8);
    object_names_can_be_cut(prompt_hash, 8);
}

/// A name for a file keeps letters, digits, hyphens and underscores where they stand, and
/// has an underscore for every other sign.
pub proof fn names_keep_plain_signs(s: Seq<char>, i: int)
    requires
        0 <= i < s.len(),
    ensures
        sanitized(s).len() == s.len(),
        alphanumeric(s[i]) || s[i] == '-' || s[i] == '_' ==> sanitized(s)[i] == s[i],
        !alphanumeric(s[i]) && s[i] != '-' && s[i] != '_' ==> sanitized(s)[i] == '_',
        sanitized(sanitized(s)) == sanitized(s),
{
    assert forall|k: int| 0 <= k < s.len() implies sanitized(sanitized(s))[k] == sanitized(
        s,
    )[k] by {
        assert(is_kept(sanitized(s)[k]));
    }
    assert(sanitized(sanitized(s)) =~= sanitized(s));
}

/// A digit of base sixteen is one of these.
pub proof fn digits_of_base_sixteen(c: char)
    ensures
        is_hex(c) <==> {
            ||| 48 <= c as u32 <= 57
            ||| 97 <= c as u32 <= 102
            ||| 65 <= c as u32 <= 70
        },
        all_hex(seq![c]) <==> is_hex(c),
{
    assert(seq![c][0] == c);
}

/// The key of a result begins with the agent, and goes on with the model and the beginnings
/// of the two hashes; another agent, model or hash makes another key wherever its part of
/// the key is another of the same length.
pub proof fn keys_tell_runs_apart(
    agent: Option<Seq<char>>,
    model: Seq<char>,
    other: Seq<char>,
    hashes: (Seq<char>, Seq<char>),
    others: (Seq<char>, Seq<char>),
)
    requires
        is_object_name(hashes.0),
        is_object_name(hashes.1),
        is_object_name(others.0),
        is_object_name(others.1),
        model.len() == other.len(),
        cache_key(agent, model, hashes.0, hashes.1) == cache_key(agent, other, others.0, others.1),
    ensures
        sanitized(model) == sanitized(other),
        hashes.0.take(8) == others.0.take(8),
        hashes.1.take(8) == others.1.take(8),
{
    keys_of_object_names(agent, model, hashes.0, hashes.1);
    keys_of_object_names(agent, other, others.0, others.1);
    object_names_can_be_cut(hashes.0, 8);
    object_names_can_be_cut(hashes.1, 8);
    object_names_can_be_cut(others.0, 8);
    object_names_can_be_cut(others.1, 8);
    reveal_strlit("-");
    let a = sanitized(match agent {
        Some(a) => a,
        None => "sisyphus"@,
    });
    let k = cache_key(agent, model, hashes.0, hashes.1);
    let n = a.len() as int + 1;
    let m = n + model.len() + 1;
    assert(k.subrange(n, n + model.len()) =~= sanitized(model));
    assert(k.subrange(n, n + model.len()) =~= sanitized(other));
    assert(k.subrange(m, m + 8) =~= hashes.0.take(8));
    assert(k.subrange(m, m + 8) =~= others.0.take(8));
    assert(k.subrange(m + 9, m + 17) =~= hashes.1.take(8));
    assert(k.subrange(m + 9, m + 17) =~= others.1.take(8));
}

} // verus!
