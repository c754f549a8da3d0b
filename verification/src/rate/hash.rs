//! The names of files as git objects.

use crate::opencode::cache::{all_hex, is_all_hex, is_object_name};
use crate::opencode::nudge::reply_view;
use crate::text::{byte_len, decimal, decimal_of, len_bytes, trim, trimmed};
use vstd::prelude::*;
use vstd::utf8::encode_utf8;

verus! {

/// The object name in what `git hash-object` printed, or what is wrong with it.
pub open spec fn printed_hash(printed: Seq<char>) -> Result<Seq<char>, Seq<char>> {
    let hash = trimmed(printed);
    if byte_len(hash) != 40 {
        Err("Invalid hash length: expected 40 chars, got "@ + decimal(byte_len(hash)))
    } else if !all_hex(hash) {
        Err("Invalid hash format: contains non-hex characters: "@ + hash)
    } else {
        Ok(hash)
    }
}

/// The object name in what `git hash-object` printed for a file.
pub fn read_file_hash(printed: &str) -> (r: Result<String, String>)
    ensures
        reply_view(r) == printed_hash(printed@),
{
    let hash = trim(printed);
    let n: usize = len_bytes(hash.as_str());
    if n != 40 {
        let mut e = "Invalid hash length: expected 40 chars, got ".to_string();
        e.append(decimal_of(n as u64).as_str());
        return Err(e);
    }
    if !is_all_hex(hash.as_str()) {
        let mut e = "Invalid hash format: contains non-hex characters: ".to_string();
        e.append(hash.as_str());
        return Err(e);
    }
    Ok(hash)
}

/// A hash is accepted exactly where it is the name of a git object.
pub proof fn accepted_hashes_are_object_names(printed: Seq<char>)
    ensures
        printed_hash(printed) is Ok <==> is_object_name(trimmed(printed)),
{
}

/// A hash is what was printed, without the blanks around it, where that has forty bytes and
/// is made of the digits of base sixteen.
pub proof fn hashes_are_what_was_printed(printed: Seq<char>)
    ensures
        printed_hash(printed) matches Ok(hash) ==> hash == trimmed(printed) && encode_utf8(
            hash,
        ).len() == 40 && all_hex(hash),
        encode_utf8(trimmed(printed)).len() == 40 && all_hex(trimmed(printed)) ==> printed_hash(
            printed,
        ) is Ok,
{
}

} // verus!
