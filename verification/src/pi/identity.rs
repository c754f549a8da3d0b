//! Identifiers of Pi sessions, and the sessions that the place of a file tells.

use crate::paths::{
    behind, file_name, name_of, parent, parent_of, parents_are_shorter, strip_prefix,
};
use crate::text::{chars_of, last_index_before, rfind_char, string_of};
use vstd::prelude::*;
use vstd::slice::slice_subrange;
use vstd::utf8::encode_utf8;

verus! {

/// Whether a text has the form of a hyphenated UUID of the seventh version.
pub open spec fn uuid_v7_form(s: Seq<char>) -> bool {
    let bytes = encode_utf8(s);
    &&& bytes.len() == 36
    &&& bytes[14] == 55
    &&& bytes[8] == 45
    &&& bytes[13] == 45
    &&& bytes[18] == 45
    &&& bytes[23] == 45
}

/// Whether a text has the form of a hyphenated UUID of the seventh version.
pub fn is_uuid_v7(s: &str) -> (r: bool)
    ensures
        r == uuid_v7_form(s@),
{
    let bytes = s.as_bytes();
    bytes.len() == 36 && bytes[14] == 55 && bytes[8] == 45 && bytes[13] == 45 && bytes[18] == 45
        && bytes[23] == 45
}

/// What follows the last underscore of a name, where it is a session identifier.
pub open spec fn session_in_name(name: Seq<char>) -> Option<Seq<char>> {
    match last_index_before(name, '_', name.len() as int) {
        Some(i) => if uuid_v7_form(name.skip(i + 1)) {
            Some(name.skip(i + 1))
        } else {
            None
        },
        None => None,
    }
}

fn find_session_in_name(name: &str) -> (r: Option<String>)
    ensures
        r.deep_view() == session_in_name(name@),
{
    let v = chars_of(name);
    let n: usize = v.len();
    match rfind_char(v.as_slice(), '_', n) {
        Some(i) => {
            let id = string_of(slice_subrange(v.as_slice(), i + 1, n));
            assert(id@ == name@.skip(i + 1));
            if is_uuid_v7(id.as_str()) {
                Some(id)
            } else {
                None
            }
        },
        None => None,
    }
}

/// The session named by the nearest of the directories from `dir` upwards, up to
/// `base` and not into it.
pub open spec fn session_above(dir: Seq<char>, base: Seq<char>) -> Option<Seq<char>>
    decreases dir.len(),
{
    match parent_of(dir) {
        Some(p) if !same_path(dir, base) && p.len() < dir.len() => {
            let here = match name_of(dir) {
                Some(name) => session_in_name(name),
                None => None,
            };
            if here is Some {
                here
            } else {
                session_above(p, base)
            }
        },
        _ => None,
    }
}

/// Whether two paths have the same names.
pub open spec fn same_path(a: Seq<char>, b: Seq<char>) -> bool {
    behind(a, b) == Some(Seq::<char>::empty()) && behind(b, a) == Some(Seq::<char>::empty())
}

fn are_same_path(a: &str, b: &str) -> (r: bool)
    ensures
        r == same_path(a@, b@),
{
    let ab = match strip_prefix(a, b) {
        Some(rest) => {
            assert(rest@.len() == 0 ==> rest@ =~= Seq::<char>::empty());
            rest.as_str().is_empty()
        },
        None => false,
    };
    let ba = match strip_prefix(b, a) {
        Some(rest) => {
            assert(rest@.len() == 0 ==> rest@ =~= Seq::<char>::empty());
            rest.as_str().is_empty()
        },
        None => false,
    };
    ab && ba
}

/// The session that started the session of a file: the one that the nearest
/// directory above the file names, below the directory of all sessions.
pub open spec fn parent_session(path: Seq<char>, base: Seq<char>) -> Option<Seq<char>> {
    match parent_of(path) {
        Some(dir) => session_above(dir, base),
        None => None,
    }
}

/// The session that started the session of a file.
pub fn derive_parent_id(path: &str, base: &str) -> (r: Option<String>)
    ensures
        r.deep_view() == parent_session(path@, base@),
{
    let mut dir = match parent(path) {
        Some(dir) => dir,
        None => {
            return None;
        },
    };
    loop
        invariant
            parent_session(path@, base@) == session_above(dir@, base@),
        decreases dir@.len(),
    {
        if are_same_path(dir.as_str(), base) {
            return None;
        }
        let next = match parent(dir.as_str()) {
            Some(p) => p,
            None => {
                return None;
            },
        };
        let here = match file_name(dir.as_str()) {
            Some(name) => find_session_in_name(name.as_str()),
            None => None,
        };
        if here.is_some() {
            return here;
        }
        dir = next;
    }
}

/// A session's identifier in a name stands behind the last underscore, has thirty-six
/// bytes, and is of the seventh version.
pub proof fn names_end_in_their_session(name: Seq<char>)
    ensures
        session_in_name(name) matches Some(id) ==> {
            &&& id.len() < name.len()
            &&& name.skip(name.len() - id.len()) == id
            &&& name[name.len() - id.len() - 1] == '_'
            &&& !id.contains('_')
            &&& encode_utf8(id).len() == 36
            &&& encode_utf8(id)[14] == '7' as u8
        },
{
    match last_index_before(name, '_', name.len() as int) {
        Some(i) => {
            the_last_is_found(name, '_', name.len() as int);
            let id = name.skip(i + 1);
            assert(name.len() - id.len() == i + 1);
            assert forall|k: int| 0 <= k < id.len() implies id[k] != '_' by {
                assert(id[k] == name[k + i + 1]);
            }
        },
        None => {},
    }
}

/// Every name that ends in an underscore and an identifier names it.
pub proof fn identifiers_are_found_in_names(stem: Seq<char>, id: Seq<char>)
    requires
        uuid_v7_form(id),
        !id.contains('_'),
    ensures
        session_in_name(stem.push('_') + id) == Some(id),
{
    let name = stem.push('_') + id;
    the_last_is_found(name, '_', name.len() as int);
    assert(name[stem.len() as int] == '_');
    match last_index_before(name, '_', name.len() as int) {
        Some(i) => {
            if i > stem.len() {
                assert(id[i - stem.len() - 1] == name[i]);
                assert(id.contains('_'));
            }
            assert(i == stem.len());
            assert(name.skip(i + 1) =~= id);
        },
        None => {},
    }
}

proof fn the_last_is_found(s: Seq<char>, c: char, end: int)
    requires
        0 <= end <= s.len(),
    ensures
        match last_index_before(s, c, end) {
            Some(i) => 0 <= i < end && s[i] == c && forall|j: int|
                i < j < end ==> #[trigger] s[j] != c,
            None => forall|j: int| 0 <= j < end ==> #[trigger] s[j] != c,
        },
    decreases end,
{
    if end > 0 && s[end - 1] != c {
        the_last_is_found(s, c, end - 1);
    }
}

/// The session that a file lies below is named by the nearest directory above it that
/// names one, and none is looked for at or above the base.
pub proof fn the_nearest_session_above_counts(dir: Seq<char>, base: Seq<char>)
    ensures
        same_path(dir, base) ==> session_above(dir, base) is None,
        !same_path(dir, base) && parent_of(dir) is Some && (name_of(dir) matches Some(name)
            && session_in_name(name) is Some) ==> session_above(dir, base) == session_in_name(
            name_of(dir)->0,
        ),
        !same_path(dir, base) && (parent_of(dir) matches Some(p) && (name_of(dir) is None
            || session_in_name(name_of(dir)->0) is None)) ==> session_above(dir, base)
            == session_above(parent_of(dir)->0, base),
{
    parents_are_shorter(dir);
}

} // verus!
