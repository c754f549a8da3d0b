//! Paths of Unix as texts. A path is a sequence of names between slashes; more
//! than one slash counts as one, and so do a slash at the end and the name `.`
//! anywhere but at the beginning.

use crate::text::{
    chars_of, find_char, index_from, join, joined, last_index_before, matches_at, pieces,
    rfind_char, split, str_eq, string_of,
};
use vstd::prelude::*;
use vstd::slice::slice_subrange;

verus! {

/// Whether a path begins at the root.
pub open spec fn absolute(s: Seq<char>) -> bool {
    s.len() > 0 && s[0] == '/'
}

/// Whether a path begins at the root.
pub fn is_absolute(s: &str) -> (r: bool)
    ensures
        r == absolute(s@),
{
    let v = chars_of(s);
    v.len() > 0 && v[0] == '/'
}

/// The path without slashes and `.` names at its end, but for the root itself
/// and a path that is a single `.`.
pub open spec fn tail_trimmed(s: Seq<char>) -> Seq<char>
    decreases s.len(),
{
    if s.len() <= 1 {
        s
    } else if s.last() == '/' || (s.last() == '.' && s[s.len() - 2] == '/') {
        tail_trimmed(s.drop_last())
    } else {
        s
    }
}

/// The path without slashes and `.` names at its beginning.
pub open spec fn head_trimmed(s: Seq<char>) -> Seq<char>
    decreases s.len(),
{
    if s.len() == 0 {
        s
    } else if s[0] == '/' || (s[0] == '.' && (s.len() == 1 || s[1] == '/')) {
        head_trimmed(s.skip(1))
    } else {
        s
    }
}

/// The directory that holds what a path names. The root and the empty path have none.
pub open spec fn parent_of(s: Seq<char>) -> Option<Seq<char>> {
    let t = tail_trimmed(s);
    if t.len() == 0 || t == seq!['/'] {
        None
    } else {
        match last_index_before(t, '/', t.len() as int) {
            Some(i) => Some(tail_trimmed(t.take(i + 1))),
            None => Some(Seq::empty()),
        }
    }
}

/// The last name of a path. There is none for the root, nor for a path that ends
/// in `..`, nor for a single `.`.
pub open spec fn name_of(s: Seq<char>) -> Option<Seq<char>> {
    let t = tail_trimmed(s);
    if t.len() == 0 || t == seq!['/'] {
        None
    } else {
        let name = match last_index_before(t, '/', t.len() as int) {
            Some(i) => t.skip(i + 1),
            None => t,
        };
        if name == seq!['.'] || name == seq!['.', '.'] {
            None
        } else {
            Some(name)
        }
    }
}

/// Trimming makes no path longer.
pub proof fn trimming_shortens(s: Seq<char>)
    ensures
        tail_trimmed(s).len() <= s.len(),
        head_trimmed(s).len() <= s.len(),
    decreases s.len(),
{
    if s.len() > 1 {
        trimming_shortens(s.drop_last());
    }
    if s.len() > 0 {
        trimming_shortens(s.skip(1));
    }
}

/// The directory that holds what a path names is named by a shorter path.
pub proof fn parents_are_shorter(s: Seq<char>)
    ensures
        parent_of(s) matches Some(p) ==> p.len() < s.len(),
{
    let t = tail_trimmed(s);
    trimming_shortens(s);
    match last_index_before(t, '/', t.len() as int) {
        Some(i) => {
            last_index_is_in_range(t, '/', t.len() as int);
            trimming_shortens(t.take(i + 1));
            if i + 1 == t.len() && t.len() > 1 {
                tail_has_no_slash(s);
            }
            if t.len() == 1 && t[0] == '/' {
                assert(t =~= seq!['/']);
            }
        },
        None => {},
    }
}

proof fn last_index_is_in_range(s: Seq<char>, c: char, end: int)
    requires
        end <= s.len(),
    ensures
        last_index_before(s, c, end) matches Some(i) ==> 0 <= i < end && s[i] == c,
    decreases end,
{
    if end > 0 && s[end - 1] != c {
        last_index_is_in_range(s, c, end - 1);
    }
}

/// Where a character is found lies within the text.
pub proof fn first_index_is_in_range(s: Seq<char>, c: char, from: int)
    requires
        0 <= from,
    ensures
        index_from(s, c, from) matches Some(i) ==> from <= i < s.len(),
    decreases s.len() - from,
{
    if from < s.len() && s[from] != c {
        first_index_is_in_range(s, c, from + 1);
    }
}

proof fn tail_has_no_slash(s: Seq<char>)
    ensures
        tail_trimmed(s).len() > 1 ==> tail_trimmed(s).last() != '/',
    decreases s.len(),
{
    if s.len() > 1 {
        tail_has_no_slash(s.drop_last());
    }
}

fn tail_len(v: &Vec<char>) -> (n: usize)
    ensures
        n <= v.len(),
        v@.take(n as int) == tail_trimmed(v@),
{
    let mut n: usize = v.len();
    assert(v@.take(n as int) == v@);
    while n > 1
        invariant_except_break
            tail_trimmed(v@.take(n as int)) == tail_trimmed(v@),
        invariant
            n <= v.len(),
        ensures
            v@.take(n as int) == tail_trimmed(v@),
        decreases n,
    {
        if !(v[n - 1] == '/' || (v[n - 1] == '.' && v[n - 2] == '/')) {
            break;
        }
        assert(v@.take(n as int).drop_last() == v@.take(n - 1));
        n -= 1;
    }
    n
}

fn trim_tail(s: &str) -> (r: Vec<char>)
    ensures
        r@ == tail_trimmed(s@),
{
    let v = chars_of(s);
    let n = tail_len(&v);
    vstd::slice::slice_to_vec(slice_subrange(v.as_slice(), 0, n))
}

fn is_root(t: &Vec<char>) -> (r: bool)
    ensures
        r == (t@ == seq!['/']),
{
    let r = t.len() == 1 && t[0] == '/';
    assert(r ==> t@ =~= seq!['/']);
    r
}

/// The directory that holds what a path names.
pub fn parent(s: &str) -> (r: Option<String>)
    ensures
        r.deep_view() == parent_of(s@),
        r matches Some(p) ==> p@.len() < s@.len(),
{
    proof {
        parents_are_shorter(s@);
    }
    let t = trim_tail(s);
    if t.len() == 0 || is_root(&t) {
        return None;
    }
    let n: usize = t.len();
    match rfind_char(t.as_slice(), '/', n) {
        Some(i) => {
            let head = string_of(slice_subrange(t.as_slice(), 0, i + 1));
            assert(head@ == t@.take(i + 1));
            Some(string_of(trim_tail(head.as_str()).as_slice()))
        },
        None => Some(String::new()),
    }
}

/// The last name of a path.
pub fn file_name(s: &str) -> (r: Option<String>)
    ensures
        r.deep_view() == name_of(s@),
{
    let t = trim_tail(s);
    if t.len() == 0 || is_root(&t) {
        return None;
    }
    let n: usize = t.len();
    let name = match rfind_char(t.as_slice(), '/', n) {
        Some(i) => {
            let name = vstd::slice::slice_to_vec(slice_subrange(t.as_slice(), i + 1, n));
            assert(name@ == t@.skip(i + 1));
            name
        },
        None => t,
    };
    let dot = name.len() == 1 && name[0] == '.';
    let dots = name.len() == 2 && name[0] == '.' && name[1] == '.';
    assert(dot ==> name@ =~= seq!['.']);
    assert(dots ==> name@ =~= seq!['.', '.']);
    if dot || dots {
        None
    } else {
        Some(string_of(name.as_slice()))
    }
}

/// The number of characters before the first slash.
pub open spec fn first_len(s: Seq<char>) -> int {
    match index_from(s, '/', 0) {
        Some(i) => i,
        None => s.len() as int,
    }
}

/// What is left of `p` behind the names of `b`, both taken from their first name on.
pub open spec fn behind_names(p: Seq<char>, b: Seq<char>) -> Option<Seq<char>>
    decreases p.len(),
{
    let p1 = head_trimmed(p);
    let b1 = head_trimmed(b);
    if b1.len() == 0 {
        Some(tail_trimmed(p1))
    } else if p1.len() == 0 || first_len(p1) == 0 || p1.take(first_len(p1)) != b1.take(
        first_len(b1),
    ) {
        None
    } else {
        proof {
            trimming_shortens(p);
            first_index_is_in_range(p1, '/', 0);
        }
        behind_names(p1.skip(first_len(p1)), b1.skip(first_len(b1)))
    }
}

/// Whether a path begins with the name `.`.
pub open spec fn dotted(s: Seq<char>) -> bool {
    s.len() > 0 && s[0] == '.' && (s.len() == 1 || s[1] == '/')
}

/// What is left of a path behind another that it begins with, name by name.
pub open spec fn behind(p: Seq<char>, b: Seq<char>) -> Option<Seq<char>> {
    if b.len() == 0 {
        Some(tail_trimmed(p))
    } else if absolute(p) != absolute(b) || dotted(p) != dotted(b) {
        None
    } else {
        behind_names(p, b)
    }
}

fn head_pos(v: &Vec<char>, from: usize) -> (n: usize)
    requires
        from <= v.len(),
    ensures
        from <= n <= v.len(),
        v@.skip(n as int) == head_trimmed(v@.skip(from as int)),
{
    let mut n: usize = from;
    while n < v.len()
        invariant_except_break
            head_trimmed(v@.skip(n as int)) == head_trimmed(v@.skip(from as int)),
        invariant
            from <= n <= v.len(),
        ensures
            v@.skip(n as int) == head_trimmed(v@.skip(from as int)),
        decreases v.len() - n,
    {
        let ghost rest = v@.skip(n as int);
        assert(rest[0] == v@[n as int]);
        let dot = v[n] == '.' && (n + 1 == v.len() || v[n + 1] == '/');
        assert(rest.len() > 1 ==> rest[1] == v@[n + 1]);
        if !(v[n] == '/' || dot) {
            break;
        }
        assert(rest.skip(1) == v@.skip(n + 1));
        n += 1;
    }
    n
}

/// What is left of a path behind another that it begins with, name by name.
pub fn strip_prefix(path: &str, base: &str) -> (r: Option<String>)
    ensures
        r.deep_view() == behind(path@, base@),
{
    let p = chars_of(path);
    let b = chars_of(base);
    if b.len() == 0 {
        return Some(string_of(trim_tail(path).as_slice()));
    }
    let p_dotted = p.len() > 0 && p[0] == '.' && (p.len() == 1 || p[1] == '/');
    let b_dotted = b[0] == '.' && (b.len() == 1 || b[1] == '/');
    if (p.len() > 0 && p[0] == '/') != (b[0] == '/') || p_dotted != b_dotted {
        return None;
    }
    let mut i: usize = 0;
    let mut k: usize = 0;
    assert(p@.skip(0) == p@);
    assert(b@.skip(0) == b@);
    loop
        invariant
            i <= p.len(),
            k <= b.len(),
            behind(path@, base@) == behind_names(p@.skip(i as int), b@.skip(k as int)),
        decreases p.len() - i,
    {
        let ghost p0 = p@.skip(i as int);
        let ghost b0 = b@.skip(k as int);
        let i1 = head_pos(&p, i);
        let k1 = head_pos(&b, k);
        let ghost p1 = p@.skip(i1 as int);
        let ghost b1 = b@.skip(k1 as int);
        let pn: usize = p.len();
        let bn: usize = b.len();
        if k1 == bn {
            let rest = string_of(slice_subrange(p.as_slice(), i1, pn));
            assert(rest@ == p1);
            return Some(string_of(trim_tail(rest.as_str()).as_slice()));
        }
        if i1 == pn {
            return None;
        }
        let p_rest = slice_subrange(p.as_slice(), i1, pn);
        let b_rest = slice_subrange(b.as_slice(), k1, bn);
        assert(p_rest@ == p1);
        assert(b_rest@ == b1);
        let pl: usize = match find_char(p_rest, '/', 0) {
            Some(x) => x,
            None => pn - i1,
        };
        let bl: usize = match find_char(b_rest, '/', 0) {
            Some(x) => x,
            None => bn - k1,
        };
        let p_name = slice_subrange(p_rest, 0, pl);
        let b_name = slice_subrange(b_rest, 0, bl);
        assert(p_name@ == p1.take(pl as int));
        assert(b_name@ == b1.take(bl as int));
        if pl == 0 || !same_chars(p_name, b_name) {
            return None;
        }
        assert(p1.skip(pl as int) == p@.skip(i1 + pl));
        assert(b1.skip(bl as int) == b@.skip(k1 + bl));
        i = i1 + pl;
        k = k1 + bl;
    }
}

fn same_chars(a: &[char], b: &[char]) -> (r: bool)
    ensures
        r == (a@ == b@),
{
    if a.len() != b.len() {
        return false;
    }
    let r = matches_at(a, b, 0);
    assert(a@.subrange(0, a@.len() as int) == a@);
    r
}

/// `name` below the directory `base`. An absolute `name` stands for itself.
pub open spec fn below(base: Seq<char>, name: Seq<char>) -> Seq<char> {
    if absolute(name) || base.len() == 0 {
        name
    } else if base.last() == '/' {
        base + name
    } else {
        base + "/"@ + name
    }
}

/// `name` below the directory `base`.
pub fn join_path(base: &str, name: &str) -> (r: String)
    ensures
        r@ == below(base@, name@),
{
    if is_absolute(name) || base.is_empty() {
        return name.to_owned();
    }
    let v = chars_of(base);
    let mut r = base.to_owned();
    if v[v.len() - 1] != '/' {
        r.append("/");
    }
    r.append(name);
    r
}

/// The names of a path, in order: the pieces between slashes that are neither
/// empty nor `.`.
pub open spec fn names_among(parts: Seq<Seq<char>>) -> Seq<Seq<char>>
    decreases parts.len(),
{
    if parts.len() == 0 {
        parts
    } else if parts.last().len() == 0 || parts.last() == "."@ {
        names_among(parts.drop_last())
    } else {
        names_among(parts.drop_last()).push(parts.last())
    }
}

/// Taking the names one after the other, where `..` takes away the name before
/// it. Where no name is left it takes away the root, where the path begins there.
pub open spec fn walked_names(root: bool, names: Seq<Seq<char>>) -> (bool, Seq<Seq<char>>)
    decreases names.len(),
{
    if names.len() == 0 {
        (root, names)
    } else {
        let (r, before) = walked_names(root, names.drop_last());
        if names.last() != ".."@ {
            (r, before.push(names.last()))
        } else if before.len() > 0 {
            (r, before.drop_last())
        } else {
            (false, before)
        }
    }
}

/// A path from the directory `base`, without `.` and `..`, by its text alone. An
/// absolute path stands as it is, and so does any where there is no base.
pub open spec fn resolved(rel: Seq<char>, base: Seq<char>) -> Seq<char> {
    if absolute(rel) || base.len() == 0 {
        rel
    } else {
        let (root, names) = walked_names(
            absolute(base),
            names_among(pieces(below(base, rel), '/')),
        );
        (if root {
            "/"@
        } else {
            Seq::empty()
        }) + joined(names, "/"@)
    }
}

fn collect_names(parts: &Vec<String>) -> (r: Vec<String>)
    ensures
        r.deep_view() == names_among(parts.deep_view()),
{
    let ghost all = parts.deep_view();
    let mut out: Vec<String> = Vec::new();
    let mut i: usize = 0;
    assert(out.deep_view() == Seq::<Seq<char>>::empty());
    assert(all.take(0) == Seq::<Seq<char>>::empty());
    while i < parts.len()
        invariant
            i <= parts.len(),
            all == parts.deep_view(),
            out.deep_view() == names_among(all.take(i as int)),
        decreases parts.len() - i,
    {
        assert(all.take(i + 1).drop_last() == all.take(i as int));
        assert(all.take(i + 1).last() == parts@[i as int]@);
        let ghost before = out.deep_view();
        if !(parts[i].as_str().is_empty() || str_eq(parts[i].as_str(), ".")) {
            out.push(parts[i].clone());
            assert(out.deep_view() == before.push(parts@[i as int]@));
        }
        i += 1;
    }
    assert(all.take(i as int) == all);
    out
}

/// A path from the directory `base`, without `.` and `..`, by its text alone.
pub fn resolve_path(rel: &str, base: &str) -> (r: String)
    ensures
        r@ == resolved(rel@, base@),
{
    if is_absolute(rel) || base.is_empty() {
        return rel.to_owned();
    }
    let parts = split(join_path(base, rel).as_str(), '/');
    let names = collect_names(&parts);
    let ghost all = names.deep_view();
    let mut root = is_absolute(base);
    let mut out: Vec<String> = Vec::new();
    let mut i: usize = 0;
    assert(out.deep_view() == Seq::<Seq<char>>::empty());
    assert(all.take(0) == Seq::<Seq<char>>::empty());
    while i < names.len()
        invariant
            i <= names.len(),
            all == names.deep_view(),
            (root, out.deep_view()) == walked_names(absolute(base@), all.take(i as int)),
        decreases names.len() - i,
    {
        assert(all.take(i + 1).drop_last() == all.take(i as int));
        assert(all.take(i + 1).last() == names@[i as int]@);
        let ghost before = out.deep_view();
        if !str_eq(names[i].as_str(), "..") {
            out.push(names[i].clone());
            assert(out.deep_view() == before.push(names@[i as int]@));
        } else if out.len() > 0 {
            let _ = out.pop();
            assert(out.deep_view() == before.drop_last());
        } else {
            root = false;
        }
        i += 1;
    }
    assert(all.take(i as int) == all);
    let mut r = String::new();
    if root {
        r.append("/");
    }
    r.append(join(&out, "/").as_str());
    r
}

/// Where the extension of a file name begins: at its last dot, unless the name
/// begins with that dot.
pub open spec fn extension_at(name: Seq<char>) -> Option<int> {
    if name == ".."@ {
        None
    } else {
        match last_index_before(name, '.', name.len() as int) {
            Some(i) => if i > 0 {
                Some(i)
            } else {
                None
            },
            None => None,
        }
    }
}

/// A file name without its extension, and the extension, where it has one.
pub open spec fn name_parts(name: Seq<char>) -> (Seq<char>, Option<Seq<char>>) {
    match extension_at(name) {
        Some(i) => (name.take(i), Some(name.skip(i + 1))),
        None => (name, None),
    }
}

/// A file name without its extension, and the extension, where it has one.
pub fn split_extension(name: &str) -> (r: (String, Option<String>))
    ensures
        r.0@ == name_parts(name@).0,
        r.1.deep_view() == name_parts(name@).1,
{
    if str_eq(name, "..") {
        return (name.to_string(), None);
    }
    let chars = chars_of(name);
    let n: usize = chars.len();
    match rfind_char(chars.as_slice(), '.', n) {
        Some(i) => {
            if i > 0 {
                let stem = string_of(slice_subrange(chars.as_slice(), 0, i));
                let extension = string_of(slice_subrange(chars.as_slice(), i + 1, n));
                assert(stem@ =~= name@.take(i as int));
                assert(extension@ =~= name@.skip(i + 1));
                (stem, Some(extension))
            } else {
                (name.to_string(), None)
            }
        },
        None => (name.to_string(), None),
    }
}

/// Going down into a name goes behind one stroke, and an absolute name leaves the base.
pub proof fn names_stand_below_their_base(base: Seq<char>, name: Seq<char>)
    ensures
        name.len() > 0 && name[0] == '/' ==> below(base, name) == name,
        base.len() == 0 ==> below(base, name) == name,
        base.len() > 0 && base.last() != '/' && (name.len() == 0 || name[0] != '/') ==> below(
            base,
            name,
        ) == base + seq!['/'] + name,
        base.len() > 0 && base.last() == '/' && (name.len() == 0 || name[0] != '/') ==> below(
            base,
            name,
        ) == base + name,
{
    reveal_strlit("/");
    assert("/"@ =~= seq!['/']);
}

/// What stands below a directory has its own name and the directory for its parent.
pub proof fn paths_have_name_and_parent(dir: Seq<char>, name: Seq<char>)
    requires
        dir.len() > 0,
        dir.last() != '/',
        dir.last() != '.',
        name.len() > 0,
        !name.contains('/'),
        name != seq!['.'],
        name != seq!['.', '.'],
    ensures
        name_of(dir + seq!['/'] + name) == Some(name),
        parent_of(dir + seq!['/'] + name) == Some(dir),
{
    let s = dir + seq!['/'] + name;
    let n = dir.len() as int;
    assert(s[n] == '/');
    assert(name.contains(name.last()));
    assert(s.last() == name.last());
    if s.last() == '.' && s[s.len() - 2] == '/' {
        if name.len() > 1 {
            assert(s[s.len() - 2] == name[name.len() - 2]);
            assert(name.contains('/'));
        }
        assert(name =~= seq!['.']);
    }
    assert(tail_trimmed(s) == s);
    last_stroke_is_found(s, n, s.len() as int);
    assert(s.skip(n + 1) =~= name);
    let up = s.take(n + 1);
    assert(up.last() == '/');
    assert(up.drop_last() =~= dir);
    assert(tail_trimmed(up) == tail_trimmed(dir));
    assert(tail_trimmed(dir) == dir);
}

proof fn last_stroke_is_found(s: Seq<char>, n: int, end: int)
    requires
        0 <= n < end <= s.len(),
        s[n] == '/',
        forall|i: int| n < i < s.len() ==> #[trigger] s[i] != '/',
    ensures
        last_index_before(s, '/', end) == Some(n),
    decreases end,
{
    if end - 1 > n {
        assert(s[end - 1] != '/');
        last_stroke_is_found(s, n, end - 1);
    }
}

/// The ending of a name stands behind its last dot, unless the name begins with that dot.
pub proof fn names_have_endings(stem: Seq<char>, ending: Seq<char>)
    requires
        stem.len() > 0,
        !ending.contains('.'),
        stem != seq!['.'] || ending.len() > 0,
    ensures
        name_parts(stem + seq!['.'] + ending) == (stem, Some(ending)),
{
    reveal_strlit("..");
    let s = stem + seq!['.'] + ending;
    let n = stem.len() as int;
    assert(s[n] == '.');
    assert forall|i: int| n < i < s.len() implies #[trigger] s[i] != '.' by {
        assert(s[i] == ending[i - n - 1]);
    }
    last_dot_is_found(s, n, s.len() as int);
    if s == ".."@ {
        assert(s.len() == 2);
        assert(s[0] == '.');
        assert(stem[0] == s[0]);
        assert(stem =~= seq!['.']);
        assert(ending.len() == 0);
    }
    assert(s.take(n) =~= stem);
    assert(s.skip(n + 1) =~= ending);
}

proof fn last_dot_is_found(s: Seq<char>, n: int, end: int)
    requires
        0 <= n < end <= s.len(),
        s[n] == '.',
        forall|i: int| n < i < s.len() ==> #[trigger] s[i] != '.',
    ensures
        last_index_before(s, '.', end) == Some(n),
    decreases end,
{
    if end - 1 > n {
        assert(s[end - 1] != '.');
        last_dot_is_found(s, n, end - 1);
    }
}

/// Walking names leaves out what is empty or stands for the place itself, and goes one back
/// for every step up.
pub proof fn steps_up_take_names_back(
    root: bool,
    names: Seq<Seq<char>>,
    name: Seq<char>,
    parts: Seq<Seq<char>>,
)
    ensures
        name != seq!['.', '.'] ==> walked_names(root, names.push(name)) == (
            walked_names(root, names).0,
            walked_names(root, names).1.push(name),
        ),
        name == seq!['.', '.'] && walked_names(root, names).1.len() > 0 ==> walked_names(
            root,
            names.push(name),
        ) == (walked_names(root, names).0, walked_names(root, names).1.drop_last()),
        name.len() == 0 || name == seq!['.'] ==> names_among(parts.push(name)) == names_among(
            parts,
        ),
        name.len() > 0 && name != seq!['.'] ==> names_among(parts.push(name)) == names_among(
            parts,
        ).push(name),
{
    reveal_strlit("..");
    reveal_strlit(".");
    assert(".."@ =~= seq!['.', '.']);
    assert("."@ =~= seq!['.']);
    assert(names.push(name).drop_last() =~= names);
    assert(parts.push(name).drop_last() =~= parts);
}

/// Strokes and steps in place in front of a path count for nothing, and everything else does.
pub proof fn steps_in_place_count_for_nothing(s: Seq<char>)
    ensures
        head_trimmed(seq!['/'] + s) == head_trimmed(s),
        head_trimmed(seq!['.', '/'] + s) == head_trimmed(s),
        s.len() > 0 && s[0] != '/' && s[0] != '.' ==> head_trimmed(s) == s,
        s.len() > 1 && s[0] == '.' && s[1] != '/' ==> head_trimmed(s) == s,
        tail_trimmed(s.push('/')) == if s.len() == 0 {
            seq!['/']
        } else {
            tail_trimmed(s)
        },
        s.len() > 0 && s.last() != '/' && s.last() != '.' ==> tail_trimmed(s) == s,
{
    let a = seq!['/'] + s;
    assert(a.skip(1) =~= s);
    let b = seq!['.', '/'] + s;
    assert(b.skip(1) =~= a);
    assert(head_trimmed(b) == head_trimmed(b.skip(1)));
    let c = s.push('/');
    assert(c.drop_last() =~= s);
    if s.len() == 0 {
        assert(c =~= seq!['/']);
    }
}

/// A path lies below another where it begins with the same names: a shared first name is
/// passed over, and different first names lead to nothing.
pub proof fn shared_names_are_passed_over(
    name: Seq<char>,
    other: Seq<char>,
    p: Seq<char>,
    b: Seq<char>,
)
    requires
        name.len() > 0,
        other.len() > 0,
        !name.contains('/'),
        !other.contains('/'),
        name != seq!['.'],
        other != seq!['.'],
    ensures
        behind_names(name + seq!['/'] + p, name + seq!['/'] + b) == behind_names(
            seq!['/'] + p,
            seq!['/'] + b,
        ),
        name != other ==> behind_names(name + seq!['/'] + p, other + seq!['/'] + b) is None,
        behind_names(p, Seq::empty()) == Some(tail_trimmed(head_trimmed(p))),
        behind(p, Seq::empty()) == Some(tail_trimmed(p)),
        p.len() > 0 && b.len() > 0 && (p[0] == '/') != (b[0] == '/') ==> behind(p, b) is None,
{
    let p1 = name + seq!['/'] + p;
    let b1 = name + seq!['/'] + b;
    let o1 = other + seq!['/'] + b;
    first_names_end_at_strokes(name, p);
    first_names_end_at_strokes(name, b);
    first_names_end_at_strokes(other, b);
    assert(p1.skip(name.len() as int) =~= seq!['/'] + p);
    assert(b1.skip(name.len() as int) =~= seq!['/'] + b);
    assert(p1.take(name.len() as int) =~= name);
    assert(b1.take(name.len() as int) =~= name);
    assert(o1.take(other.len() as int) =~= other);
    assert(head_trimmed(Seq::<char>::empty()) =~= Seq::<char>::empty());
}

proof fn first_names_end_at_strokes(name: Seq<char>, rest: Seq<char>)
    requires
        name.len() > 0,
        !name.contains('/'),
        name != seq!['.'],
    ensures
        head_trimmed(name + seq!['/'] + rest) == name + seq!['/'] + rest,
        first_len(name + seq!['/'] + rest) == name.len(),
{
    let s = name + seq!['/'] + rest;
    assert(name.contains(name[0]));
    assert(s[0] == name[0]);
    if s[0] == '.' && s[1] == '/' {
        if name.len() > 1 {
            assert(s[1] == name[1]);
            assert(name.contains('/'));
        }
        assert(name =~= seq!['.']);
    }
    first_stroke_is_found(s, name.len() as int, 0);
}

proof fn first_stroke_is_found(s: Seq<char>, n: int, from: int)
    requires
        0 <= from <= n < s.len(),
        s[n] == '/',
        forall|i: int| 0 <= i < n ==> #[trigger] s[i] != '/',
    ensures
        index_from(s, '/', from) == Some(n),
    decreases n - from,
{
    if from < n {
        assert(s[from] != '/');
        first_stroke_is_found(s, n, from + 1);
    }
}

} // verus!
