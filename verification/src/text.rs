//! Text as sequences of characters: searching, trimming, splitting and joining.

use vstd::prelude::*;
use vstd::utf8::*;

verus! {

/// `String::push` appends the given character to the end of the string.
pub assume_specification[ String::push ](s: &mut String, c: char)
    ensures
        final(s)@ == old(s)@.push(c),
;

/// Whether a character has the Unicode property `White_Space`.
pub uninterp spec fn white_space(c: char) -> bool;

/// `char::is_whitespace` tells whether the character has the Unicode property
/// `White_Space`. Among the ASCII characters these are the space and the
/// control characters from tab to carriage return.
#[verifier::external_body]
pub(crate) fn is_white_space(c: char) -> (r: bool)
    ensures
        r == white_space(c),
        (c as u32) < 128 ==> (r <==> c == ' ' || 9 <= (c as u32) <= 13),
{
    c.is_whitespace()
}

/// Whether a character has one of the Unicode properties `Alphabetic` or `Numeric`.
pub uninterp spec fn alphanumeric(c: char) -> bool;

/// `char::is_alphanumeric` tells whether the character is alphabetic or numeric.
/// Among the ASCII characters these are the letters and the digits.
#[verifier::external_body]
pub(crate) fn is_alphanumeric(c: char) -> (r: bool)
    ensures
        r == alphanumeric(c),
        (c as u32) < 128 ==> (r <==> ('a' <= c <= 'z' || 'A' <= c <= 'Z' || '0' <= c <= '9')),
{
    c.is_alphanumeric()
}

/// The lower case of an ASCII character.
pub open spec fn ascii_lower(c: char) -> char {
    if 'A' <= c <= 'Z' {
        ((c as u8 + 32) as u8) as char
    } else {
        c
    }
}

/// The lower case of a text.
pub uninterp spec fn lower_case(s: Seq<char>) -> Seq<char>;

/// `str::to_lowercase` gives the lower case of a text according to Unicode. For
/// ASCII text it lowers each of the letters from A to Z.
#[verifier::external_body]
pub(crate) fn to_lower(s: &str) -> (r: String)
    ensures
        r@ == lower_case(s@),
        is_ascii_chars(s@) ==> r@ == s@.map_values(|c: char| ascii_lower(c)),
{
    s.to_lowercase()
}

/// The characters of a string, in order.
pub fn chars_of(s: &str) -> (r: Vec<char>)
    ensures
        r@ == s@,
{
    let mut v: Vec<char> = Vec::new();
    for c in it: s.chars()
        invariant
            v@ == it.seq().take(it.index()),
            it.seq() == s@,
    {
        v.push(c);
    }
    v
}

/// The string made of the given characters.
pub fn string_of(v: &[char]) -> (r: String)
    ensures
        r@ == v@,
{
    let mut s = String::new();
    let mut i: usize = 0;
    while i < v.len()
        invariant
            i <= v.len(),
            s@ == v@.take(i as int),
        decreases v.len() - i,
    {
        s.push(v[i]);
        i += 1;
    }
    s
}

/// Whether two strings hold the same characters.
pub fn str_eq(a: &str, b: &str) -> (r: bool)
    ensures
        r == (a@ == b@),
{
    let x = a.as_bytes();
    let y = b.as_bytes();
    proof {
        encode_utf8_decode_utf8(a@);
        encode_utf8_decode_utf8(b@);
    }
    if x.len() != y.len() {
        return false;
    }
    let mut i: usize = 0;
    while i < x.len()
        invariant
            i <= x.len(),
            x.len() == y.len(),
            x@.take(i as int) == y@.take(i as int),
            x@ == encode_utf8(a@),
            y@ == encode_utf8(b@),
        decreases x.len() - i,
    {
        if x[i] != y[i] {
            return false;
        }
        i += 1;
    }
    assert(x@.take(i as int) == x@);
    assert(y@.take(i as int) == y@);
    true
}

/// Whether `p` stands in `s` at position `i`.
pub open spec fn occurs_at(s: Seq<char>, p: Seq<char>, i: int) -> bool {
    0 <= i && i + p.len() <= s.len() && s.subrange(i, i + p.len()) == p
}

/// Whether `p` stands anywhere in `s`.
pub open spec fn contains_text(s: Seq<char>, p: Seq<char>) -> bool {
    exists|i: int| #[trigger] occurs_at(s, p, i)
}

/// Whether `s` begins with `p`.
pub open spec fn has_prefix(s: Seq<char>, p: Seq<char>) -> bool {
    occurs_at(s, p, 0)
}

/// Whether `s` ends with `p`.
pub open spec fn has_suffix(s: Seq<char>, p: Seq<char>) -> bool {
    occurs_at(s, p, s.len() - p.len())
}

/// The first position at or after `from` at which `p` stands in `s`.
pub open spec fn find_from(s: Seq<char>, p: Seq<char>, from: int) -> Option<int>
    decreases s.len() - from,
{
    if from < 0 || from + p.len() > s.len() {
        None
    } else if occurs_at(s, p, from) {
        Some(from)
    } else if from >= s.len() {
        None
    } else {
        find_from(s, p, from + 1)
    }
}

/// `find_from` gives the least position, and none exactly where there is none.
pub proof fn find_from_is_least(s: Seq<char>, p: Seq<char>, from: int)
    requires
        0 <= from,
    ensures
        find_from(s, p, from) matches Some(i) ==> from <= i && occurs_at(s, p, i),
        find_from(s, p, from) matches Some(i) ==> forall|j: int|
            from <= j < i ==> !#[trigger] occurs_at(s, p, j),
        find_from(s, p, from) is None ==> forall|j: int| from <= j ==> !#[trigger] occurs_at(s, p, j),
    decreases s.len() - from,
{
    if from + p.len() <= s.len() && !occurs_at(s, p, from) && from < s.len() {
        find_from_is_least(s, p, from + 1);
    }
}

/// A text contains another exactly where searching from the front finds it.
pub proof fn contains_iff_found(s: Seq<char>, p: Seq<char>)
    ensures
        contains_text(s, p) <==> find_from(s, p, 0) is Some,
{
    find_from_is_least(s, p, 0);
    if find_from(s, p, 0) is Some {
        assert(occurs_at(s, p, find_from(s, p, 0)->0));
    }
}

/// Whether `p` stands in `s` at position `i`.
pub fn matches_at(s: &[char], p: &[char], i: usize) -> (r: bool)
    ensures
        r == occurs_at(s@, p@, i as int),
{
    if i > s.len() || p.len() > s.len() - i {
        return false;
    }
    let mut k: usize = 0;
    while k < p.len()
        invariant
            k <= p.len(),
            i + p.len() <= s.len(),
            s@.subrange(i as int, i + k) == p@.take(k as int),
        decreases p.len() - k,
    {
        if s[i + k] != p[k] {
            assert(s@.subrange(i as int, i + p.len())[k as int] == s@[i + k]);
            return false;
        }
        k += 1;
        assert(s@.subrange(i as int, i + k) == s@.subrange(i as int, i + k - 1).push(s@[i + k - 1]));
    }
    assert(p@.take(k as int) == p@);
    true
}

/// The first position at or after `from` at which `p` stands in `s`.
pub fn find_in(s: &[char], p: &[char], from: usize) -> (r: Option<usize>)
    ensures
        match r {
            Some(i) => find_from(s@, p@, from as int) == Some(i as int) && i + p@.len() <= s@.len(),
            None => find_from(s@, p@, from as int) is None,
        },
{
    let mut i: usize = from;
    while i <= s.len() && p.len() <= s.len() - i
        invariant
            from <= i,
            find_from(s@, p@, from as int) == find_from(s@, p@, i as int),
        decreases s.len() + 1 - i,
    {
        if matches_at(s, p, i) {
            return Some(i);
        }
        if i == s.len() {
            return None;
        }
        i += 1;
    }
    None
}

/// Whether `s` contains `p`.
pub fn contains(s: &str, p: &str) -> (r: bool)
    ensures
        r == contains_text(s@, p@),
{
    let a = chars_of(s);
    let b = chars_of(p);
    proof {
        contains_iff_found(s@, p@);
    }
    find_in(&a, &b, 0).is_some()
}

/// Whether `s` begins with `p`.
pub fn starts_with(s: &str, p: &str) -> (r: bool)
    ensures
        r == has_prefix(s@, p@),
{
    let a = chars_of(s);
    let b = chars_of(p);
    matches_at(&a, &b, 0)
}

/// Whether `s` ends with `p`.
pub fn ends_with(s: &str, p: &str) -> (r: bool)
    ensures
        r == has_suffix(s@, p@),
{
    let a = chars_of(s);
    let b = chars_of(p);
    if b.len() > a.len() {
        return false;
    }
    matches_at(&a, &b, a.len() - b.len())
}

/// The parts in order, with `sep` between neighbours.
pub open spec fn joined(parts: Seq<Seq<char>>, sep: Seq<char>) -> Seq<char>
    decreases parts.len(),
{
    if parts.len() == 0 {
        Seq::empty()
    } else if parts.len() == 1 {
        parts[0]
    } else {
        joined(parts.drop_last(), sep) + sep + parts.last()
    }
}

/// Joins the parts in order, with `sep` between neighbours.
pub fn join(parts: &Vec<String>, sep: &str) -> (r: String)
    ensures
        r@ == joined(parts.deep_view(), sep@),
{
    let mut out = String::new();
    let mut i: usize = 0;
    while i < parts.len()
        invariant
            i <= parts.len(),
            out@ == joined(parts.deep_view().take(i as int), sep@),
        decreases parts.len() - i,
    {
        if i > 0 {
            out.append(sep);
        }
        out.append(parts[i].as_str());
        proof {
            let done = parts.deep_view().take(i as int);
            let next = parts.deep_view().take(i + 1);
            assert(next.drop_last() == done);
            assert(next.last() == parts@[i as int]@);
            if i == 0 {
                assert(out@ == next[0]);
            }
        }
        i += 1;
    }
    assert(parts.deep_view().take(i as int) == parts.deep_view());
    out
}

/// Length of a text in bytes of UTF-8.
pub open spec fn byte_len(s: Seq<char>) -> nat {
    encode_utf8(s).len()
}

/// Length of a text in bytes of UTF-8.
pub fn len_bytes(s: &str) -> (r: usize)
    ensures
        r == byte_len(s@),
{
    s.as_bytes().len()
}

/// Whether byte position `n` of a text lies between two of its characters or at an end.
pub open spec fn on_boundary(s: Seq<char>, n: int) -> bool {
    is_char_boundary(encode_utf8(s), n)
}

/// The characters that stand between two byte positions of a text.
pub open spec fn between_bytes(s: Seq<char>, a: int, b: int) -> Seq<char> {
    decode_utf8(encode_utf8(s).subrange(a, b))
}

/// The characters of `s` between the byte positions `a` and `b`.
pub fn byte_slice(s: &str, a: usize, b: usize) -> (r: &str)
    requires
        a <= b,
        on_boundary(s@, a as int),
        on_boundary(s@, b as int),
    ensures
        r@ == between_bytes(s@, a as int, b as int),
        encode_utf8(r@) == encode_utf8(s@).subrange(a as int, b as int),
{
    let ghost all = encode_utf8(s@);
    proof {
        encode_utf8_valid_utf8(s@);
        boundary_in_range(s@, b as int);
        valid_utf8_split(all, b as int);
        let head = all.subrange(0, b as int);
        if a == b {
            is_char_boundary_start_end_of_seq(head);
        } else {
            is_char_boundary_iff_not_is_continuation_byte(all, a as int);
            is_char_boundary_iff_not_is_continuation_byte(head, a as int);
        }
    }
    let head = s.split_at(b).0;
    let r = head.split_at(a).1;
    proof {
        assert(encode_utf8(r@) == all.subrange(0, b as int).subrange(a as int, b as int));
        assert(all.subrange(0, b as int).subrange(a as int, b as int) == all.subrange(
            a as int,
            b as int,
        ));
        encode_utf8_decode_utf8(r@);
    }
    r
}

/// A boundary lies within the text, and both ends of a text are boundaries.
pub proof fn boundary_in_range(s: Seq<char>, n: int)
    ensures
        on_boundary(s, n) ==> 0 <= n <= byte_len(s),
        on_boundary(s, 0),
        on_boundary(s, byte_len(s) as int),
{
    encode_utf8_valid_utf8(s);
    is_char_boundary_start_end_of_seq(encode_utf8(s));
}

/// In a text of ASCII each position counts one byte.
pub proof fn ascii_positions(s: Seq<char>, n: int)
    requires
        is_ascii_chars(s),
        0 <= n <= s.len(),
    ensures
        byte_len(s) == s.len(),
        on_boundary(s, n),
        between_bytes(s, 0, n) == s.take(n),
{
    let head = s.take(n);
    is_ascii_chars_encode_utf8(s);
    is_ascii_chars_concat(s, head, s.skip(n));
    is_ascii_chars_encode_utf8(head);
    encode_utf8_valid_utf8(s);
    encode_utf8_decode_utf8(head);
    assert forall|i: int| 0 <= i < n implies encode_utf8(s)[i] == encode_utf8(head)[i] by {
        assert(s[i] == head[i]);
        assert(s[i] as u8 == encode_utf8(s)[i]);
        assert(head[i] as u8 == encode_utf8(head)[i]);
    }
    assert(encode_utf8(s).subrange(0, n) =~= encode_utf8(head));
    if n == s.len() {
        is_char_boundary_start_end_of_seq(encode_utf8(s));
    } else {
        is_ascii_chars_nat_bound(s);
        assert(encode_utf8(s)[n] == s[n] as u8);
        assert((s[n] as nat) < 128);
        is_char_boundary_iff_not_is_continuation_byte(encode_utf8(s), n);
    }
}

/// The bytes of a text are those of its two parts.
pub proof fn bytes_add_up(a: Seq<char>, b: Seq<char>)
    ensures
        encode_utf8(a + b) == encode_utf8(a) + encode_utf8(b),
        byte_len(a + b) == byte_len(a) + byte_len(b),
    decreases a.len(),
{
    if a.len() == 0 {
        assert(a + b =~= b);
        assert(encode_utf8(a) + encode_utf8(b) =~= encode_utf8(b));
    } else {
        bytes_add_up(a.drop_first(), b);
        assert((a + b).drop_first() =~= a.drop_first() + b);
        assert((a + b)[0] == a[0]);
        assert(encode_utf8(a + b) =~= encode_utf8(a) + encode_utf8(b));
    }
}

/// The text without the white space at its beginning.
pub open spec fn trimmed_start(s: Seq<char>) -> Seq<char>
    decreases s.len(),
{
    if s.len() > 0 && white_space(s[0]) {
        trimmed_start(s.skip(1))
    } else {
        s
    }
}

/// The text without the white space at its end.
pub open spec fn trimmed_end(s: Seq<char>) -> Seq<char>
    decreases s.len(),
{
    if s.len() > 0 && white_space(s.last()) {
        trimmed_end(s.drop_last())
    } else {
        s
    }
}

/// The text without the white space at either end.
pub open spec fn trimmed(s: Seq<char>) -> Seq<char> {
    trimmed_end(trimmed_start(s))
}

proof fn trimmed_start_first(s: Seq<char>)
    ensures
        trimmed_start(s).len() > 0 ==> !white_space(trimmed_start(s)[0]),
    decreases s.len(),
{
    if s.len() > 0 && white_space(s[0]) {
        trimmed_start_first(s.skip(1));
    }
}

proof fn trimmed_end_last(s: Seq<char>)
    ensures
        trimmed_end(s).len() > 0 ==> !white_space(trimmed_end(s).last()),
        trimmed_end(s).len() > 0 ==> trimmed_end(s)[0] == s[0],
        trimmed_end(s).len() <= s.len(),
        trimmed_end(trimmed_end(s)) == trimmed_end(s),
    decreases s.len(),
{
    if s.len() > 0 && white_space(s.last()) {
        trimmed_end_last(s.drop_last());
    }
}

/// The text without the white space at its beginning.
pub fn trim_start(s: &str) -> (r: String)
    ensures
        r@ == trimmed_start(s@),
{
    let v = chars_of(s);
    let mut i: usize = 0;
    assert(v@.skip(0) == v@);
    while i < v.len()
        invariant_except_break
            trimmed_start(v@.skip(i as int)) == trimmed_start(v@),
        invariant
            i <= v.len(),
        ensures
            v@.skip(i as int) == trimmed_start(v@),
        decreases v.len() - i,
    {
        if !is_white_space(v[i]) {
            break;
        }
        assert(v@.skip(i as int).skip(1) == v@.skip(i + 1));
        i += 1;
    }
    string_of(vstd::slice::slice_subrange(v.as_slice(), i, v.len()))
}

/// The text without the white space at its end.
pub fn trim_end(s: &str) -> (r: String)
    ensures
        r@ == trimmed_end(s@),
{
    let v = chars_of(s);
    let mut n: usize = v.len();
    assert(v@.take(n as int) == v@);
    while n > 0
        invariant_except_break
            trimmed_end(v@.take(n as int)) == trimmed_end(v@),
        invariant
            n <= v.len(),
        ensures
            v@.take(n as int) == trimmed_end(v@),
        decreases n,
    {
        if !is_white_space(v[n - 1]) {
            break;
        }
        assert(v@.take(n as int).drop_last() == v@.take(n - 1));
        n -= 1;
    }
    string_of(vstd::slice::slice_subrange(v.as_slice(), 0, n))
}

/// The text without the white space at either end.
pub fn trim(s: &str) -> (r: String)
    ensures
        r@ == trimmed(s@),
{
    let a = trim_start(s);
    trim_end(a.as_str())
}

/// The first position at or after `from` at which `c` stands in `s`.
pub open spec fn index_from(s: Seq<char>, c: char, from: int) -> Option<int>
    decreases s.len() - from,
{
    if from < 0 || from >= s.len() {
        None
    } else if s[from] == c {
        Some(from)
    } else {
        index_from(s, c, from + 1)
    }
}

/// The last position before `end` at which `c` stands in `s`.
pub open spec fn last_index_before(s: Seq<char>, c: char, end: int) -> Option<int>
    decreases end,
{
    if end <= 0 || end > s.len() {
        None
    } else if s[end - 1] == c {
        Some(end - 1)
    } else {
        last_index_before(s, c, end - 1)
    }
}

/// The first position at or after `from` at which `c` stands in `s`.
pub fn find_char(s: &[char], c: char, from: usize) -> (r: Option<usize>)
    ensures
        match r {
            Some(i) => index_from(s@, c, from as int) == Some(i as int) && from <= i < s@.len()
                && s@[i as int] == c && (forall|j: int| from <= j < i ==> s@[j] != c),
            None => index_from(s@, c, from as int) is None && (forall|j: int|
                from <= j < s@.len() ==> s@[j] != c),
        },
{
    let mut i: usize = from;
    while i < s.len()
        invariant
            from <= i,
            index_from(s@, c, from as int) == index_from(s@, c, i as int),
            forall|j: int| from <= j < i && j < s@.len() ==> s@[j] != c,
        decreases s.len() - i,
    {
        if s[i] == c {
            return Some(i);
        }
        i += 1;
    }
    None
}

/// The last position before `end` at which `c` stands in `s`.
pub fn rfind_char(s: &[char], c: char, end: usize) -> (r: Option<usize>)
    requires
        end <= s@.len(),
    ensures
        match r {
            Some(i) => last_index_before(s@, c, end as int) == Some(i as int) && i < end
                && s@[i as int] == c && (forall|j: int| i < j < end ==> s@[j] != c),
            None => last_index_before(s@, c, end as int) is None && (forall|j: int|
                0 <= j < end ==> s@[j] != c),
        },
{
    let mut i: usize = end;
    while i > 0
        invariant
            i <= end <= s@.len(),
            last_index_before(s@, c, end as int) == last_index_before(s@, c, i as int),
            forall|j: int| i <= j < end ==> s@[j] != c,
        decreases i,
    {
        if s[i - 1] == c {
            return Some(i - 1);
        }
        i -= 1;
    }
    None
}

/// The pieces between the occurrences of `c`: one more than there are occurrences.
pub open spec fn pieces(s: Seq<char>, c: char) -> Seq<Seq<char>>
    decreases s.len(),
{
    match index_from(s, c, 0) {
        Some(i) if 0 <= i < s.len() => seq![s.take(i)] + pieces(s.skip(i + 1), c),
        _ => seq![s],
    }
}

proof fn index_in_front(p: Seq<char>, q: Seq<char>, c: char, from: int)
    requires
        0 <= from < p.len(),
        p.last() == c,
    ensures
        index_from(p + q, c, from) == index_from(p, c, from),
        index_from(p, c, from) matches Some(i) && from <= i < p.len(),
    decreases p.len() - from,
{
    assert((p + q)[from] == p[from]);
    if p[from] != c {
        index_in_front(p, q, c, from + 1);
    }
}

/// Where a text ends with a mark, the pieces of a longer text are those of the
/// two parts, one after the other.
pub proof fn pieces_add_up(p: Seq<char>, q: Seq<char>, c: char)
    requires
        p.len() == 0 || p.last() == c,
    ensures
        pieces(p + q, c) == pieces(p, c).drop_last() + pieces(q, c),
    decreases p.len(),
{
    if p.len() == 0 {
        assert(p + q =~= q);
        assert(pieces(p, c).drop_last() + pieces(q, c) =~= pieces(q, c));
    } else {
        index_in_front(p, q, c, 0);
        let i = index_from(p, c, 0)->0;
        let rest = p.skip(i + 1);
        assert((p + q).take(i) =~= p.take(i));
        assert((p + q).skip(i + 1) =~= rest + q);
        if rest.len() > 0 {
            assert(rest.last() == p.last());
        }
        pieces_add_up(rest, q, c);
        pieces_are_some(rest, c);
        assert(pieces(p, c).drop_last() =~= seq![p.take(i)] + pieces(rest, c).drop_last());
        assert(pieces(p + q, c) =~= pieces(p, c).drop_last() + pieces(q, c));
    }
}

/// A text has at least one piece.
pub proof fn pieces_are_some(s: Seq<char>, c: char)
    ensures
        pieces(s, c).len() > 0,
    decreases s.len(),
{
    match index_from(s, c, 0) {
        Some(i) if 0 <= i < s.len() => {
            pieces_are_some(s.skip(i + 1), c);
        },
        _ => {},
    }
}

/// The last piece of a text that ends with a mark is empty.
pub proof fn last_piece_is_empty(s: Seq<char>, c: char)
    requires
        s.len() == 0 || s.last() == c,
    ensures
        pieces(s, c).last() == Seq::<char>::empty(),
    decreases s.len(),
{
    if s.len() > 0 {
        index_in_front(s, Seq::empty(), c, 0);
        let i = index_from(s, c, 0)->0;
        let rest = s.skip(i + 1);
        if rest.len() > 0 {
            assert(rest.last() == s.last());
        }
        last_piece_is_empty(rest, c);
        pieces_are_some(rest, c);
    }
}

/// A text with one text put in the place of another, wherever that stands, from
/// the front on.
pub open spec fn replaced(s: Seq<char>, from: Seq<char>, to: Seq<char>) -> Seq<char>
    decreases s.len(),
{
    match find_from(s, from, 0) {
        Some(i) if 0 <= i && from.len() > 0 && i + from.len() <= s.len() => s.take(i) + to
            + replaced(s.skip(i + from.len()), from, to),
        _ => s,
    }
}

/// A text with one text, which is not empty, put in the place of another.
pub fn replace_all(s: &str, from: &str, to: &str) -> (r: String)
    requires
        from@.len() > 0,
    ensures
        r@ == replaced(s@, from@, to@),
{
    let v = chars_of(s);
    let p = chars_of(from);
    let mut out = String::new();
    let mut pos: usize = 0;
    assert(v@.skip(0) =~= v@);
    assert(out@ + replaced(v@, p@, to@) =~= replaced(v@, p@, to@));
    loop
        invariant_except_break
            out@ + replaced(v@.skip(pos as int), p@, to@) == replaced(v@, p@, to@),
        invariant
            pos <= v.len(),
            v@ == s@,
            p@ == from@,
            p@.len() > 0,
        ensures
            out@ == replaced(v@, p@, to@),
        decreases v.len() - pos,
    {
        let rest = vstd::slice::slice_subrange(v.as_slice(), pos, v.len());
        assert(rest@ =~= v@.skip(pos as int));
        let ghost before = out@;
        match find_in(rest, p.as_slice(), 0) {
            Some(i) => {
                out.append(string_of(vstd::slice::slice_subrange(rest, 0, i)).as_str());
                out.append(to);
                proof {
                    assert(rest@.take(i as int) =~= rest@.subrange(0, i as int));
                    assert(rest@.skip(i + p@.len()) =~= v@.skip(pos + i + p@.len()));
                    let tail = replaced(rest@.skip(i + p@.len()), p@, to@);
                    assert(replaced(rest@, p@, to@) == rest@.take(i as int) + to@ + tail);
                    assert(before + (rest@.take(i as int) + to@ + tail) =~= before + rest@.take(
                        i as int,
                    ) + to@ + tail);
                }
                pos = pos + i + p.len();
            },
            None => {
                out.append(string_of(rest).as_str());
                assert(replaced(rest@, p@, to@) == rest@);
                break;
            },
        }
    }
    out
}

/// Splits a text at each `c`.
pub fn split(s: &str, c: char) -> (r: Vec<String>)
    ensures
        r.deep_view() == pieces(s@, c),
{
    let v = chars_of(s);
    let mut out: Vec<String> = Vec::new();
    let mut pos: usize = 0;
    assert(v@.skip(0) == v@);
    loop
        invariant_except_break
            out.deep_view() + pieces(v@.skip(pos as int), c) == pieces(v@, c),
        invariant
            pos <= v.len(),
            v@ == s@,
        ensures
            out.deep_view() == pieces(v@, c),
        decreases v.len() - pos,
    {
        let rest = vstd::slice::slice_subrange(v.as_slice(), pos, v.len());
        assert(rest@ == v@.skip(pos as int));
        let ghost before = out.deep_view();
        match find_char(rest, c, 0) {
            Some(i) => {
                out.push(string_of(vstd::slice::slice_subrange(rest, 0, i)));
                assert(out.deep_view() == before.push(rest@.take(i as int)));
                assert(rest@.skip(i + 1) == v@.skip(pos + i + 1));
                assert(out.deep_view() + pieces(rest@.skip(i + 1), c) == before + pieces(rest@, c));
                pos = pos + i + 1;
            },
            None => {
                out.push(string_of(rest));
                assert(out.deep_view() == before.push(rest@));
                assert(pieces(rest@, c) == seq![rest@]);
                break;
            },
        }
    }
    out
}

/// A line without the carriage return at its end.
pub open spec fn without_cr(s: Seq<char>) -> Seq<char> {
    if s.len() > 0 && s.last() == '\r' {
        s.drop_last()
    } else {
        s
    }
}

/// The lines of a text. A line ends at a line feed, with or without a carriage
/// return before it; the last line may do without.
pub open spec fn lines_of(s: Seq<char>) -> Seq<Seq<char>>
    decreases s.len(),
{
    if s.len() == 0 {
        Seq::empty()
    } else {
        match index_from(s, '\n', 0) {
            Some(i) if 0 <= i < s.len() => seq![without_cr(s.take(i))] + lines_of(s.skip(i + 1)),
            _ => seq![s],
        }
    }
}

/// The lines of a text.
pub fn lines(s: &str) -> (r: Vec<String>)
    ensures
        r.deep_view() == lines_of(s@),
{
    let v = chars_of(s);
    let mut out: Vec<String> = Vec::new();
    let mut pos: usize = 0;
    assert(v@.skip(0) == v@);
    while pos < v.len()
        invariant
            out.deep_view() + lines_of(v@.skip(pos as int)) == lines_of(v@),
            pos <= v.len(),
            v@ == s@,
        decreases v.len() - pos,
    {
        let rest = vstd::slice::slice_subrange(v.as_slice(), pos, v.len());
        assert(rest@ == v@.skip(pos as int));
        let ghost before = out.deep_view();
        match find_char(rest, '\n', 0) {
            Some(i) => {
                let end: usize = if i > 0 && rest[i - 1] == '\r' {
                    i - 1
                } else {
                    i
                };
                assert(without_cr(rest@.take(i as int)) == rest@.take(end as int));
                out.push(string_of(vstd::slice::slice_subrange(rest, 0, end)));
                assert(out.deep_view() == before.push(rest@.take(end as int)));
                assert(rest@.skip(i + 1) == v@.skip(pos + i + 1));
                assert(out.deep_view() + lines_of(rest@.skip(i + 1)) == before + lines_of(rest@));
                pos = pos + i + 1;
            },
            None => {
                out.push(string_of(rest));
                assert(out.deep_view() == before.push(rest@));
                assert(lines_of(rest@) == seq![rest@]);
                pos = v.len();
                assert(v@.skip(pos as int) == Seq::<char>::empty());
                assert(out.deep_view() + lines_of(v@.skip(pos as int)) == out.deep_view());
            },
        }
    }
    assert(v@.skip(pos as int) == Seq::<char>::empty());
    assert(out.deep_view() + lines_of(v@.skip(pos as int)) == out.deep_view());
    out
}

/// The number of characters before the first white space.
pub open spec fn word_len(s: Seq<char>) -> nat
    decreases s.len(),
{
    if s.len() == 0 || white_space(s[0]) {
        0
    } else {
        1 + word_len(s.skip(1))
    }
}

/// The characters before the first white space.
pub open spec fn first_word(s: Seq<char>) -> Seq<char> {
    s.take(word_len(s) as int)
}

/// The characters before the first white space.
pub fn leading_word(s: &str) -> (r: String)
    ensures
        r@ == first_word(s@),
{
    let v = chars_of(s);
    let mut i: usize = 0;
    assert(v@.skip(0) == v@);
    while i < v.len()
        invariant_except_break
            word_len(v@) == i + word_len(v@.skip(i as int)),
        invariant
            i <= v.len(),
        ensures
            i == word_len(v@),
        decreases v.len() - i,
    {
        if is_white_space(v[i]) {
            break;
        }
        assert(v@.skip(i as int).skip(1) == v@.skip(i + 1));
        i += 1;
    }
    string_of(vstd::slice::slice_subrange(v.as_slice(), 0, i))
}

/// The elements of a vector in the opposite order.
pub fn reversed<T>(v: Vec<T>) -> (r: Vec<T>)
    ensures
        r@ == v@.reverse(),
{
    let ghost all = v@;
    let mut rest = v;
    let mut out: Vec<T> = Vec::new();
    while rest.len() > 0
        invariant
            rest@.len() <= all.len(),
            rest@ == all.take(rest@.len() as int),
            out@ == all.skip(rest@.len() as int).reverse(),
        decreases rest.len(),
    {
        let ghost n = rest@.len() as int;
        match rest.pop() {
            Some(x) => {
                out.push(x);
                assert(all.skip(n - 1).reverse() == all.skip(n).reverse().push(x));
            },
            None => {},
        }
    }
    assert(all.skip(0) == all);
    out
}

/// The character of a decimal digit.
pub open spec fn digit(d: nat) -> char {
    (48 + d) as char
}

/// The decimal notation of a natural number.
pub open spec fn decimal(n: nat) -> Seq<char>
    decreases n,
{
    if n < 10 {
        seq![digit(n)]
    } else {
        decimal(n / 10).push(digit(n % 10))
    }
}

/// The decimal notation of an integer.
pub open spec fn signed_decimal(n: int) -> Seq<char> {
    if n < 0 {
        seq!['-'] + decimal((-n) as nat)
    } else {
        decimal(n as nat)
    }
}

fn digit_char(d: u8) -> (r: char)
    requires
        d < 10,
    ensures
        r == digit(d as nat),
{
    (48u8 + d) as char
}

/// The decimal notation of a natural number.
pub fn decimal_of(n: u64) -> (r: String)
    ensures
        r@ == decimal(n as nat),
{
    let mut rest: u64 = n;
    let mut out: Vec<char> = Vec::new();
    while rest >= 10
        invariant
            decimal(rest as nat) + out@.reverse() == decimal(n as nat),
        decreases rest,
    {
        let ghost before = out@;
        let c = digit_char((rest % 10) as u8);
        out.push(c);
        assert(decimal(rest as nat) == decimal((rest / 10) as nat).push(c));
        assert(out@.reverse() == seq![c] + before.reverse());
        assert(decimal(rest as nat) + before.reverse() == decimal((rest / 10) as nat) + (seq![c]
            + before.reverse()));
        rest = rest / 10;
    }
    let ghost before = out@;
    let c = digit_char(rest as u8);
    out.push(c);
    assert(out@.reverse() == seq![c] + before.reverse());
    string_of(reversed(out).as_slice())
}

/// The decimal notation of an integer.
pub fn signed_decimal_of(n: i64) -> (r: String)
    ensures
        r@ == signed_decimal(n as int),
{
    if n >= 0 {
        decimal_of(n as u64)
    } else {
        let magnitude: u64 = ((-(n as i128)) as i128) as u64;
        let mut out = String::new();
        out.push('-');
        out.append(decimal_of(magnitude).as_str());
        assert(out@ == seq!['-'] + decimal((-n) as nat));
        out
    }
}

/// A text begins with another where the other is its first signs, and ends with it where
/// it is its last.
pub proof fn beginnings_and_ends(s: Seq<char>, p: Seq<char>, q: Seq<char>)
    ensures
        has_prefix(p + q, p),
        has_suffix(p + q, q),
        has_prefix(s, p) ==> s.len() >= p.len() && s == p + s.skip(p.len() as int),
        has_suffix(s, p) ==> s.len() >= p.len() && s == s.take(s.len() - p.len()) + p,
{
    let t = p + q;
    assert(t.subrange(0, p.len() as int) =~= p);
    assert(t.subrange(t.len() - q.len(), t.len() as int) =~= q);
    if has_prefix(s, p) {
        assert(s =~= s.subrange(0, p.len() as int) + s.skip(p.len() as int));
    }
    if has_suffix(s, p) {
        let n = s.len() - p.len();
        assert(s =~= s.take(n) + s.subrange(n, n + p.len()));
    }
}

/// A text holds another wherever it stands in it.
pub proof fn texts_hold_their_parts(before: Seq<char>, p: Seq<char>, after: Seq<char>)
    ensures
        contains_text(before + p + after, p),
{
    let s = before + p + after;
    assert(s.subrange(before.len() as int, before.len() + p.len() as int) =~= p);
    assert(occurs_at(s, p, before.len() as int));
}

/// Trimming takes the blanks from both ends and nothing else.
pub proof fn trimming_takes_blanks_only(s: Seq<char>) -> (n: (int, int))
    ensures
        0 <= n.0 <= n.1 <= s.len(),
        trimmed(s) == s.subrange(n.0, n.1),
        forall|i: int| 0 <= i < n.0 ==> white_space(#[trigger] s[i]),
        forall|i: int| n.1 <= i < s.len() ==> white_space(#[trigger] s[i]),
        n.0 < n.1 ==> !white_space(s[n.0]) && !white_space(s[n.1 - 1]),
{
    let a = leading_blanks(s);
    let t = trimmed_start(s);
    let b = trailing_blanks(t);
    let r = s.subrange(a, a + b);
    assert(trimmed(s) =~= r);
    assert forall|i: int| a + b <= i < s.len() implies white_space(#[trigger] s[i]) by {
        assert(t[i - a] == s[i]);
    }
    if b > 0 {
        assert(t[0] == s[a]);
        assert(t[b - 1] == s[a + b - 1]);
    }
    (a, a + b)
}

proof fn leading_blanks(s: Seq<char>) -> (a: int)
    ensures
        0 <= a <= s.len(),
        trimmed_start(s) == s.skip(a),
        forall|i: int| 0 <= i < a ==> white_space(#[trigger] s[i]),
        a < s.len() ==> !white_space(s[a]),
    decreases s.len(),
{
    if s.len() > 0 && white_space(s[0]) {
        let rest = s.skip(1);
        let a = leading_blanks(rest);
        assert(rest.skip(a) =~= s.skip(a + 1));
        assert forall|i: int| 0 <= i < a + 1 implies white_space(#[trigger] s[i]) by {
            if i > 0 {
                assert(rest[i - 1] == s[i]);
            }
        }
        a + 1
    } else {
        assert(s.skip(0) =~= s);
        0
    }
}

proof fn trailing_blanks(s: Seq<char>) -> (b: int)
    ensures
        0 <= b <= s.len(),
        trimmed_end(s) == s.take(b),
        forall|i: int| b <= i < s.len() ==> white_space(#[trigger] s[i]),
        b > 0 ==> !white_space(s[b - 1]),
    decreases s.len(),
{
    if s.len() > 0 && white_space(s.last()) {
        let rest = s.drop_last();
        let b = trailing_blanks(rest);
        assert(rest.take(b) =~= s.take(b));
        assert forall|i: int| b <= i < s.len() implies white_space(#[trigger] s[i]) by {
            if i < rest.len() {
                assert(rest[i] == s[i]);
            }
        }
        b
    } else {
        assert(s.take(s.len() as int) =~= s);
        s.len() as int
    }
}

/// Joined parts stand in their order, with the separator between them and nowhere else.
pub proof fn parts_are_joined_in_order(parts: Seq<Seq<char>>, part: Seq<char>, sep: Seq<char>)
    ensures
        joined(Seq::empty(), sep).len() == 0,
        joined(seq![part], sep) == part,
        parts.len() > 0 ==> joined(parts.push(part), sep) == joined(parts, sep) + sep + part,
{
    assert(parts.push(part).drop_last() =~= parts);
}

/// A text is the join of its pieces, and no piece holds the sign it was split at.
pub proof fn splitting_and_joining(s: Seq<char>, c: char)
    ensures
        joined(pieces(s, c), seq![c]) == s,
        forall|i: int| 0 <= i < pieces(s, c).len() ==> !(#[trigger] pieces(s, c)[i]).contains(c),
    decreases s.len(),
{
    the_first_sign_is_found(s, c, 0);
    match index_from(s, c, 0) {
        Some(i) => {
            let rest = s.skip(i + 1);
            splitting_and_joining(rest, c);
            pieces_are_some(rest, c);
            let more = pieces(rest, c);
            assert(pieces(s, c) =~= seq![s.take(i)] + more);
            joined_from_the_front(s.take(i), more, seq![c]);
            assert(s =~= s.take(i) + seq![c] + rest);
            assert forall|k: int| 0 <= k < pieces(s, c).len() implies !(#[trigger] pieces(
                s,
                c,
            )[k]).contains(c) by {
                if k > 0 {
                    assert(pieces(s, c)[k] == more[k - 1]);
                }
            }
        },
        None => {
            assert(joined(seq![s], seq![c]) == s);
        },
    }
}

proof fn the_first_sign_is_found(s: Seq<char>, c: char, from: int)
    requires
        0 <= from,
    ensures
        match index_from(s, c, from) {
            Some(i) => from <= i < s.len() && s[i] == c && forall|j: int|
                from <= j < i ==> #[trigger] s[j] != c,
            None => forall|j: int| from <= j < s.len() ==> #[trigger] s[j] != c,
        },
    decreases s.len() - from,
{
    if from < s.len() && s[from] != c {
        the_first_sign_is_found(s, c, from + 1);
    }
}

proof fn joined_from_the_front(first: Seq<char>, more: Seq<Seq<char>>, sep: Seq<char>)
    requires
        more.len() > 0,
    ensures
        joined(seq![first] + more, sep) == first + sep + joined(more, sep),
    decreases more.len(),
{
    let all = seq![first] + more;
    if more.len() == 1 {
        assert(all.drop_last() =~= seq![first]);
        assert(joined(seq![first], sep) == first);
    } else {
        joined_from_the_front(first, more.drop_last(), sep);
        assert(all.drop_last() =~= seq![first] + more.drop_last());
        assert(joined(all, sep) =~= first + sep + joined(more, sep));
    }
}

/// A line ends at the first line end, with a carriage return before it dropped, and the
/// rest are the lines of the rest.
pub proof fn lines_end_at_line_ends(line: Seq<char>, rest: Seq<char>)
    requires
        !line.contains('\n'),
    ensures
        lines_of(line.push('\n') + rest) == seq![
            if line.len() > 0 && line.last() == '\r' {
                line.drop_last()
            } else {
                line
            },
        ] + lines_of(rest),
        line.len() > 0 ==> lines_of(line) == seq![line],
        lines_of(Seq::empty()).len() == 0,
{
    let s = line.push('\n') + rest;
    the_first_sign_is_found(s, '\n', 0);
    the_first_sign_is_found(line, '\n', 0);
    assert(s[line.len() as int] == '\n');
    assert forall|j: int| 0 <= j < line.len() implies #[trigger] s[j] != '\n' by {
        assert(s[j] == line[j]);
    }
    assert(index_from(s, '\n', 0) == Some(line.len() as int));
    assert(s.take(line.len() as int) =~= line);
    assert(s.skip(line.len() as int + 1) =~= rest);
}

/// A number is written with its digits, the last standing for its remainder by ten.
pub proof fn numbers_are_written_with_digits(n: nat)
    ensures
        decimal(n).len() > 0,
        decimal(n).last() == (48 + n % 10) as char,
        n >= 10 ==> decimal(n).drop_last() == decimal(n / 10),
        n < 10 ==> decimal(n).len() == 1,
        signed_decimal(n as int) == decimal(n),
        n > 0 ==> signed_decimal(-(n as int)) == seq!['-'] + decimal(n),
{
}

/// Replacing leaves a text alone that does not hold what is replaced.
pub proof fn nothing_is_replaced_that_is_not_there(s: Seq<char>, from: Seq<char>, to: Seq<char>)
    ensures
        !contains_text(s, from) ==> replaced(s, from, to) == s,
{
    contains_iff_found(s, from);
}

} // verus!
