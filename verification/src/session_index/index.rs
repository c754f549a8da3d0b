//! What is known of the sessions of one agent, by identifier and by the
//! directories that they worked in.

use crate::order::{str_le, text_le, texts_are_totally_ordered};
use crate::table::{TextMap, entry_is_mapped, keys_differ};
use crate::text::str_eq;
use vstd::prelude::*;

verus! {

/// The form of the stored index. An index of another form is not read.
pub const SCHEMA_VERSION: u32 = 2;

/// What is known of a session.
#[derive(Clone, PartialEq, Eq, Debug)]
pub struct CachedSession {
    pub id: String,
    /// The file that holds the session, where one file does.
    pub path: Option<String>,
    pub is_child: bool,
    /// When the file was last modified, in nanoseconds since the epoch.
    pub mtime_ns: u64,
    /// The directories that the session worked in, each once and in order.
    pub cwds: Vec<String>,
}

/// What is known of a session.
pub ghost struct SessionView {
    pub id: Seq<char>,
    pub path: Option<Seq<char>>,
    pub is_child: bool,
    pub mtime_ns: u64,
    pub cwds: Seq<Seq<char>>,
}

impl View for CachedSession {
    type V = SessionView;

    open spec fn view(&self) -> SessionView {
        SessionView {
            id: self.id@,
            path: self.path.deep_view(),
            is_child: self.is_child,
            mtime_ns: self.mtime_ns,
            cwds: self.cwds.deep_view(),
        }
    }
}

impl DeepView for CachedSession {
    type V = SessionView;

    open spec fn deep_view(&self) -> SessionView {
        self.view()
    }
}

/// Whether texts stand in order, none twice.
pub open spec fn strictly_sorted(s: Seq<Seq<char>>) -> bool {
    forall|i: int, j: int|
        0 <= i < j < s.len() ==> text_le(#[trigger] s[i], #[trigger] s[j]) && s[i] != s[j]
}

/// The first place whose text comes after `x`, or the end.
pub open spec fn place_for(s: Seq<Seq<char>>, x: Seq<char>, from: int) -> int
    decreases s.len() - from,
{
    if from < 0 || from >= s.len() {
        s.len() as int
    } else if !text_le(s[from], x) {
        from
    } else {
        place_for(s, x, from + 1)
    }
}

/// The texts with `x` among them: put before the first that comes after it,
/// unless it is there already.
pub open spec fn with_text(s: Seq<Seq<char>>, x: Seq<char>) -> Seq<Seq<char>> {
    if s.contains(x) {
        s
    } else {
        s.insert(place_for(s, x, 0), x)
    }
}

proof fn place_for_bounds(s: Seq<Seq<char>>, x: Seq<char>, from: int)
    requires
        0 <= from <= s.len(),
    ensures
        from <= place_for(s, x, from) <= s.len(),
        forall|i: int| from <= i < place_for(s, x, from) ==> text_le(#[trigger] s[i], x),
        place_for(s, x, from) < s.len() ==> !text_le(s[place_for(s, x, from)], x),
    decreases s.len() - from,
{
    if from < s.len() && text_le(s[from], x) {
        place_for_bounds(s, x, from + 1);
    }
}

/// Putting a text among others adds it and nothing else, and keeps their order.
pub proof fn with_text_adds_in_order(s: Seq<Seq<char>>, x: Seq<char>)
    ensures
        forall|y: Seq<char>| with_text(s, x).contains(y) <==> s.contains(y) || y == x,
        strictly_sorted(s) ==> strictly_sorted(with_text(s, x)),
        with_text(with_text(s, x), x) == with_text(s, x),
{
    place_for_bounds(s, x, 0);
    if !s.contains(x) {
        let n = place_for(s, x, 0);
        let r = s.insert(n, x);
        assert(r[n] == x);
        assert forall|y: Seq<char>| r.contains(y) <==> s.contains(y) || y == x by {
            if s.contains(y) {
                let i = choose|i: int| 0 <= i < s.len() && s[i] == y;
                if i < n {
                    assert(r[i] == y);
                } else {
                    assert(r[i + 1] == y);
                }
            }
            if r.contains(y) && y != x {
                let i = choose|i: int| 0 <= i < r.len() && r[i] == y;
                if i < n {
                    assert(s[i] == y);
                } else {
                    assert(s[i - 1] == y);
                }
            }
        }
        if strictly_sorted(s) {
            assert forall|i: int, j: int| 0 <= i < j < r.len() implies text_le(
                #[trigger] r[i],
                #[trigger] r[j],
            ) && r[i] != r[j] by {
                if j < n {
                    assert(r[i] == s[i] && r[j] == s[j]);
                } else if j == n {
                    assert(r[i] == s[i]);
                    assert(s.contains(s[i]));
                } else if i < n {
                    assert(r[i] == s[i] && r[j] == s[j - 1]);
                } else if i == n {
                    assert(r[j] == s[j - 1]);
                    assert(s.contains(s[j - 1]));
                    texts_are_totally_ordered(x, s[n], s[j - 1]);
                    if j - 1 > n {
                        assert(text_le(s[n], s[j - 1]));
                    }
                } else {
                    assert(r[i] == s[i - 1] && r[j] == s[j - 1]);
                }
            }
        }
    }
}

/// Texts that stand in order, none twice, are told by what they are.
pub proof fn sorted_texts_are_unique(a: Seq<Seq<char>>, b: Seq<Seq<char>>)
    requires
        strictly_sorted(a),
        strictly_sorted(b),
        forall|x: Seq<char>| a.contains(x) <==> b.contains(x),
    ensures
        a == b,
    decreases a.len(),
{
    if a.len() == 0 {
        if b.len() > 0 {
            assert(b.contains(b[0]));
            assert(a.contains(b[0]));
        }
        assert(a =~= b);
    } else {
        assert(a.contains(a.last()));
        assert(b.contains(a.last()));
        assert(b.len() > 0);
        assert(b.contains(b.last()));
        assert(a.contains(b.last()));
        let i = choose|i: int| 0 <= i < b.len() && b[i] == a.last();
        let j = choose|j: int| 0 <= j < a.len() && a[j] == b.last();
        texts_are_totally_ordered(a.last(), b.last(), a.last());
        if a.last() != b.last() {
            assert(text_le(b[i], b[b.len() - 1]));
            assert(text_le(a[j], a[a.len() - 1]));
        }
        let a0 = a.drop_last();
        let b0 = b.drop_last();
        assert forall|x: Seq<char>| a0.contains(x) <==> b0.contains(x) by {
            if a0.contains(x) {
                let k = choose|k: int| 0 <= k < a0.len() && a0[k] == x;
                assert(a[k] == x);
                assert(a.contains(x));
                assert(x != a.last());
                let m = choose|m: int| 0 <= m < b.len() && b[m] == x;
                assert(b0[m] == x);
            }
            if b0.contains(x) {
                let k = choose|k: int| 0 <= k < b0.len() && b0[k] == x;
                assert(b[k] == x);
                assert(b.contains(x));
                assert(x != b.last());
                let m = choose|m: int| 0 <= m < a.len() && a[m] == x;
                assert(a0[m] == x);
            }
        }
        sorted_texts_are_unique(a0, b0);
        assert(a == a0.push(a.last()));
        assert(b == b0.push(b.last()));
    }
}

/// Puts a text among others. Says whether it was new.
pub(crate) fn put_text(v: &mut Vec<String>, x: String) -> (r: bool)
    ensures
        final(v).deep_view() == with_text(old(v).deep_view(), x@),
        r == !old(v).deep_view().contains(x@),
{
    let ghost all = v.deep_view();
    let mut i: usize = 0;
    while i < v.len()
        invariant
            i <= v.len(),
            all == v.deep_view(),
            v@ == old(v)@,
            forall|j: int| 0 <= j < i ==> #[trigger] all[j] != x@,
        decreases v.len() - i,
    {
        assert(all[i as int] == v@[i as int]@);
        if str_eq(v[i].as_str(), x.as_str()) {
            assert(all.contains(x@));
            return false;
        }
        i += 1;
    }
    assert(!all.contains(x@));
    let mut n: usize = 0;
    while n < v.len()
        invariant_except_break
            place_for(all, x@, n as int) == place_for(all, x@, 0),
        invariant
            n <= v.len(),
            all == v.deep_view(),
            v@ == old(v)@,
        ensures
            n == place_for(all, x@, 0),
        decreases v.len() - n,
    {
        assert(all[n as int] == v@[n as int]@);
        if !str_le(v[n].as_str(), x.as_str()) {
            break;
        }
        n += 1;
    }
    v.insert(n, x);
    assert(v.deep_view() == all.insert(n as int, x@));
    true
}

impl CachedSession {
    /// Adds a directory, unless it is there. Says whether it was new.
    pub fn add_cwd(&mut self, cwd: String) -> (r: bool)
        ensures
            final(self)@ == (SessionView { cwds: with_text(old(self)@.cwds, cwd@), ..old(self)@ }),
            r == !old(self)@.cwds.contains(cwd@),
    {
        put_text(&mut self.cwds, cwd)
    }
}

/// The sessions of one agent, and for each directory the sessions that worked in it.
pub struct CachedHarnessIndex {
    pub schema_version: u32,
    pub sessions_by_id: TextMap<CachedSession>,
    pub by_path: TextMap<Vec<String>>,
}

/// The sessions of one agent, and for each directory the sessions that worked in it.
#[verifier::ext_equal]
pub ghost struct IndexView {
    pub schema_version: u32,
    pub sessions: Map<Seq<char>, SessionView>,
    pub by_path: Map<Seq<char>, Seq<Seq<char>>>,
}

/// Sessions by their content.
pub open spec fn session_views(m: Map<Seq<char>, CachedSession>) -> Map<Seq<char>, SessionView> {
    m.map_values(|s: CachedSession| s@)
}

/// Lists of texts by their content.
pub open spec fn list_views(m: Map<Seq<char>, Vec<String>>) -> Map<Seq<char>, Seq<Seq<char>>> {
    m.map_values(|v: Vec<String>| v.deep_view())
}

impl View for CachedHarnessIndex {
    type V = IndexView;

    open spec fn view(&self) -> IndexView {
        IndexView {
            schema_version: self.schema_version,
            sessions: session_views(self.sessions_by_id@),
            by_path: list_views(self.by_path@),
        }
    }
}

/// Whether the session with an identifier worked in a directory.
pub open spec fn works_in(
    sessions: Map<Seq<char>, SessionView>,
    id: Seq<char>,
    cwd: Seq<char>,
) -> bool {
    sessions.dom().contains(id) && sessions[id].cwds.contains(cwd)
}

/// Whether the directories list, in order and each once, what `works` says of
/// them, and no directory lists nothing.
pub open spec fn lists(
    by_path: Map<Seq<char>, Seq<Seq<char>>>,
    works: spec_fn(Seq<char>, Seq<char>) -> bool,
) -> bool {
    &&& forall|cwd: Seq<char>|
        #![trigger by_path.dom().contains(cwd)]
        by_path.dom().contains(cwd) <==> exists|id: Seq<char>| #[trigger] works(id, cwd)
    &&& forall|cwd: Seq<char>| #[trigger]
        by_path.dom().contains(cwd) ==> strictly_sorted(by_path[cwd])
    &&& forall|cwd: Seq<char>, id: Seq<char>|
        by_path.dom().contains(cwd) ==> (#[trigger] by_path[cwd].contains(id) <==> works(id, cwd))
}

/// Whether the directories list exactly the sessions that worked in them.
pub open spec fn is_grouped(v: IndexView) -> bool {
    lists(v.by_path, |id: Seq<char>, cwd: Seq<char>| works_in(v.sessions, id, cwd))
}

/// The lists of directories follow from the sessions: they can be rebuilt at any time.
pub proof fn grouping_is_unique(a: IndexView, b: IndexView)
    requires
        is_grouped(a),
        is_grouped(b),
        a.sessions == b.sessions,
    ensures
        a.by_path == b.by_path,
{
    assert forall|cwd: Seq<char>| a.by_path.dom().contains(cwd) == b.by_path.dom().contains(cwd) by {
        let works = |id: Seq<char>, cwd: Seq<char>| works_in(a.sessions, id, cwd);
        if a.by_path.dom().contains(cwd) {
            let id = choose|id: Seq<char>| #[trigger] works(id, cwd);
            assert(works_in(b.sessions, id, cwd));
        }
        if b.by_path.dom().contains(cwd) {
            let id = choose|id: Seq<char>| works_in(b.sessions, id, cwd);
            assert(works(id, cwd));
        }
    }
    assert forall|cwd: Seq<char>| a.by_path.dom().contains(cwd) implies a.by_path[cwd]
        == b.by_path[cwd] by {
        assert(b.by_path.dom().contains(cwd));
        assert forall|x: Seq<char>| a.by_path[cwd].contains(x) <==> b.by_path[cwd].contains(x) by {}
        sorted_texts_are_unique(a.by_path[cwd], b.by_path[cwd]);
    }
    assert(a.by_path =~= b.by_path);
}

proof fn same_listing(
    by_path: Map<Seq<char>, Seq<Seq<char>>>,
    f: spec_fn(Seq<char>, Seq<char>) -> bool,
    g: spec_fn(Seq<char>, Seq<char>) -> bool,
)
    requires
        lists(by_path, f),
        forall|id: Seq<char>, cwd: Seq<char>| #[trigger] f(id, cwd) == #[trigger] g(id, cwd),
    ensures
        lists(by_path, g),
{
    assert forall|cwd: Seq<char>|
        #![trigger by_path.dom().contains(cwd)]
        by_path.dom().contains(cwd) <==> exists|id: Seq<char>| #[trigger] g(id, cwd) by {
        if by_path.dom().contains(cwd) {
            let id = choose|id: Seq<char>| #[trigger] f(id, cwd);
            assert(g(id, cwd));
        }
        if exists|id: Seq<char>| #[trigger] g(id, cwd) {
            let id = choose|id: Seq<char>| #[trigger] g(id, cwd);
            assert(f(id, cwd));
        }
    }
    assert forall|cwd: Seq<char>, id: Seq<char>| by_path.dom().contains(cwd) implies (
    #[trigger] by_path[cwd].contains(id) <==> g(id, cwd)) by {
        assert(f(id, cwd) == g(id, cwd));
    }
}

/// The texts without `x`.
pub open spec fn without_text(s: Seq<Seq<char>>, x: Seq<char>) -> Seq<Seq<char>>
    decreases s.len(),
{
    if s.len() == 0 {
        s
    } else if s.last() == x {
        without_text(s.drop_last(), x)
    } else {
        without_text(s.drop_last(), x).push(s.last())
    }
}

proof fn without_text_removes(s: Seq<Seq<char>>, x: Seq<char>)
    ensures
        forall|y: Seq<char>| without_text(s, x).contains(y) <==> s.contains(y) && y != x,
        strictly_sorted(s) ==> strictly_sorted(without_text(s, x)),
        without_text(without_text(s, x), x) == without_text(s, x),
    decreases s.len(),
{
    if s.len() > 0 {
        let init = s.drop_last();
        without_text_removes(init, x);
        let r = without_text(init, x);
        assert(s == init.push(s.last()));
        assert forall|y: Seq<char>| without_text(s, x).contains(y) <==> s.contains(y) && y != x by {
            if s.contains(y) && y != s.last() {
                let i = choose|i: int| 0 <= i < s.len() && s[i] == y;
                assert(init[i] == y);
                assert(init.contains(y));
            }
            if init.contains(y) {
                let i = choose|i: int| 0 <= i < init.len() && init[i] == y;
                assert(s[i] == y);
            }
            if s.last() != x {
                let q = r.push(s.last());
                if r.contains(y) {
                    let i = choose|i: int| 0 <= i < r.len() && r[i] == y;
                    assert(q[i] == y);
                }
                if q.contains(y) && y != s.last() {
                    let i = choose|i: int| 0 <= i < q.len() && q[i] == y;
                    assert(r[i] == y);
                }
                assert(q[r.len() as int] == s.last());
                assert(s[s.len() - 1] == s.last());
            }
        }
        if s.last() != x {
            assert(r.push(s.last()).drop_last() == r);
        }
        if strictly_sorted(s) {
            assert(strictly_sorted(init)) by {
                assert forall|i: int, j: int| 0 <= i < j < init.len() implies text_le(
                    #[trigger] init[i],
                    #[trigger] init[j],
                ) && init[i] != init[j] by {
                    assert(init[i] == s[i] && init[j] == s[j]);
                }
            }
            if s.last() != x {
                let q = r.push(s.last());
                assert forall|i: int, j: int| 0 <= i < j < q.len() implies text_le(
                    #[trigger] q[i],
                    #[trigger] q[j],
                ) && q[i] != q[j] by {
                    if j == r.len() {
                        assert(r.contains(q[i]));
                        assert(init.contains(q[i]));
                        let k = choose|k: int| 0 <= k < init.len() && init[k] == q[i];
                        assert(s[k] == q[i]);
                        assert(text_le(s[k], s[s.len() - 1]));
                    }
                }
            }
        }
    }
}

/// The lists without a session in one directory. A directory left with nothing goes.
pub open spec fn unlisted_in(
    by_path: Map<Seq<char>, Seq<Seq<char>>>,
    cwd: Seq<char>,
    id: Seq<char>,
) -> Map<Seq<char>, Seq<Seq<char>>> {
    if !by_path.dom().contains(cwd) {
        by_path
    } else if without_text(by_path[cwd], id).len() == 0 {
        by_path.remove(cwd)
    } else {
        by_path.insert(cwd, without_text(by_path[cwd], id))
    }
}

/// The lists without a session in the directories that it worked in.
pub open spec fn unlisted(
    by_path: Map<Seq<char>, Seq<Seq<char>>>,
    cwds: Seq<Seq<char>>,
    id: Seq<char>,
) -> Map<Seq<char>, Seq<Seq<char>>>
    decreases cwds.len(),
{
    if cwds.len() == 0 {
        by_path
    } else {
        unlisted_in(unlisted(by_path, cwds.drop_last(), id), cwds.last(), id)
    }
}

/// The index without a session.
pub open spec fn without_session(v: IndexView, id: Seq<char>) -> IndexView {
    if v.sessions.dom().contains(id) {
        IndexView {
            sessions: v.sessions.remove(id),
            by_path: unlisted(v.by_path, v.sessions[id].cwds, id),
            ..v
        }
    } else {
        v
    }
}

proof fn unlisted_touches_only(
    by_path: Map<Seq<char>, Seq<Seq<char>>>,
    cwds: Seq<Seq<char>>,
    id: Seq<char>,
)
    ensures
        forall|c: Seq<char>|
            #![trigger unlisted(by_path, cwds, id).dom().contains(c)]
            unlisted(by_path, cwds, id).dom().contains(c) <==> by_path.dom().contains(c) && (
            !cwds.contains(c) || without_text(by_path[c], id).len() > 0),
        forall|c: Seq<char>|
            #![trigger unlisted(by_path, cwds, id)[c]]
            unlisted(by_path, cwds, id).dom().contains(c) ==> unlisted(by_path, cwds, id)[c] == (
            if cwds.contains(c) {
                without_text(by_path[c], id)
            } else {
                by_path[c]
            }),
    decreases cwds.len(),
{
    if cwds.len() > 0 {
        let init = cwds.drop_last();
        let c0 = cwds.last();
        unlisted_touches_only(by_path, init, id);
        let m = unlisted(by_path, init, id);
        let r = unlisted(by_path, cwds, id);
        assert forall|c: Seq<char>| cwds.contains(c) <==> init.contains(c) || c == c0 by {
            if cwds.contains(c) && c != c0 {
                let i = choose|i: int| 0 <= i < cwds.len() && cwds[i] == c;
                assert(init[i] == c);
            }
            if init.contains(c) {
                let i = choose|i: int| 0 <= i < init.len() && init[i] == c;
                assert(cwds[i] == c);
            }
            assert(cwds[cwds.len() - 1] == c0);
        }
        without_text_removes(by_path[c0], id);
        assert forall|c: Seq<char>|
            #![trigger r.dom().contains(c)]
            r.dom().contains(c) <==> by_path.dom().contains(c) && (!cwds.contains(c)
                || without_text(by_path[c], id).len() > 0) by {
            assert(m.dom().contains(c) <==> by_path.dom().contains(c) && (!init.contains(c)
                || without_text(by_path[c], id).len() > 0));
            if c == c0 && m.dom().contains(c0) {
                assert(m[c0] == (if init.contains(c0) {
                    without_text(by_path[c0], id)
                } else {
                    by_path[c0]
                }));
            }
        }
        assert forall|c: Seq<char>|
            #![trigger r[c]]
            r.dom().contains(c) implies r[c] == (if cwds.contains(c) {
            without_text(by_path[c], id)
        } else {
            by_path[c]
        }) by {
            assert(m.dom().contains(c));
            assert(m[c] == (if init.contains(c) {
                without_text(by_path[c], id)
            } else {
                by_path[c]
            }));
        }
    }
}

/// Taking a session out of a grouped index leaves it grouped, without the session.
pub proof fn removal_keeps_grouping(v: IndexView, id: Seq<char>)
    requires
        is_grouped(v),
    ensures
        is_grouped(without_session(v, id)),
        !without_session(v, id).sessions.dom().contains(id),
        forall|cwd: Seq<char>|
            without_session(v, id).by_path.dom().contains(cwd)
                ==> !#[trigger] without_session(v, id).by_path[cwd].contains(id),
{
    let r = without_session(v, id);
    let before = |i: Seq<char>, c: Seq<char>| works_in(v.sessions, i, c);
    let after = |i: Seq<char>, c: Seq<char>| works_in(r.sessions, i, c);
    if v.sessions.dom().contains(id) {
        let cwds = v.sessions[id].cwds;
        unlisted_touches_only(v.by_path, cwds, id);
        assert forall|c: Seq<char>|
            #![trigger r.by_path.dom().contains(c)]
            r.by_path.dom().contains(c) <==> exists|i: Seq<char>| #[trigger] after(i, c) by {
            if v.by_path.dom().contains(c) {
                without_text_removes(v.by_path[c], id);
            }
            if r.by_path.dom().contains(c) {
                assert(v.by_path.dom().contains(c));
                if cwds.contains(c) {
                    let l = without_text(v.by_path[c], id);
                    assert(l.contains(l[0]));
                    assert(v.by_path[c].contains(l[0]));
                    assert(before(l[0], c));
                    assert(after(l[0], c));
                } else {
                    let i = choose|i: Seq<char>| #[trigger] before(i, c);
                    assert(i != id);
                    assert(after(i, c));
                }
            }
            if exists|i: Seq<char>| #[trigger] after(i, c) {
                let i = choose|i: Seq<char>| #[trigger] after(i, c);
                assert(before(i, c));
                assert(v.by_path.dom().contains(c));
                assert(v.by_path[c].contains(i));
                if cwds.contains(c) {
                    assert(without_text(v.by_path[c], id).contains(i));
                }
            }
        }
        assert forall|c: Seq<char>| #[trigger] r.by_path.dom().contains(c) implies strictly_sorted(
            r.by_path[c],
        ) by {
            assert(v.by_path.dom().contains(c));
            without_text_removes(v.by_path[c], id);
        }
        assert forall|c: Seq<char>, i: Seq<char>| r.by_path.dom().contains(c) implies (
        #[trigger] r.by_path[c].contains(i) <==> after(i, c)) by {
            assert(v.by_path.dom().contains(c));
            without_text_removes(v.by_path[c], id);
            assert(v.by_path[c].contains(i) <==> before(i, c));
        }
    }
    assert(lists(r.by_path, after));
    assert forall|cwd: Seq<char>| r.by_path.dom().contains(cwd) implies !#[trigger] r.by_path[cwd].contains(
        id,
    ) by {
        assert(r.by_path[cwd].contains(id) <==> after(id, cwd));
    }
}

pub(crate) proof fn views_of_insert(m: Map<Seq<char>, CachedSession>, k: Seq<char>, s: CachedSession)
    ensures
        session_views(m.insert(k, s)) == session_views(m).insert(k, s@),
{
    assert(session_views(m.insert(k, s)) =~= session_views(m).insert(k, s@));
}

proof fn lists_of_insert(m: Map<Seq<char>, Vec<String>>, k: Seq<char>, v: Vec<String>)
    ensures
        list_views(m.insert(k, v)) == list_views(m).insert(k, v.deep_view()),
{
    assert(list_views(m.insert(k, v)) =~= list_views(m).insert(k, v.deep_view()));
}

proof fn lists_of_remove(m: Map<Seq<char>, Vec<String>>, k: Seq<char>)
    ensures
        list_views(m.remove(k)) == list_views(m).remove(k),
{
    assert(list_views(m.remove(k)) =~= list_views(m).remove(k));
}

/// What `works` says, and that one session worked in one directory.
spec fn also(
    works: spec_fn(Seq<char>, Seq<char>) -> bool,
    id: Seq<char>,
    cwd: Seq<char>,
) -> spec_fn(Seq<char>, Seq<char>) -> bool {
    |i: Seq<char>, c: Seq<char>| works(i, c) || (i == id && c == cwd)
}

fn add_listing(
    by_path: &mut TextMap<Vec<String>>,
    cwd: &String,
    id: &String,
    Ghost(works): Ghost<spec_fn(Seq<char>, Seq<char>) -> bool>,
)
    requires
        lists(list_views(old(by_path)@), works),
    ensures
        lists(list_views(final(by_path)@), also(works, id@, cwd@)),
{
    let ghost m = list_views(by_path@);
    let ghost more = also(works, id@, cwd@);
    let mut ids = match by_path.remove(cwd.as_str()) {
        Some(ids) => ids,
        None => Vec::new(),
    };
    let ghost had = ids.deep_view();
    assert(m.dom().contains(cwd@) ==> had == m[cwd@]);
    assert(!m.dom().contains(cwd@) ==> had == Seq::<Seq<char>>::empty());
    put_text(&mut ids, id.clone());
    let ghost now = ids.deep_view();
    by_path.insert(cwd.clone(), ids);
    proof {
        with_text_adds_in_order(had, id@);
        let r = list_views(by_path@);
        assert(r =~= m.insert(cwd@, now));
        assert(more(id@, cwd@));
        assert forall|c: Seq<char>|
            #![trigger r.dom().contains(c)]
            r.dom().contains(c) <==> exists|i: Seq<char>| #[trigger] more(i, c) by {
            if m.dom().contains(c) {
                let i = choose|i: Seq<char>| #[trigger] works(i, c);
                assert(more(i, c));
            }
            if exists|i: Seq<char>| #[trigger] more(i, c) {
                let i = choose|i: Seq<char>| #[trigger] more(i, c);
                if works(i, c) {
                    assert(m.dom().contains(c));
                }
            }
        }
        assert forall|c: Seq<char>, i: Seq<char>| r.dom().contains(c) implies (
        #[trigger] r[c].contains(i) <==> more(i, c)) by {
            if m.dom().contains(c) {
                assert(m[c].contains(i) <==> works(i, c));
            } else {
                assert(c == cwd@);
                assert(!works(i, c)) by {
                    if works(i, c) {
                        assert(m.dom().contains(c));
                    }
                }
            }
        }
    }
}

fn list_without(v: &Vec<String>, x: &str) -> (r: Vec<String>)
    ensures
        r.deep_view() == without_text(v.deep_view(), x@),
{
    let ghost all = v.deep_view();
    let mut out: Vec<String> = Vec::new();
    let mut i: usize = 0;
    while i < v.len()
        invariant
            i <= v.len(),
            all == v.deep_view(),
            out.deep_view() == without_text(all.take(i as int), x@),
        decreases v.len() - i,
    {
        assert(all.take(i + 1).drop_last() == all.take(i as int));
        assert(all.take(i + 1).last() == v@[i as int]@);
        let ghost before = out.deep_view();
        if !str_eq(v[i].as_str(), x) {
            out.push(v[i].clone());
            assert(out.deep_view() == before.push(v@[i as int]@));
        }
        i += 1;
    }
    assert(all.take(i as int) == all);
    out
}

impl CachedHarnessIndex {
    /// An index without sessions.
    pub fn empty() -> (r: Self)
        ensures
            r@ == (IndexView {
                schema_version: SCHEMA_VERSION,
                sessions: Map::empty(),
                by_path: Map::empty(),
            }),
            r.sessions_by_id.items().len() == 0,
            r.by_path.items().len() == 0,
    {
        let r = CachedHarnessIndex {
            schema_version: SCHEMA_VERSION,
            sessions_by_id: TextMap::new(),
            by_path: TextMap::new(),
        };
        assert(r@.sessions =~= Map::<Seq<char>, SessionView>::empty());
        assert(r@.by_path =~= Map::<Seq<char>, Seq<Seq<char>>>::empty());
        r
    }

    /// Lists, for each directory, the sessions that worked in it.
    pub fn rebuild_by_path(&mut self)
        ensures
            is_grouped(final(self)@),
            final(self)@.schema_version == old(self)@.schema_version,
            final(self).sessions_by_id == old(self).sessions_by_id,
    {
        let mut by_path: TextMap<Vec<String>> = TextMap::new();
        let n: usize = self.sessions_by_id.len();
        let ghost items = self.sessions_by_id.items();
        let ghost mut works = |id: Seq<char>, cwd: Seq<char>| listed_before(items, 0, id, cwd);
        proof {
            assert(list_views(by_path@) =~= Map::<Seq<char>, Seq<Seq<char>>>::empty());
            assert(forall|id: Seq<char>, cwd: Seq<char>| !#[trigger] works(id, cwd));
        }
        let mut i: usize = 0;
        while i < n
            invariant
                i <= n,
                n == items.len(),
                items == self.sessions_by_id.items(),
                *self == *old(self),
                works == (|id: Seq<char>, cwd: Seq<char>| listed_before(items, i as int, id, cwd)),
                lists(list_views(by_path@), works),
            decreases n - i,
        {
            let id = self.sessions_by_id.key_at(i);
            let session = self.sessions_by_id.value_at(i);
            let ghost cwds = session.cwds.deep_view();
            let ghost mut some = |x: Seq<char>, c: Seq<char>|
                works(x, c) || (x == id@ && cwds.take(0).contains(c));
            proof {
                assert(cwds.take(0) == Seq::<Seq<char>>::empty());
                same_listing(list_views(by_path@), works, some);
            }
            let mut j: usize = 0;
            while j < session.cwds.len()
                invariant
                    j <= session.cwds.len(),
                    cwds == session.cwds.deep_view(),
                    some == (|x: Seq<char>, c: Seq<char>|
                        works(x, c) || (x == id@ && cwds.take(j as int).contains(c))),
                    lists(list_views(by_path@), some),
                decreases session.cwds.len() - j,
            {
                add_listing(&mut by_path, &session.cwds[j], id, Ghost(some));
                proof {
                    let c0 = session.cwds@[j as int]@;
                    let added = also(some, id@, c0);
                    let next = |x: Seq<char>, c: Seq<char>|
                        works(x, c) || (x == id@ && cwds.take(j + 1).contains(c));
                    let now = cwds.take(j + 1);
                    let done = cwds.take(j as int);
                    assert(now == done.push(c0));
                    assert forall|c: Seq<char>| now.contains(c) <==> done.contains(c) || c == c0 by {
                        if done.contains(c) {
                            let k = choose|k: int| 0 <= k < done.len() && done[k] == c;
                            assert(now[k] == c);
                        }
                        if now.contains(c) && c != c0 {
                            let k = choose|k: int| 0 <= k < now.len() && now[k] == c;
                            assert(done[k] == c);
                        }
                        assert(now[j as int] == c0);
                    }
                    same_listing(list_views(by_path@), added, next);
                    some = next;
                }
                j += 1;
            }
            proof {
                assert(cwds.take(j as int) == cwds);
                let next = |id: Seq<char>, cwd: Seq<char>| listed_before(items, i + 1, id, cwd);
                assert forall|x: Seq<char>, c: Seq<char>| #[trigger] some(x, c) == #[trigger] next(
                    x,
                    c,
                ) by {
                    if some(x, c) {
                        if works(x, c) {
                            let a = choose|a: int|
                                0 <= a < i && (#[trigger] items[a]).0 == x
                                    && items[a].1@.cwds.contains(c);
                            assert(items[a].0 == x);
                        } else {
                            assert(items[i as int].0 == x);
                        }
                    }
                    if next(x, c) {
                        let a = choose|a: int|
                            0 <= a < i + 1 && (#[trigger] items[a]).0 == x
                                && items[a].1@.cwds.contains(c);
                        assert(items[a].0 == x);
                    }
                }
                same_listing(list_views(by_path@), some, next);
                works = next;
            }
            i += 1;
        }
        proof {
            let sessions = session_views(self.sessions_by_id@);
            let all = |id: Seq<char>, cwd: Seq<char>| works_in(sessions, id, cwd);
            assert forall|x: Seq<char>, c: Seq<char>| #[trigger] works(x, c) == #[trigger] all(
                x,
                c,
            ) by {
                if works(x, c) {
                    let a = choose|a: int|
                        0 <= a < n && (#[trigger] items[a]).0 == x
                            && items[a].1@.cwds.contains(c);
                    entry_is_mapped(items, a);
                }
                if all(x, c) {
                    let a = choose|a: int| 0 <= a < items.len() && (#[trigger] items[a]).0 == x;
                    entry_is_mapped(items, a);
                }
            }
            same_listing(list_views(by_path@), works, all);
        }
        self.by_path = by_path;
    }

    /// Takes a session out of the index.
    pub fn remove_session(&mut self, session_id: &str)
        ensures
            final(self)@ == without_session(old(self)@, session_id@),
    {
        let ghost v = self@;
        match self.sessions_by_id.remove(session_id) {
            Some(session) => {
                let ghost cwds = session.cwds.deep_view();
                proof {
                    assert(v.sessions[session_id@] == session@);
                    assert(session_views(self.sessions_by_id@) =~= v.sessions.remove(session_id@));
                    assert(cwds.take(0) == Seq::<Seq<char>>::empty());
                }
                let mut i: usize = 0;
                while i < session.cwds.len()
                    invariant
                        i <= session.cwds.len(),
                        cwds == session.cwds.deep_view(),
                        self.schema_version == old(self).schema_version,
                        session_views(self.sessions_by_id@) == v.sessions.remove(session_id@),
                        list_views(self.by_path@) == unlisted(
                            v.by_path,
                            cwds.take(i as int),
                            session_id@,
                        ),
                    decreases session.cwds.len() - i,
                {
                    let cwd = session.cwds[i].as_str();
                    proof {
                        assert(cwds.take(i + 1).drop_last() == cwds.take(i as int));
                        assert(cwds.take(i + 1).last() == cwd@);
                    }
                    let ghost m = self.by_path@;
                    match self.by_path.remove(cwd) {
                        Some(ids) => {
                            let rest = list_without(&ids, session_id);
                            proof {
                                assert(list_views(m)[cwd@] == ids.deep_view());
                                lists_of_remove(m, cwd@);
                                assert(rest.deep_view().len() == rest.len());
                            }
                            if rest.len() > 0 {
                                let ghost kept = rest.deep_view();
                                let ghost m2 = self.by_path@;
                                proof {
                                    lists_of_insert(m2, cwd@, rest);
                                }
                                self.by_path.insert(session.cwds[i].clone(), rest);
                                assert(list_views(m).remove(cwd@).insert(cwd@, kept) =~= list_views(
                                    m,
                                ).insert(cwd@, kept));
                            }
                        },
                        None => {
                            assert(m.remove(cwd@) =~= m);
                        },
                    }
                    i += 1;
                }
                assert(cwds.take(i as int) == cwds);
            },
            None => {
                assert(self.sessions_by_id@ =~= old(self).sessions_by_id@);
            },
        }
    }
}

/// Whether one of the first `n` entries is a session that worked in a directory.
pub open spec fn listed_before(
    items: Seq<(Seq<char>, CachedSession)>,
    n: int,
    id: Seq<char>,
    cwd: Seq<char>,
) -> bool {
    exists|a: int|
        0 <= a < n && (#[trigger] items[a]).0 == id && items[a].1@.cwds.contains(cwd)
}

/// Whether `simplify` may say that a directory has a simple name.
pub open spec fn may_simplify<F: Fn(&str) -> String>(
    simplify: F,
    path: Seq<char>,
    name: Seq<char>,
) -> bool {
    exists|p: &str, n: String|
        p@ == path && n@ == name && #[trigger] call_ensures(simplify, (p,), n)
}

/// Whether a session worked in a directory whose simple name is `categ`.
pub open spec fn in_category(
    v: IndexView,
    names: Map<Seq<char>, Seq<char>>,
    categ: Seq<char>,
    id: Seq<char>,
) -> bool {
    exists|cwd: Seq<char>|
        v.by_path.dom().contains(cwd) && names[cwd] == categ && #[trigger] v.by_path[cwd].contains(
            id,
        )
}

/// Whether the sessions found are, each once, those of a category, where `ids`
/// are their identifiers and `names` the simple names of the directories.
pub open spec fn finds_category(
    index: CachedHarnessIndex,
    names: Map<Seq<char>, Seq<char>>,
    categ: Seq<char>,
    ids: Seq<Seq<char>>,
    found: Seq<&CachedSession>,
) -> bool {
    &&& ids.no_duplicates()
    &&& found.len() == ids.len()
    &&& forall|i: int|
        0 <= i < ids.len() ==> index.sessions_by_id@.dom().contains(#[trigger] ids[i]) && *found[i]
            == index.sessions_by_id@[ids[i]]
    &&& forall|id: Seq<char>| #[trigger]
        ids.contains(id) <==> index.sessions_by_id@.dom().contains(id) && in_category(
            index@,
            names,
            categ,
            id,
        )
}

pub(crate) fn holds(v: &Vec<String>, x: &str) -> (r: bool)
    ensures
        r == v.deep_view().contains(x@),
{
    let ghost all = v.deep_view();
    let mut i: usize = 0;
    while i < v.len()
        invariant
            i <= v.len(),
            all == v.deep_view(),
            forall|j: int| 0 <= j < i ==> #[trigger] all[j] != x@,
        decreases v.len() - i,
    {
        assert(all[i as int] == v@[i as int]@);
        if str_eq(v[i].as_str(), x) {
            assert(all.contains(x@));
            return true;
        }
        i += 1;
    }
    false
}

impl CachedHarnessIndex {
    /// The sessions that worked in a directory whose simple name is `categ_id`,
    /// each once.
    pub fn lookup_by_categ_id<F: Fn(&str) -> String>(&self, categ_id: &str, simplify: F) -> (r: Vec<
        &CachedSession,
    >)
        requires
            forall|p: &str| call_requires(simplify, (p,)),
        ensures
            exists|names: Map<Seq<char>, Seq<char>>, ids: Seq<Seq<char>>|
                {
                    &&& forall|cwd: Seq<char>| #[trigger]
                        self@.by_path.dom().contains(cwd) ==> may_simplify(
                            simplify,
                            cwd,
                            names[cwd],
                        )
                    &&& #[trigger] finds_category(*self, names, categ_id@, ids, r@)
                },
    {
        let mut out: Vec<&CachedSession> = Vec::new();
        let mut ids: Vec<String> = Vec::new();
        let n: usize = self.by_path.len();
        let ghost items = self.by_path.items();
        let ghost mut names: Map<Seq<char>, Seq<char>> = Map::empty();
        let mut i: usize = 0;
        assert(ids.deep_view() == Seq::<Seq<char>>::empty());
        while i < n
            invariant
                i <= n,
                n == items.len(),
                items == self.by_path.items(),
                keys_differ(items),
                forall|p: &str| call_requires(simplify, (p,)),
                forall|a: int|
                    0 <= a < i ==> may_simplify(
                        simplify,
                        (#[trigger] items[a]).0,
                        names[items[a].0],
                    ),
                out.len() == ids.len(),
                ids.deep_view().no_duplicates(),
                forall|k: int|
                    0 <= k < ids.len() ==> self.sessions_by_id@.dom().contains(
                        #[trigger] ids.deep_view()[k],
                    ) && *out@[k] == self.sessions_by_id@[ids.deep_view()[k]],
                forall|id: Seq<char>| #[trigger]
                    ids.deep_view().contains(id) <==> self.sessions_by_id@.dom().contains(id)
                        && found_before(items, i as int, names, categ_id@, id),
            decreases n - i,
        {
            let cwd = self.by_path.key_at(i);
            let bucket = self.by_path.value_at(i);
            let ghost old_names = names;
            let name = simplify(cwd.as_str());
            proof {
                names = names.insert(cwd@, name@);
                assert(items[i as int].0 == cwd@);
                assert forall|a: int| 0 <= a < i implies names[(#[trigger] items[a]).0]
                    == old_names[items[a].0] by {
                    assert(items[a].0 != items[i as int].0);
                }
                assert(may_simplify(simplify, cwd@, name@));
                assert forall|id: Seq<char>| found_before(items, i as int, names, categ_id@, id)
                    == found_before(items, i as int, old_names, categ_id@, id) by {
                    if found_before(items, i as int, names, categ_id@, id) {
                        let a = choose|a: int|
                            0 <= a < i && names[(#[trigger] items[a]).0] == categ_id@
                                && items[a].1.deep_view().contains(id);
                        assert(old_names[items[a].0] == categ_id@);
                    }
                    if found_before(items, i as int, old_names, categ_id@, id) {
                        let a = choose|a: int|
                            0 <= a < i && old_names[(#[trigger] items[a]).0] == categ_id@
                                && items[a].1.deep_view().contains(id);
                        assert(names[items[a].0] == categ_id@);
                    }
                }
            }
            let ghost listed = bucket.deep_view();
            if str_eq(name.as_str(), categ_id) {
                let mut j: usize = 0;
                assert(listed.take(0) == Seq::<Seq<char>>::empty());
                while j < bucket.len()
                    invariant
                        j <= bucket.len(),
                        listed == bucket.deep_view(),
                        out.len() == ids.len(),
                        ids.deep_view().no_duplicates(),
                        forall|k: int|
                            0 <= k < ids.len() ==> self.sessions_by_id@.dom().contains(
                                #[trigger] ids.deep_view()[k],
                            ) && *out@[k] == self.sessions_by_id@[ids.deep_view()[k]],
                        forall|id: Seq<char>| #[trigger]
                            ids.deep_view().contains(id) <==> self.sessions_by_id@.dom().contains(
                                id,
                            ) && (found_before(items, i as int, names, categ_id@, id)
                                || listed.take(j as int).contains(id)),
                    decreases bucket.len() - j,
                {
                    let id = &bucket[j];
                    let ghost before = ids.deep_view();
                    let ghost done = listed.take(j as int);
                    let ghost now = listed.take(j + 1);
                    proof {
                        assert(now == done.push(id@));
                        assert forall|x: Seq<char>| now.contains(x) <==> done.contains(x) || x
                            == id@ by {
                            if done.contains(x) {
                                let k = choose|k: int| 0 <= k < done.len() && done[k] == x;
                                assert(now[k] == x);
                            }
                            if now.contains(x) && x != id@ {
                                let k = choose|k: int| 0 <= k < now.len() && now[k] == x;
                                assert(done[k] == x);
                            }
                            assert(now[j as int] == id@);
                        }
                    }
                    if !holds(&ids, id.as_str()) {
                        match self.sessions_by_id.get(id.as_str()) {
                            Some(session) => {
                                out.push(session);
                                ids.push(id.clone());
                                proof {
                                    let after = ids.deep_view();
                                    assert(after == before.push(id@));
                                    assert forall|x: Seq<char>| #[trigger]
                                        after.contains(x) <==> before.contains(x) || x == id@ by {
                                        if before.contains(x) {
                                            let k = choose|k: int|
                                                0 <= k < before.len() && before[k] == x;
                                            assert(after[k] == x);
                                        }
                                        if after.contains(x) && x != id@ {
                                            let k = choose|k: int|
                                                0 <= k < after.len() && after[k] == x;
                                            assert(before[k] == x);
                                        }
                                        assert(after[before.len() as int] == id@);
                                    }
                                    assert forall|k: int|
                                        0 <= k < after.len() implies self.sessions_by_id@.dom().contains(
                                        #[trigger] after[k],
                                    ) && *out@[k] == self.sessions_by_id@[after[k]] by {
                                        if k < before.len() {
                                            assert(after[k] == before[k]);
                                        }
                                    }
                                }
                            },
                            None => {},
                        }
                    }
                    j += 1;
                }
                assert(listed.take(j as int) == listed);
            }
            proof {
                assert forall|id: Seq<char>| found_before(items, i + 1, names, categ_id@, id) == (
                found_before(items, i as int, names, categ_id@, id) || (name@ == categ_id@
                    && listed.contains(id))) by {
                    if found_before(items, i + 1, names, categ_id@, id) {
                        let a = choose|a: int|
                            0 <= a < i + 1 && names[(#[trigger] items[a]).0] == categ_id@
                                && items[a].1.deep_view().contains(id);
                        assert(items[a].1.deep_view().contains(id));
                    }
                    if found_before(items, i as int, names, categ_id@, id) {
                        let a = choose|a: int|
                            0 <= a < i && names[(#[trigger] items[a]).0] == categ_id@
                                && items[a].1.deep_view().contains(id);
                        assert(names[items[a].0] == categ_id@);
                    }
                    if name@ == categ_id@ && listed.contains(id) {
                        assert(names[items[i as int].0] == categ_id@);
                    }
                }
            }
            i += 1;
        }
        proof {
            assert forall|id: Seq<char>| found_before(items, n as int, names, categ_id@, id)
                == in_category(self@, names, categ_id@, id) by {
                if found_before(items, n as int, names, categ_id@, id) {
                    let a = choose|a: int|
                        0 <= a < n && names[(#[trigger] items[a]).0] == categ_id@
                            && items[a].1.deep_view().contains(id);
                    entry_is_mapped(items, a);
                    assert(self@.by_path[items[a].0].contains(id));
                }
                if in_category(self@, names, categ_id@, id) {
                    let cwd = choose|cwd: Seq<char>|
                        self@.by_path.dom().contains(cwd) && names[cwd] == categ_id@
                            && #[trigger] self@.by_path[cwd].contains(id);
                    let a = choose|a: int| 0 <= a < items.len() && (#[trigger] items[a]).0 == cwd;
                    entry_is_mapped(items, a);
                    assert(items[a].1.deep_view().contains(id));
                }
            }
            assert forall|cwd: Seq<char>| #[trigger]
                self@.by_path.dom().contains(cwd) implies may_simplify(
                simplify,
                cwd,
                names[cwd],
            ) by {
                let a = choose|a: int| 0 <= a < items.len() && (#[trigger] items[a]).0 == cwd;
                assert(may_simplify(simplify, items[a].0, names[items[a].0]));
            }
            assert(finds_category(*self, names, categ_id@, ids.deep_view(), out@));
        }
        out
    }

    /// All sessions, each once.
    pub fn all_sessions(&self) -> (r: Vec<&CachedSession>)
        ensures
            r@.len() == self.sessions_by_id.items().len(),
            forall|i: int|
                0 <= i < r@.len() ==> *(#[trigger] r@[i]) == self.sessions_by_id.items()[i].1,
    {
        let mut out: Vec<&CachedSession> = Vec::new();
        let n: usize = self.sessions_by_id.len();
        let mut i: usize = 0;
        while i < n
            invariant
                i <= n,
                n == self.sessions_by_id.items().len(),
                out.len() == i,
                forall|k: int|
                    0 <= k < i ==> *(#[trigger] out@[k]) == self.sessions_by_id.items()[k].1,
            decreases n - i,
        {
            out.push(self.sessions_by_id.value_at(i));
            i += 1;
        }
        out
    }
}

/// Whether one of the first `n` directories has the simple name and lists the session.
spec fn found_before(
    items: Seq<(Seq<char>, Vec<String>)>,
    n: int,
    names: Map<Seq<char>, Seq<char>>,
    categ: Seq<char>,
    id: Seq<char>,
) -> bool {
    exists|a: int|
        0 <= a < n && names[(#[trigger] items[a]).0] == categ && items[a].1.deep_view().contains(id)
}

/// The index, where it has the form that is in use.
pub fn accept_schema(index: CachedHarnessIndex) -> (r: Option<CachedHarnessIndex>)
    ensures
        r == (if index.schema_version == SCHEMA_VERSION {
            Some(index)
        } else {
            None
        }),
{
    if index.schema_version == SCHEMA_VERSION {
        Some(index)
    } else {
        None
    }
}

/// Nanoseconds since the epoch, from whole seconds and the nanoseconds beyond;
/// the largest number where they are more, and 0 where the time is not known.
pub fn mtime_ns_of(since_epoch: Option<(u64, u32)>) -> (r: u64)
    ensures
        r == (match since_epoch {
            Some((secs, nanos)) => if secs * 1_000_000_000 + nanos <= u64::MAX {
                secs * 1_000_000_000 + nanos
            } else {
                u64::MAX as int
            },
            None => 0,
        }),
{
    match since_epoch {
        Some((secs, nanos)) => {
            let total: u128 = (secs as u128) * 1_000_000_000 + nanos as u128;
            if total <= u64::MAX as u128 {
                total as u64
            } else {
                u64::MAX
            }
        },
        None => 0,
    }
}

/// A session that leaves takes nothing with it but itself: the other sessions stay as they
/// are, and so does the form of the index.
pub proof fn leaving_changes_no_other_session(v: IndexView, id: Seq<char>, other: Seq<char>)
    requires
        other != id,
    ensures
        without_session(v, id).sessions.dom().contains(other) <==> v.sessions.dom().contains(other),
        v.sessions.dom().contains(other) ==> without_session(v, id).sessions[other]
            == v.sessions[other],
        without_session(v, id).schema_version == v.schema_version,
        !without_session(v, id).sessions.dom().contains(id),
{
}

/// In a grouped index a session is listed under a directory exactly where it works in it.
pub proof fn sessions_are_listed_where_they_work(v: IndexView, id: Seq<char>, cwd: Seq<char>)
    requires
        is_grouped(v),
    ensures
        v.by_path.dom().contains(cwd) && v.by_path[cwd].contains(id) <==> v.sessions.dom().contains(
            id,
        ) && v.sessions[id].cwds.contains(cwd),
{
    let works = |i: Seq<char>, c: Seq<char>| works_in(v.sessions, i, c);
    assert(lists(v.by_path, works));
    assert(works(id, cwd) <==> works_in(v.sessions, id, cwd));
    if works(id, cwd) {
        assert(v.by_path.dom().contains(cwd));
    }
    if v.by_path.dom().contains(cwd) {
        assert(v.by_path[cwd].contains(id) <==> works(id, cwd));
    }
}

/// The sessions of a category are those that are listed under a directory whose name is the
/// category's, each once. Gives the directory of one.
pub proof fn categories_hold_sessions_of_their_directories(
    index: CachedHarnessIndex,
    names: Map<Seq<char>, Seq<char>>,
    categ: Seq<char>,
    ids: Seq<Seq<char>>,
    found: Seq<&CachedSession>,
    i: int,
) -> (cwd: Seq<char>)
    requires
        finds_category(index, names, categ, ids, found),
        0 <= i < found.len(),
    ensures
        index@.by_path.dom().contains(cwd),
        names[cwd] == categ,
        index@.by_path[cwd].contains(ids[i]),
        *found[i] == index.sessions_by_id@[ids[i]],
        forall|j: int| 0 <= j < i ==> #[trigger] ids[j] != ids[i],
{
    assert(ids.contains(ids[i]));
    assert(in_category(index@, names, categ, ids[i]));
    choose|cwd: Seq<char>|
        index@.by_path.dom().contains(cwd) && names[cwd] == categ
            && #[trigger] index@.by_path[cwd].contains(ids[i])
}

/// A time of a file is counted in nanoseconds, as many as can be counted.
pub proof fn times_of_files_are_in_nanoseconds(secs: u64, nanos: u32, r: u64)
    requires
        call_ensures(mtime_ns_of, (Some((secs, nanos)),), r),
    ensures
        secs * 1_000_000_000 + nanos <= u64::MAX ==> r == secs * 1_000_000_000 + nanos,
        secs * 1_000_000_000 + nanos > u64::MAX ==> r == 0xffff_ffff_ffff_ffff,
{
}

/// An index of another form is not taken.
pub proof fn other_forms_are_not_taken(index: CachedHarnessIndex, r: Option<CachedHarnessIndex>)
    requires
        call_ensures(accept_schema, (index,), r),
    ensures
        r is Some <==> index.schema_version == 2,
        r is Some ==> r->0 == index,
{
}

} // verus!
