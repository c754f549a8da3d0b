//! Deleting a session of Pi with everything that belongs to it.

use crate::paths::{parent, parent_of};
use crate::pi::session::{InfoView, SessionInfo, is_listed};
use crate::session_index::index::{CachedHarnessIndex, IndexView, without_session};
use crate::session_index::refresh::{
    contains_after_push, drop_sessions, dropping_keeps_the_others, without_sessions,
};
use crate::steps::Step;
use crate::text::{contains_text, decimal, decimal_of, has_prefix, join, joined, occurs_at, str_eq};
use vstd::prelude::*;

verus! {

/// What was deleted, or would be.
#[derive(Clone, Debug)]
pub struct PiDeleteReport {
    /// The files, and the directory that became empty.
    pub paths: Vec<String>,
    /// Whether the directory of the project became empty and was deleted.
    pub pruned_project_dir: bool,
    /// How many child sessions were deleted with the session.
    pub cascaded: usize,
}

/// The content of a report.
pub ghost struct ReportView {
    pub paths: Seq<Seq<char>>,
    pub pruned: bool,
    pub cascaded: nat,
}

impl View for PiDeleteReport {
    type V = ReportView;

    open spec fn view(&self) -> ReportView {
        ReportView {
            paths: self.paths.deep_view(),
            pruned: self.pruned_project_dir,
            cascaded: self.cascaded as nat,
        }
    }
}

impl PiDeleteReport {
    /// How many paths the report names.
    pub fn count(&self) -> (r: usize)
        ensures
            r == self.paths.len(),
    {
        self.paths.len()
    }
}

impl Default for PiDeleteReport {
    fn default() -> (r: PiDeleteReport)
        ensures
            r@.paths.len() == 0,
            !r@.pruned,
            r@.cascaded == 0,
    {
        PiDeleteReport { paths: Vec::new(), pruned_project_dir: false, cascaded: 0 }
    }
}

/// The sessions that a session started, in order.
pub open spec fn children_of(sessions: Seq<InfoView>, id: Seq<char>) -> Seq<Seq<char>>
    decreases sessions.len(),
{
    if sessions.len() == 0 {
        Seq::empty()
    } else if sessions.last().parent_id == Some(id) {
        children_of(sessions.drop_last(), id).push(sessions.last().session_id)
    } else {
        children_of(sessions.drop_last(), id)
    }
}

/// The sessions that a session started, in order.
pub fn list_child_sessions(sessions: &Vec<SessionInfo>, session_id: &str) -> (r: Vec<String>)
    ensures
        r.deep_view() == children_of(sessions.deep_view(), session_id@),
{
    let ghost all = sessions.deep_view();
    let mut out: Vec<String> = Vec::new();
    let mut i: usize = 0;
    assert(all.take(0) =~= Seq::<InfoView>::empty());
    assert(out.deep_view() =~= Seq::<Seq<char>>::empty());
    while i < sessions.len()
        invariant
            i <= sessions.len(),
            all == sessions.deep_view(),
            out.deep_view() == children_of(all.take(i as int), session_id@),
        decreases sessions.len() - i,
    {
        assert(all.take(i + 1).drop_last() =~= all.take(i as int));
        assert(all.take(i + 1).last() == sessions@[i as int]@);
        let ghost before = out.deep_view();
        let is_child = match &sessions[i].parent_id {
            Some(p) => str_eq(p.as_str(), session_id),
            None => false,
        };
        if is_child {
            out.push(sessions[i].session_id.clone());
            assert(out.deep_view() =~= before.push(sessions@[i as int].session_id@));
        }
        i += 1;
    }
    assert(all.take(i as int) =~= all);
    out
}

/// Sessions, each behind all that lies below it: depth first. One that was seen is
/// not taken again, so that there are no more depths than sessions.
pub open spec fn trees_of(
    sessions: Seq<InfoView>,
    seen: Seq<Seq<char>>,
    ids: Seq<Seq<char>>,
    depth: nat,
) -> Seq<Seq<char>>
    decreases depth, ids.len(),
{
    if depth == 0 || ids.len() == 0 {
        Seq::empty()
    } else {
        let before = trees_of(sessions, seen, ids.drop_last(), depth);
        let id = ids.last();
        if seen.contains(id) || before.contains(id) {
            before
        } else {
            let below = trees_of(
                sessions,
                (seen + before).push(id),
                children_of(sessions, id),
                (depth - 1) as nat,
            );
            before + below.push(id)
        }
    }
}

/// The sessions that a session started, those that they started, and so on, each
/// behind all that lies below it.
pub open spec fn descendants_of(sessions: Seq<InfoView>, id: Seq<char>) -> Seq<Seq<char>> {
    trees_of(sessions, seq![id], children_of(sessions, id), sessions.len())
}

/// Whether a session was started by another.
pub open spec fn started(sessions: Seq<InfoView>, child: Seq<char>, parent: Seq<char>) -> bool {
    exists|i: int|
        0 <= i < sessions.len() && (#[trigger] sessions[i]).session_id == child
            && sessions[i].parent_id == Some(parent)
}

/// Whether a rank rises from each session to those that it started, so that none
/// stands below itself.
pub open spec fn comes_down(sessions: Seq<InfoView>, rank: spec_fn(Seq<char>) -> nat) -> bool {
    forall|x: Seq<char>, p: Seq<char>| #[trigger] started(sessions, x, p) ==> rank(p) < rank(x)
}

/// Whether each session stands behind those that it started.
pub open spec fn in_order(sessions: Seq<InfoView>, ids: Seq<Seq<char>>) -> bool {
    forall|i: int, j: int|
        0 <= i < ids.len() && 0 <= j < ids.len() && started(
            sessions,
            #[trigger] ids[i],
            #[trigger] ids[j],
        ) ==> i < j
}

proof fn children_are_started(sessions: Seq<InfoView>, id: Seq<char>)
    ensures
        forall|x: Seq<char>| #[trigger]
            children_of(sessions, id).contains(x) <==> started(sessions, x, id),
    decreases sessions.len(),
{
    let all = children_of(sessions, id);
    if sessions.len() > 0 {
        let rest = sessions.drop_last();
        let s = sessions.last();
        let before = children_of(rest, id);
        children_are_started(rest, id);
        assert forall|x: Seq<char>| #[trigger] all.contains(x) <==> started(sessions, x, id) by {
            contains_after_push(before, s.session_id, x);
            if started(rest, x, id) {
                let i = choose|i: int|
                    0 <= i < rest.len() && (#[trigger] rest[i]).session_id == x
                        && rest[i].parent_id == Some(id);
                assert(sessions[i] == rest[i]);
            }
            if started(sessions, x, id) {
                let i = choose|i: int|
                    0 <= i < sessions.len() && (#[trigger] sessions[i]).session_id == x
                        && sessions[i].parent_id == Some(id);
                if i < rest.len() {
                    assert(rest[i] == sessions[i]);
                }
            }
            if s.parent_id == Some(id) && s.session_id == x {
                assert(sessions[sessions.len() - 1] == s);
            }
        }
    }
}

/// The identifiers of sessions, and one more.
spec fn known_ids(sessions: Seq<InfoView>, id: Seq<char>) -> Seq<Seq<char>> {
    sessions.map_values(|s: InfoView| s.session_id).push(id)
}

proof fn known_are_few(sessions: Seq<InfoView>, id: Seq<char>, seen: Seq<Seq<char>>)
    requires
        seen.no_duplicates(),
        are_known(sessions, id, seen),
    ensures
        seen.len() <= sessions.len() + 1,
{
    let all = known_ids(sessions, id);
    seen.unique_seq_to_set();
    all.lemma_cardinality_of_set();
    assert(seen.to_set().subset_of(all.to_set()));
    vstd::set_lib::lemma_len_subset(seen.to_set(), all.to_set());
}

/// Whether all sessions that those in `some` started are among `all`.
spec fn closed_below(sessions: Seq<InfoView>, some: Seq<Seq<char>>, all: Seq<Seq<char>>) -> bool {
    forall|x: Seq<char>, p: Seq<char>| #[trigger]
        started(sessions, x, p) && some.contains(p) ==> all.contains(x)
}

/// Whether sessions are known.
spec fn are_known(sessions: Seq<InfoView>, id: Seq<char>, some: Seq<Seq<char>>) -> bool {
    forall|x: Seq<char>| #[trigger] some.contains(x) ==> known_ids(sessions, id).contains(x)
}

/// Whether a session is one of some, or was started by one of others.
spec fn has_place(
    sessions: Seq<InfoView>,
    x: Seq<char>,
    ids: Seq<Seq<char>>,
    found: Seq<Seq<char>>,
) -> bool {
    ids.contains(x) || exists|p: Seq<char>| #[trigger] started(sessions, x, p) && found.contains(p)
}

/// What is to be shown of trees.
spec fn are_trees(
    sessions: Seq<InfoView>,
    id: Seq<char>,
    seen: Seq<Seq<char>>,
    ids: Seq<Seq<char>>,
    found: Seq<Seq<char>>,
) -> bool {
    &&& found.no_duplicates()
    &&& are_known(sessions, id, found)
    &&& forall|x: Seq<char>| #[trigger]
        found.contains(x) ==> !seen.contains(x) && has_place(sessions, x, ids, found)
    &&& forall|x: Seq<char>| #[trigger] ids.contains(x) ==> seen.contains(x) || found.contains(x)
    &&& closed_below(sessions, found, seen + found)
    &&& forall|rank: spec_fn(Seq<char>) -> nat| #[trigger]
        comes_down(sessions, rank) ==> in_order(sessions, found)
}

proof fn trees_stand_below(
    sessions: Seq<InfoView>,
    ids: Seq<Seq<char>>,
    found: Seq<Seq<char>>,
    rank: spec_fn(Seq<char>) -> nat,
    top: nat,
    x: Seq<char>,
)
    requires
        comes_down(sessions, rank),
        forall|y: Seq<char>| #[trigger] ids.contains(y) ==> rank(y) > top,
        forall|y: Seq<char>| #[trigger] found.contains(y) ==> has_place(sessions, y, ids, found),
        found.contains(x),
    ensures
        rank(x) > top,
    decreases rank(x),
{
    assert(has_place(sessions, x, ids, found));
    if !ids.contains(x) {
        let p = choose|p: Seq<char>| #[trigger] started(sessions, x, p) && found.contains(p);
        trees_stand_below(sessions, ids, found, rank, top, p);
    }
}

proof fn trees_join_in_order(
    sessions: Seq<InfoView>,
    id: Seq<char>,
    seen: Seq<Seq<char>>,
    ids: Seq<Seq<char>>,
    before: Seq<Seq<char>>,
    top: Seq<char>,
    below: Seq<Seq<char>>,
    rank: spec_fn(Seq<char>) -> nat,
)
    requires
        comes_down(sessions, rank),
        are_trees(sessions, id, seen, ids, before),
        !seen.contains(top),
        !before.contains(top),
        are_trees(sessions, id, (seen + before).push(top), children_of(sessions, top), below),
    ensures
        in_order(sessions, before + below.push(top)),
{
    let found = before + below.push(top);
    let more = (seen + before).push(top);
    children_are_started(sessions, top);
    assert forall|i: int, j: int|
        0 <= i < found.len() && 0 <= j < found.len() && started(
            sessions,
            #[trigger] found[i],
            #[trigger] found[j],
        ) implies i < j by {
        let x = found[i];
        let p = found[j];
        if j < before.len() {
            assert(before[j] == p);
            assert(before.contains(p));
            assert((seen + before).contains(x));
            contains_in_sum(seen, before, x);
            if i < before.len() {
                assert(before[i] == x);
            } else {
                contains_after_push(seen + before, top, x);
                if i < found.len() - 1 {
                    assert(below[i - before.len()] == x);
                    assert(below.contains(x));
                    assert(more.contains(x));
                }
                if before.contains(x) {
                    assert(more.contains(x));
                }
            }
        } else if j < found.len() - 1 {
            assert(below[j - before.len()] == p);
            assert(below.contains(p));
            if i == found.len() - 1 {
                assert forall|y: Seq<char>| #[trigger]
                    children_of(sessions, top).contains(y) implies rank(y) > rank(top) by {
                    assert(started(sessions, y, top));
                }
                trees_stand_below(
                    sessions,
                    children_of(sessions, top),
                    below,
                    rank,
                    rank(top),
                    p,
                );
            } else if i >= before.len() {
                assert(below[i - before.len()] == x);
            }
        }
    }
}

proof fn children_are_known(sessions: Seq<InfoView>, id: Seq<char>, parent: Seq<char>)
    ensures
        are_known(sessions, id, children_of(sessions, parent)),
{
    children_are_started(sessions, parent);
    assert forall|x: Seq<char>| #[trigger]
        children_of(sessions, parent).contains(x) implies known_ids(sessions, id).contains(x) by {
        let i = choose|i: int|
            0 <= i < sessions.len() && (#[trigger] sessions[i]).session_id == x
                && sessions[i].parent_id == Some(parent);
        assert(known_ids(sessions, id)[i] == x);
    }
}

proof fn all_are_seen(
    sessions: Seq<InfoView>,
    id: Seq<char>,
    seen: Seq<Seq<char>>,
    ids: Seq<Seq<char>>,
)
    requires
        seen.no_duplicates(),
        seen.len() >= sessions.len() + 1,
        are_known(sessions, id, seen),
        are_known(sessions, id, ids),
    ensures
        forall|x: Seq<char>| #[trigger] ids.contains(x) ==> seen.contains(x),
{
    assert forall|x: Seq<char>| #[trigger] ids.contains(x) implies seen.contains(x) by {
        if !seen.contains(x) {
            let more = seen.push(x);
            assert forall|y: Seq<char>| #[trigger] more.contains(y) implies known_ids(
                sessions,
                id,
            ).contains(y) by {
                contains_after_push(seen, x, y);
            }
            assert forall|i: int, j: int|
                0 <= i < more.len() && 0 <= j < more.len() && i != j implies more[i] != more[j] by {
                if i == seen.len() {
                    assert(seen.contains(seen[j]));
                } else if j == seen.len() {
                    assert(seen.contains(seen[i]));
                }
            }
            known_are_few(sessions, id, more);
        }
    }
}

proof fn trees_join(
    sessions: Seq<InfoView>,
    id: Seq<char>,
    seen: Seq<Seq<char>>,
    ids: Seq<Seq<char>>,
    before: Seq<Seq<char>>,
    below: Seq<Seq<char>>,
)
    requires
        ids.len() > 0,
        are_known(sessions, id, ids),
        are_trees(sessions, id, seen, ids.drop_last(), before),
        !seen.contains(ids.last()),
        !before.contains(ids.last()),
        are_trees(
            sessions,
            id,
            (seen + before).push(ids.last()),
            children_of(sessions, ids.last()),
            below,
        ),
    ensures
        are_trees(sessions, id, seen, ids, before + below.push(ids.last())),
{
    let top = ids.last();
    let rest = ids.drop_last();
    let tree = below.push(top);
    let found = before + tree;
    let more = (seen + before).push(top);
    assert(ids =~= rest.push(top));
    children_are_started(sessions, top);
    assert forall|x: Seq<char>| #[trigger] found.contains(x) <==> before.contains(x)
        || below.contains(x) || x == top by {
        contains_in_sum(before, tree, x);
        contains_after_push(below, top, x);
    }
    assert forall|x: Seq<char>| #[trigger] more.contains(x) <==> seen.contains(x) || before.contains(
        x,
    ) || x == top by {
        contains_in_sum(seen, before, x);
        contains_after_push(seen + before, top, x);
    }
    assert forall|x: Seq<char>| #[trigger] ids.contains(x) <==> rest.contains(x) || x == top by {
        contains_after_push(rest, top, x);
    }
    assert(found.no_duplicates()) by {
        assert forall|i: int, j: int| 0 <= i < j < found.len() implies found[i] != found[j] by {
            if i < before.len() && j >= before.len() {
                assert(before.contains(before[i]));
                if j < found.len() - 1 {
                    assert(below.contains(below[j - before.len()]));
                }
            } else if i >= before.len() {
                assert(below.contains(below[i - before.len()]));
            }
        }
    }
    assert forall|x: Seq<char>| #[trigger] found.contains(x) implies !seen.contains(x)
        && has_place(sessions, x, ids, found) by {
        if before.contains(x) {
            assert(has_place(sessions, x, rest, before));
            if !rest.contains(x) {
                let p = choose|p: Seq<char>| #[trigger]
                    started(sessions, x, p) && before.contains(p);
                assert(started(sessions, x, p) && found.contains(p));
            }
        } else if below.contains(x) {
            assert(has_place(sessions, x, children_of(sessions, top), below));
            if children_of(sessions, top).contains(x) {
                assert(started(sessions, x, top) && found.contains(top));
            } else {
                let p = choose|p: Seq<char>| #[trigger]
                    started(sessions, x, p) && below.contains(p);
                assert(started(sessions, x, p) && found.contains(p));
            }
        }
    }
    assert forall|x: Seq<char>, p: Seq<char>| #[trigger]
        started(sessions, x, p) && found.contains(p) implies (seen + found).contains(x) by {
        contains_in_sum(seen, found, x);
        if before.contains(p) {
            contains_in_sum(seen, before, x);
        } else if below.contains(p) {
            contains_in_sum(more, below, x);
        } else {
            assert(children_of(sessions, top).contains(x));
        }
    }
    assert(are_known(sessions, id, found)) by {
        assert forall|x: Seq<char>| #[trigger] found.contains(x) implies known_ids(
            sessions,
            id,
        ).contains(x) by {
            assert(before.contains(x) || below.contains(x) || ids.contains(x));
        }
    }
    assert(closed_below(sessions, found, seen + found));
    assert forall|rank: spec_fn(Seq<char>) -> nat| #[trigger] comes_down(sessions, rank) implies
        in_order(sessions, found) by {
        trees_join_in_order(sessions, id, seen, rest, before, top, below, rank);
    }
}

proof fn trees_are_complete(
    sessions: Seq<InfoView>,
    id: Seq<char>,
    seen: Seq<Seq<char>>,
    ids: Seq<Seq<char>>,
    depth: nat,
)
    requires
        seen.no_duplicates(),
        seen.len() + depth >= sessions.len() + 1,
        are_known(sessions, id, seen),
        are_known(sessions, id, ids),
    ensures
        are_trees(sessions, id, seen, ids, trees_of(sessions, seen, ids, depth)),
    decreases depth, ids.len(),
{
    let found = trees_of(sessions, seen, ids, depth);
    if ids.len() == 0 {
    } else if depth == 0 {
        all_are_seen(sessions, id, seen, ids);
    } else {
        let rest = ids.drop_last();
        let top = ids.last();
        assert(ids =~= rest.push(top));
        assert forall|x: Seq<char>| #[trigger] ids.contains(x) <==> rest.contains(x) || x == top by {
            contains_after_push(rest, top, x);
        }
        assert forall|x: Seq<char>| #[trigger] rest.contains(x) implies known_ids(
            sessions,
            id,
        ).contains(x) by {
            assert(ids.contains(x));
        }
        let before = trees_of(sessions, seen, rest, depth);
        trees_are_complete(sessions, id, seen, rest, depth);
        if seen.contains(top) || before.contains(top) {
            assert forall|x: Seq<char>| #[trigger] found.contains(x) implies has_place(
                sessions,
                x,
                ids,
                found,
            ) by {
                assert(has_place(sessions, x, rest, before));
            }
        } else {
            let more = (seen + before).push(top);
            assert forall|x: Seq<char>| #[trigger] more.contains(x) <==> seen.contains(x)
                || before.contains(x) || x == top by {
                contains_in_sum(seen, before, x);
                contains_after_push(seen + before, top, x);
            }
            assert(more.no_duplicates()) by {
                assert forall|i: int, j: int| 0 <= i < j < more.len() implies more[i] != more[j] by {
                    if i < seen.len() {
                        assert(seen.contains(seen[i]));
                        if seen.len() <= j < more.len() - 1 {
                            assert(before.contains(before[j - seen.len()]));
                        }
                    } else {
                        assert(before.contains(before[i - seen.len()]));
                    }
                }
            }
            assert forall|x: Seq<char>| #[trigger] more.contains(x) implies known_ids(
                sessions,
                id,
            ).contains(x) by {
                if x == top {
                    assert(ids.contains(x));
                }
            }
            children_are_known(sessions, id, top);
            let children = children_of(sessions, top);
            trees_are_complete(sessions, id, more, children, (depth - 1) as nat);
            trees_join(
                sessions,
                id,
                seen,
                ids,
                before,
                trees_of(sessions, more, children, (depth - 1) as nat),
            );
        }
    }
}

proof fn contains_in_sum(a: Seq<Seq<char>>, b: Seq<Seq<char>>, x: Seq<char>)
    ensures
        (a + b).contains(x) <==> a.contains(x) || b.contains(x),
{
    let s = a + b;
    if s.contains(x) {
        let i = choose|i: int| 0 <= i < s.len() && s[i] == x;
        if i < a.len() {
            assert(a[i] == x);
        } else {
            assert(b[i - a.len()] == x);
        }
    }
    if a.contains(x) {
        let i = choose|i: int| 0 <= i < a.len() && a[i] == x;
        assert(s[i] == x);
    }
    if b.contains(x) {
        let i = choose|i: int| 0 <= i < b.len() && b[i] == x;
        assert(s[a.len() + i] == x);
    }
}

proof fn descendants_are_trees(sessions: Seq<InfoView>, id: Seq<char>)
    ensures
        are_trees(
            sessions,
            id,
            seq![id],
            children_of(sessions, id),
            descendants_of(sessions, id),
        ),
{
    let root = seq![id];
    assert forall|x: Seq<char>| #[trigger] root.contains(x) implies known_ids(
        sessions,
        id,
    ).contains(x) by {
        assert(known_ids(sessions, id)[sessions.len() as int] == id);
    }
    children_are_known(sessions, id, id);
    trees_are_complete(sessions, id, root, children_of(sessions, id), sessions.len());
}

/// The subtree of a session is complete and holds nothing else: every session that
/// the session or one of the subtree started is in it, but for the session itself;
/// each was started so, and is listed once.
pub proof fn subtrees_are_complete(sessions: Seq<InfoView>, id: Seq<char>)
    ensures
        ({
            let found = descendants_of(sessions, id);
            &&& found.no_duplicates()
            &&& !found.contains(id)
            &&& forall|x: Seq<char>, p: Seq<char>| #[trigger]
                started(sessions, x, p) && x != id && (p == id || found.contains(p))
                    ==> found.contains(x)
            &&& forall|x: Seq<char>| #[trigger]
                found.contains(x) ==> exists|p: Seq<char>| #[trigger]
                    started(sessions, x, p) && (p == id || found.contains(p))
        }),
{
    let found = descendants_of(sessions, id);
    let root = seq![id];
    let ids = children_of(sessions, id);
    assert(root[0] == id);
    assert(root.contains(id));
    children_are_started(sessions, id);
    descendants_are_trees(sessions, id);
    assert forall|x: Seq<char>, p: Seq<char>| #[trigger]
        started(sessions, x, p) && x != id && (p == id || found.contains(p)) implies found.contains(
        x,
    ) by {
        if p == id {
            assert(ids.contains(x));
        }
        contains_in_sum(root, found, x);
    }
    assert forall|x: Seq<char>| #[trigger] found.contains(x) implies exists|p: Seq<char>|
     #[trigger]
        started(sessions, x, p) && (p == id || found.contains(p)) by {
        assert(has_place(sessions, x, ids, found));
        if ids.contains(x) {
            assert(started(sessions, x, id));
        }
    }
}

/// Where no session stands below itself, each in a subtree stands behind those that
/// it started, so that these are deleted first.
pub proof fn what_was_started_goes_first(
    sessions: Seq<InfoView>,
    id: Seq<char>,
    rank: spec_fn(Seq<char>) -> nat,
)
    requires
        comes_down(sessions, rank),
    ensures
        in_order(sessions, descendants_of(sessions, id)),
{
    descendants_are_trees(sessions, id);
}

fn is_among(ids: &Vec<String>, id: &str) -> (r: bool)
    ensures
        r == ids.deep_view().contains(id@),
{
    let r = is_listed(ids, id);
    proof {
        let all = ids.deep_view();
        if r {
            let i = choose|i: int| 0 <= i < ids.len() && (#[trigger] ids@[i])@ == id@;
            assert(all[i] == id@);
        }
        if all.contains(id@) {
            let i = choose|i: int| 0 <= i < all.len() && all[i] == id@;
            assert(ids@[i]@ == id@);
        }
    }
    r
}

fn list_trees(
    sessions: &Vec<SessionInfo>,
    seen: &Vec<String>,
    ids: &Vec<String>,
    depth: usize,
) -> (r: Vec<String>)
    ensures
        r.deep_view() == trees_of(
            sessions.deep_view(),
            seen.deep_view(),
            ids.deep_view(),
            depth as nat,
        ),
    decreases depth,
{
    let mut out: Vec<String> = Vec::new();
    assert(out.deep_view() =~= Seq::<Seq<char>>::empty());
    if depth == 0 {
        return out;
    }
    let ghost all = ids.deep_view();
    let mut i: usize = 0;
    while i < ids.len()
        invariant
            i <= ids.len(),
            depth > 0,
            all == ids.deep_view(),
            out.deep_view() == trees_of(
                sessions.deep_view(),
                seen.deep_view(),
                all.take(i as int),
                depth as nat,
            ),
        decreases ids.len() - i,
    {
        assert(all.take(i + 1).drop_last() =~= all.take(i as int));
        assert(all.take(i + 1).last() == ids@[i as int]@);
        let id = ids[i].as_str();
        if !is_among(seen, id) && !is_among(&out, id) {
            let mut more: Vec<String> = Vec::new();
            copy_onto(&mut more, seen);
            copy_onto(&mut more, &out);
            let ghost known = more.deep_view();
            more.push(ids[i].clone());
            assert(known =~= seen.deep_view() + out.deep_view());
            assert(more.deep_view() =~= known.push(id@));
            let children = list_child_sessions(sessions, id);
            let mut tree = list_trees(sessions, &more, &children, depth - 1);
            let ghost below = tree.deep_view();
            tree.push(ids[i].clone());
            assert(tree.deep_view() =~= below.push(id@));
            copy_onto(&mut out, &tree);
        }
        i += 1;
    }
    assert(all.take(i as int) =~= all);
    out
}

fn copy_onto(to: &mut Vec<String>, from: &Vec<String>)
    ensures
        final(to).deep_view() == old(to).deep_view() + from.deep_view(),
{
    let ghost start = to.deep_view();
    let ghost all = from.deep_view();
    let mut i: usize = 0;
    assert(start + all.take(0) =~= start);
    while i < from.len()
        invariant
            i <= from.len(),
            all == from.deep_view(),
            to.deep_view() == start + all.take(i as int),
        decreases from.len() - i,
    {
        let ghost before = to.deep_view();
        to.push(from[i].clone());
        assert(to.deep_view() =~= before.push(from@[i as int]@));
        assert(start + all.take(i + 1) =~= (start + all.take(i as int)).push(all[i as int]));
        i += 1;
    }
    assert(all.take(i as int) =~= all);
}

/// The sessions that a session started, those that they started, and so on, each
/// behind all that lies below it.
pub fn list_descendants(sessions: &Vec<SessionInfo>, session_id: &str) -> (r: Vec<String>)
    ensures
        r.deep_view() == descendants_of(sessions.deep_view(), session_id@),
{
    let mut seen: Vec<String> = Vec::new();
    seen.push(session_id.to_string());
    assert(seen.deep_view() =~= seq![session_id@]);
    assert(sessions.deep_view().len() == sessions.len());
    list_trees(sessions, &seen, &list_child_sessions(sessions, session_id), sessions.len())
}

/// Identifiers for a message: five of them, and how many more there are.
pub open spec fn preview(ids: Seq<Seq<char>>) -> Seq<char> {
    if ids.len() <= 5 {
        joined(ids, ", "@)
    } else {
        joined(ids.take(5), ", "@) + ", ... and "@ + decimal((ids.len() - 5) as nat) + " more"@
    }
}

/// Identifiers for a message: five of them, and how many more there are.
pub fn preview_ids(ids: &Vec<String>) -> (r: String)
    ensures
        r@ == preview(ids.deep_view()),
{
    if ids.len() <= 5 {
        assert(ids.deep_view().len() == ids.len());
        return join(ids, ", ");
    }
    let mut head: Vec<String> = Vec::new();
    let mut i: usize = 0;
    while i < 5
        invariant
            i <= 5 < ids.len(),
            head.len() == i,
            forall|j: int| 0 <= j < i ==> (#[trigger] head@[j])@ == ids@[j]@,
        decreases 5 - i,
    {
        head.push(ids[i].clone());
        i += 1;
    }
    assert(head.deep_view() =~= ids.deep_view().take(5));
    let mut s = join(&head, ", ");
    s.append(", ... and ");
    s.append(decimal_of((ids.len() - 5) as u64).as_str());
    s.append(" more");
    s
}

/// Why a session with children is not deleted alone.
pub open spec fn refusal(session_id: Seq<char>, children: Seq<Seq<char>>) -> Seq<char> {
    "pi session "@ + session_id + " has "@ + decimal(children.len()) + " child session(s) ("@
        + preview(children) + "); pass --cascade to recursively delete the subtree"@
}

fn refusal_text(session_id: &str, children: &Vec<String>) -> (r: String)
    ensures
        r@ == refusal(session_id@, children.deep_view()),
{
    let mut s = "pi session ".to_string();
    s.append(session_id);
    s.append(" has ");
    s.append(decimal_of(children.len() as u64).as_str());
    assert(children.deep_view().len() == children.len());
    s.append(" child session(s) (");
    s.append(preview_ids(children).as_str());
    s.append("); pass --cascade to recursively delete the subtree");
    s
}

/// Whether all of some texts are among others.
pub open spec fn all_among(some: Seq<Seq<char>>, others: Seq<Seq<char>>) -> bool {
    forall|i: int| 0 <= i < some.len() ==> others.contains(#[trigger] some[i])
}

/// Whether a directory holds nothing but given paths. One that cannot be listed
/// may hold anything.
pub open spec fn holds_only(listed: Option<Seq<Seq<char>>>, paths: Seq<Seq<char>>) -> bool {
    listed matches Some(entries) && all_among(entries, paths)
}

/// Whether a directory would become empty without given paths, given what it holds.
pub fn would_become_empty_after(listed: Option<&Vec<String>>, paths: &Vec<String>) -> (r: bool)
    ensures
        r == holds_only(listed.deep_view(), paths.deep_view()),
{
    let entries = match listed {
        Some(e) => e,
        None => return false,
    };
    let ghost all = entries.deep_view();
    let ghost gone = paths.deep_view();
    let mut i: usize = 0;
    while i < entries.len()
        invariant
            i <= entries.len(),
            all == entries.deep_view(),
            gone == paths.deep_view(),
            listed.deep_view() == Some(all),
            forall|j: int| 0 <= j < i ==> gone.contains(#[trigger] all[j]),
        decreases entries.len() - i,
    {
        assert(all[i as int] == entries@[i as int]@);
        if !is_listed(paths, entries[i].as_str()) {
            assert(!gone.contains(all[i as int])) by {
                if gone.contains(all[i as int]) {
                    let k = choose|k: int| 0 <= k < gone.len() && gone[k] == all[i as int];
                    assert(paths@[k]@ == all[i as int]);
                }
            }
            assert(!all_among(all, gone));
            return false;
        }
        proof {
            let k = choose|k: int| 0 <= k < paths.len() && (#[trigger] paths@[k])@ == all[i as int];
            assert(gone[k] == all[i as int]);
        }
        i += 1;
    }
    true
}

/// What came of deleting a file.
#[derive(Clone, Copy, PartialEq, Eq, Structural, Debug)]
pub enum Removal {
    /// It was not there.
    Missing,
    Done,
    Failed,
}

/// The children that have a file, each with its file.
pub open spec fn with_files(children: Seq<Seq<char>>, files: Seq<Option<Seq<char>>>) -> Seq<
    (Seq<char>, Seq<char>),
>
    decreases children.len(),
{
    if children.len() == 0 || children.len() != files.len() {
        Seq::empty()
    } else {
        let before = with_files(children.drop_last(), files.drop_last());
        match files.last() {
            Some(path) => before.push((children.last(), path)),
            None => before,
        }
    }
}

/// The files of children.
pub open spec fn paths_of(found: Seq<(Seq<char>, Seq<char>)>) -> Seq<Seq<char>> {
    found.map_values(|f: (Seq<char>, Seq<char>)| f.1)
}

/// The paths that go with the session's own file: the file, and its directory
/// where that becomes empty.
pub open spec fn own_paths(own: Option<Seq<char>>, emptied: bool) -> Seq<Seq<char>> {
    match own {
        Some(path) => match parent_of(path) {
            Some(dir) => if emptied {
                seq![path, dir]
            } else {
                seq![path]
            },
            None => seq![path],
        },
        None => Seq::empty(),
    }
}

/// Whether the directory of the session's own file goes with it.
pub open spec fn prunes(own: Option<Seq<char>>, emptied: bool) -> bool {
    emptied && own is Some && parent_of(own->0) is Some
}

/// What would be deleted.
pub open spec fn dry_report(
    children: Seq<Seq<char>>,
    found: Seq<(Seq<char>, Seq<char>)>,
    own: Option<Seq<char>>,
    would_empty: bool,
) -> ReportView {
    ReportView {
        paths: paths_of(found) + own_paths(own, would_empty),
        pruned: prunes(own, would_empty),
        cascaded: children.len(),
    }
}

/// The files of children that were deleted.
pub open spec fn removed(found: Seq<(Seq<char>, Seq<char>)>, removals: Seq<Removal>) -> Seq<Seq<char>>
    decreases removals.len(),
{
    if removals.len() == 0 {
        Seq::empty()
    } else {
        let n = removals.len() - 1;
        let before = removed(found, removals.drop_last());
        if removals.last() == Removal::Done {
            before.push(found[n].1)
        } else {
            before
        }
    }
}

/// The session's own file, where it was there and was deleted.
pub open spec fn own_removed(own: Option<Seq<char>>, removal: Removal) -> Option<Seq<char>> {
    if removal == Removal::Done {
        own
    } else {
        None
    }
}

/// What was deleted.
pub open spec fn real_report(
    found: Seq<(Seq<char>, Seq<char>)>,
    removals: Seq<Removal>,
    own: Option<Seq<char>>,
    own_removal: Removal,
    pruned: bool,
) -> ReportView {
    ReportView {
        paths: removed(found, removals) + own_paths(own_removed(own, own_removal), pruned),
        pruned: prunes(own_removed(own, own_removal), pruned),
        cascaded: found.len(),
    }
}

/// What is to be deleted, and how.
#[derive(Clone, Debug)]
pub struct DeleteJob {
    pub session_id: String,
    /// Whether the sessions that the session started go with it.
    pub cascade: bool,
    /// Whether only to tell what would be deleted.
    pub dry_run: bool,
    /// The sessions that the session started.
    pub children: Vec<String>,
    /// These, those that they started, and so on, each behind all that lies below it.
    pub subtree: Vec<String>,
}

/// What is to be deleted, and how.
pub ghost struct JobView {
    pub session_id: Seq<char>,
    pub cascade: bool,
    pub dry_run: bool,
    pub children: Seq<Seq<char>>,
    pub subtree: Seq<Seq<char>>,
}

impl View for DeleteJob {
    type V = JobView;

    open spec fn view(&self) -> JobView {
        JobView {
            session_id: self.session_id@,
            cascade: self.cascade,
            dry_run: self.dry_run,
            children: self.children.deep_view(),
            subtree: self.subtree.deep_view(),
        }
    }
}

/// The deletion of a session among others.
pub open spec fn deletion_of(
    session_id: Seq<char>,
    cascade: bool,
    dry_run: bool,
    sessions: Seq<InfoView>,
) -> JobView {
    JobView {
        session_id,
        cascade,
        dry_run,
        children: children_of(sessions, session_id),
        subtree: descendants_of(sessions, session_id),
    }
}

/// The deletion of a session among others.
pub fn plan_deletion(
    session_id: &str,
    cascade: bool,
    dry_run: bool,
    sessions: &Vec<SessionInfo>,
) -> (r: DeleteJob)
    ensures
        r@ == deletion_of(session_id@, cascade, dry_run, sessions.deep_view()),
{
    DeleteJob {
        session_id: session_id.to_string(),
        cascade,
        dry_run,
        children: list_child_sessions(sessions, session_id),
        subtree: list_descendants(sessions, session_id),
    }
}

/// What was answered to the requests of a deletion so far.
#[derive(Clone, Debug)]
pub struct DeleteAnswers {
    /// The session's own file.
    pub own: Option<Option<String>>,
    /// The files of the subtree.
    pub files: Vec<Option<String>>,
    /// Whether the directory of the session's own file would become empty.
    pub would_empty: Option<bool>,
    /// What came of deleting the files of the subtree.
    pub removals: Vec<Removal>,
    /// What came of deleting the session's own file.
    pub own_removal: Option<Removal>,
    /// Whether the directory was empty and was deleted.
    pub pruned: Option<bool>,
}

/// What was answered to the requests of a deletion so far.
#[verifier::ext_equal]
pub ghost struct AnswersView {
    pub own: Option<Option<Seq<char>>>,
    pub files: Seq<Option<Seq<char>>>,
    pub would_empty: Option<bool>,
    pub removals: Seq<Removal>,
    pub own_removal: Option<Removal>,
    pub pruned: Option<bool>,
}

impl View for DeleteAnswers {
    type V = AnswersView;

    open spec fn view(&self) -> AnswersView {
        AnswersView {
            own: self.own.deep_view(),
            files: self.files.deep_view(),
            would_empty: self.would_empty,
            removals: self.removals@,
            own_removal: self.own_removal,
            pruned: self.pruned,
        }
    }
}

/// Before anything was asked.
pub open spec fn no_answers() -> AnswersView {
    AnswersView {
        own: None,
        files: Seq::empty(),
        would_empty: None,
        removals: Seq::empty(),
        own_removal: None,
        pruned: None,
    }
}

impl DeleteAnswers {
    /// Before anything was asked.
    pub fn none() -> (r: DeleteAnswers)
        ensures
            r@ == no_answers(),
    {
        let r = DeleteAnswers {
            own: None,
            files: Vec::new(),
            would_empty: None,
            removals: Vec::new(),
            own_removal: None,
            pruned: None,
        };
        assert(r@ =~= no_answers());
        r
    }
}

/// Whether answers can be answers to the requests of a deletion: there are no
/// more of a kind than requests.
pub open spec fn answers_fit(job: JobView, a: AnswersView) -> bool {
    a.files.len() <= job.subtree.len() && a.removals.len() <= with_files(job.subtree, a.files).len()
}

/// A request of a deletion.
#[derive(Clone, Debug)]
pub enum DeleteRequest {
    /// Which file does the session have?
    Find(String),
    /// Would the directory be empty without the file?
    WouldEmpty(String, String),
    /// Delete the file.
    Unlink(String),
    /// Delete the directory if it is empty.
    Prune(String),
}

/// A request of a deletion.
pub ghost enum RequestView {
    Find(Seq<char>),
    WouldEmpty(Seq<char>, Seq<char>),
    Unlink(Seq<char>),
    Prune(Seq<char>),
}

impl View for DeleteRequest {
    type V = RequestView;

    open spec fn view(&self) -> RequestView {
        match self {
            DeleteRequest::Find(id) => RequestView::Find(id@),
            DeleteRequest::WouldEmpty(dir, path) => RequestView::WouldEmpty(dir@, path@),
            DeleteRequest::Unlink(path) => RequestView::Unlink(path@),
            DeleteRequest::Prune(dir) => RequestView::Prune(dir@),
        }
    }
}

/// Why the file of a session of the subtree is still there.
pub open spec fn child_failure(found: (Seq<char>, Seq<char>)) -> Seq<char> {
    "Failed to remove pi child session "@ + found.0 + " at "@ + found.1
}

/// The session's own file, where it is known that there is one.
pub open spec fn own_file(a: AnswersView) -> Option<Seq<char>> {
    match a.own {
        Some(f) => f,
        None => None,
    }
}

/// A dry run, once the files are known: whether the directory would become empty,
/// where there is one, and then what would be deleted.
pub open spec fn dry_step(job: JobView, a: AnswersView) -> Step<
    RequestView,
    Result<ReportView, Seq<char>>,
> {
    let end = Step::Done(
        Ok(
            dry_report(
                job.subtree,
                with_files(job.subtree, a.files),
                own_file(a),
                a.would_empty == Some(true),
            ),
        ),
    );
    match own_file(a) {
        Some(path) => match parent_of(path) {
            Some(dir) => if a.would_empty is None {
                Step::Request(RequestView::WouldEmpty(dir, path))
            } else {
                end
            },
            None => end,
        },
        None => end,
    }
}

/// A deletion, once the files are known: the files of the subtree in turn, the
/// session's own, and its directory, up to the first file that is still there.
pub open spec fn real_step(job: JobView, a: AnswersView) -> Step<
    RequestView,
    Result<ReportView, Seq<char>>,
> {
    let found = with_files(job.subtree, a.files);
    let own_removal = match a.own_removal {
        Some(r) => r,
        None => Removal::Missing,
    };
    let end = Step::Done(
        Ok(real_report(found, a.removals, own_file(a), own_removal, a.pruned == Some(true))),
    );
    if a.removals.len() > 0 && a.removals.last() == Removal::Failed {
        Step::Done(Err(child_failure(found[a.removals.len() - 1])))
    } else if a.removals.len() < found.len() {
        Step::Request(RequestView::Unlink(found[a.removals.len() as int].1))
    } else {
        match (own_file(a), a.own_removal) {
            (None, _) => end,
            (Some(path), None) => Step::Request(RequestView::Unlink(path)),
            (Some(path), Some(Removal::Failed)) => Step::Done(
                Err("Failed to remove pi session file "@ + path),
            ),
            (Some(path), Some(Removal::Missing)) => end,
            (Some(path), Some(Removal::Done)) => match parent_of(path) {
                Some(dir) => if a.pruned is None {
                    Step::Request(RequestView::Prune(dir))
                } else {
                    end
                },
                None => end,
            },
        }
    }
}

/// What comes next in a deletion, given the answers so far. One that would leave
/// children behind is refused; else the files are found first, the session's own
/// and those of the subtree in turn.
pub open spec fn deletion_step(job: JobView, a: AnswersView) -> Step<
    RequestView,
    Result<ReportView, Seq<char>>,
> {
    if job.children.len() > 0 && !job.cascade {
        Step::Done(Err(refusal(job.session_id, job.children)))
    } else if a.own is None {
        Step::Request(RequestView::Find(job.session_id))
    } else if a.files.len() < job.subtree.len() {
        Step::Request(RequestView::Find(job.subtree[a.files.len() as int]))
    } else if job.dry_run {
        dry_step(job, a)
    } else {
        real_step(job, a)
    }
}

/// A dry run and a refusal delete nothing: whatever the answers, neither asks for
/// a file or a directory to be deleted.
pub proof fn dry_runs_and_refusals_delete_nothing(job: JobView, a: AnswersView)
    requires
        job.dry_run || (job.children.len() > 0 && !job.cascade),
    ensures
        deletion_step(job, a) matches Step::Request(q) ==> !(q is Unlink) && !(q is Prune),
{
}

/// The content of a step.
pub open spec fn deletion_step_view(s: Step<DeleteRequest, Result<PiDeleteReport, String>>) -> Step<
    RequestView,
    Result<ReportView, Seq<char>>,
> {
    match s {
        Step::Request(q) => Step::Request(q@),
        Step::Done(Ok(report)) => Step::Done(Ok(report@)),
        Step::Done(Err(e)) => Step::Done(Err(e@)),
    }
}

fn list_found(ids: &Vec<String>, files: &Vec<Option<String>>) -> (r: Vec<(String, String)>)
    requires
        ids.len() == files.len(),
    ensures
        r.deep_view() == with_files(ids.deep_view(), files.deep_view()),
{
    let ghost all = ids.deep_view();
    let ghost told = files.deep_view();
    let mut out: Vec<(String, String)> = Vec::new();
    let mut i: usize = 0;
    assert(out.deep_view() =~= with_files(all.take(0), told.take(0)));
    while i < ids.len()
        invariant
            i <= ids.len(),
            ids.len() == files.len(),
            all == ids.deep_view(),
            told == files.deep_view(),
            out.deep_view() == with_files(all.take(i as int), told.take(i as int)),
        decreases ids.len() - i,
    {
        assert(all.take(i + 1).drop_last() =~= all.take(i as int));
        assert(told.take(i + 1).drop_last() =~= told.take(i as int));
        assert(all.take(i + 1).last() == ids@[i as int]@);
        assert(told.take(i + 1).last() == files@[i as int].deep_view());
        let ghost before = out.deep_view();
        match &files[i] {
            Some(path) => {
                out.push((ids[i].clone(), path.clone()));
                assert(out.deep_view() =~= before.push((ids@[i as int]@, path@)));
            },
            None => {},
        }
        i += 1;
    }
    assert(all.take(i as int) =~= all);
    assert(told.take(i as int) =~= told);
    out
}

fn list_paths(found: &Vec<(String, String)>) -> (r: Vec<String>)
    ensures
        r.deep_view() == paths_of(found.deep_view()),
{
    let mut out: Vec<String> = Vec::new();
    let mut i: usize = 0;
    while i < found.len()
        invariant
            i <= found.len(),
            out.len() == i,
            forall|j: int| 0 <= j < i ==> (#[trigger] out@[j])@ == found@[j].1@,
        decreases found.len() - i,
    {
        out.push(found[i].1.clone());
        i += 1;
    }
    assert(out.deep_view() =~= paths_of(found.deep_view()));
    out
}

fn list_removed(found: &Vec<(String, String)>, removals: &Vec<Removal>) -> (r: Vec<String>)
    requires
        removals.len() <= found.len(),
    ensures
        r.deep_view() == removed(found.deep_view(), removals@),
{
    let ghost files = found.deep_view();
    let mut out: Vec<String> = Vec::new();
    let mut i: usize = 0;
    assert(out.deep_view() =~= removed(files, removals@.take(0)));
    while i < removals.len()
        invariant
            i <= removals.len() <= found.len(),
            files == found.deep_view(),
            out.deep_view() == removed(files, removals@.take(i as int)),
        decreases removals.len() - i,
    {
        assert(removals@.take(i + 1).drop_last() =~= removals@.take(i as int));
        assert(files[i as int].1 == found@[i as int].1@);
        let ghost before = out.deep_view();
        if removals[i] == Removal::Done {
            out.push(found[i].1.clone());
            assert(out.deep_view() =~= before.push(files[i as int].1));
        }
        i += 1;
    }
    assert(removals@.take(i as int) =~= removals@);
    out
}

fn own_of(a: &DeleteAnswers) -> (r: Option<&String>)
    ensures
        r.deep_view() == own_file(a@),
{
    match &a.own {
        Some(f) => match f {
            Some(path) => Some(path),
            None => None,
        },
        None => None,
    }
}

fn next_dry_step(job: &DeleteJob, a: &DeleteAnswers, found: &Vec<(String, String)>) -> (r: Step<
    DeleteRequest,
    Result<PiDeleteReport, String>,
>)
    requires
        found.deep_view() == with_files(job.subtree.deep_view(), a@.files),
    ensures
        deletion_step_view(r) == dry_step(job@, a@),
{
    let mut report = PiDeleteReport {
        paths: list_paths(found),
        pruned_project_dir: false,
        cascaded: job.subtree.len(),
    };
    let ghost known = report.paths.deep_view();
    assert(job@.subtree.len() == job.subtree.len());
    assert(known + Seq::<Seq<char>>::empty() =~= known);
    match own_of(a) {
        Some(path) => {
            report.paths.push(path.clone());
            assert(report.paths.deep_view() =~= known + seq![path@]);
            match parent(path.as_str()) {
                Some(dir) => match a.would_empty {
                    None => {
                        return Step::Request(DeleteRequest::WouldEmpty(dir, path.clone()));
                    },
                    Some(emptied) => {
                        if emptied {
                            let ghost view = dir@;
                            report.paths.push(dir);
                            report.pruned_project_dir = true;
                            assert(report.paths.deep_view() =~= known + seq![path@, view]);
                        }
                    },
                },
                None => {},
            }
        },
        None => {},
    }
    Step::Done(Ok(report))
}

fn next_real_step(job: &DeleteJob, a: &DeleteAnswers, found: &Vec<(String, String)>) -> (r: Step<
    DeleteRequest,
    Result<PiDeleteReport, String>,
>)
    requires
        found.deep_view() == with_files(job.subtree.deep_view(), a@.files),
        a.removals.len() <= found.len(),
    ensures
        deletion_step_view(r) == real_step(job@, a@),
{
    let n: usize = a.removals.len();
    let ghost files = found.deep_view();
    assert(files.len() == found.len());
    if n > 0 && a.removals[n - 1] == Removal::Failed {
        assert(files[n - 1] == (found@[n - 1].0@, found@[n - 1].1@));
        let mut e = "Failed to remove pi child session ".to_string();
        e.append(found[n - 1].0.as_str());
        e.append(" at ");
        e.append(found[n - 1].1.as_str());
        return Step::Done(Err(e));
    }
    if n < found.len() {
        assert(files[n as int] == (found@[n as int].0@, found@[n as int].1@));
        return Step::Request(DeleteRequest::Unlink(found[n].1.clone()));
    }
    let mut report = PiDeleteReport {
        paths: list_removed(found, &a.removals),
        pruned_project_dir: false,
        cascaded: found.len(),
    };
    let ghost known = report.paths.deep_view();
    assert(known + Seq::<Seq<char>>::empty() =~= known);
    match own_of(a) {
        Some(path) => match a.own_removal {
            None => {
                return Step::Request(DeleteRequest::Unlink(path.clone()));
            },
            Some(Removal::Failed) => {
                let mut e = "Failed to remove pi session file ".to_string();
                e.append(path.as_str());
                return Step::Done(Err(e));
            },
            Some(Removal::Missing) => {},
            Some(Removal::Done) => {
                report.paths.push(path.clone());
                assert(report.paths.deep_view() =~= known + seq![path@]);
                match parent(path.as_str()) {
                    Some(dir) => match a.pruned {
                        None => {
                            return Step::Request(DeleteRequest::Prune(dir));
                        },
                        Some(pruned) => {
                            if pruned {
                                let ghost view = dir@;
                                report.paths.push(dir);
                                report.pruned_project_dir = true;
                                assert(report.paths.deep_view() =~= known + seq![path@, view]);
                            }
                        },
                    },
                    None => {},
                }
            },
        },
        None => {},
    }
    Step::Done(Ok(report))
}

/// What comes next in a deletion, given the answers so far.
pub fn next_step(job: &DeleteJob, a: &DeleteAnswers) -> (r: Step<
    DeleteRequest,
    Result<PiDeleteReport, String>,
>)
    requires
        answers_fit(job@, a@),
    ensures
        deletion_step_view(r) == deletion_step(job@, a@),
        job.dry_run || (job.children.len() > 0 && !job.cascade) ==> (r matches Step::Request(q)
            ==> !(q is Unlink) && !(q is Prune)),
{
    assert(job@.children.len() == job.children.len());
    assert(job@.subtree.len() == job.subtree.len());
    assert(a@.files.len() == a.files.len());
    if job.children.len() > 0 && !job.cascade {
        return Step::Done(Err(refusal_text(job.session_id.as_str(), &job.children)));
    }
    if a.own.is_none() {
        return Step::Request(DeleteRequest::Find(job.session_id.clone()));
    }
    let n: usize = a.files.len();
    if n < job.subtree.len() {
        assert(job@.subtree[n as int] == job.subtree@[n as int]@);
        return Step::Request(DeleteRequest::Find(job.subtree[n].clone()));
    }
    let found = list_found(&job.subtree, &a.files);
    if job.dry_run {
        next_dry_step(job, a, &found)
    } else {
        next_real_step(job, a, &found)
    }
}

/// The answers with the file that a session has: the session's own comes first.
pub open spec fn with_file(a: AnswersView, file: Option<Seq<char>>) -> AnswersView {
    if a.own is None {
        AnswersView { own: Some(file), ..a }
    } else {
        AnswersView { files: a.files.push(file), ..a }
    }
}

/// The answers with what came of deleting a file: the session's own comes last.
pub open spec fn with_removal(job: JobView, a: AnswersView, removal: Removal) -> AnswersView {
    if a.removals.len() < with_files(job.subtree, a.files).len() {
        AnswersView { removals: a.removals.push(removal), ..a }
    } else {
        AnswersView { own_removal: Some(removal), ..a }
    }
}

/// Whether the request that comes next was made, from one state to another. A
/// state is what the requests act on, and the answers so far.
pub open spec fn request_made<
    W,
    F: Fn(W, &str) -> (W, Option<String>),
    E: Fn(W, &str, &str) -> (W, bool),
    U: Fn(W, &str) -> (W, Removal),
    D: Fn(W, &str) -> (W, bool),
>(job: JobView, doors: (F, E, U, D), before: (W, AnswersView), after: (W, AnswersView)) -> bool {
    match deletion_step(job, before.1) {
        Step::Request(RequestView::Find(id)) => exists|s: &str, r: Option<String>| #[trigger]
            call_ensures(doors.0, (before.0, s), (after.0, r)) && s@ == id && after.1 == with_file(
                before.1,
                r.deep_view(),
            ),
        Step::Request(RequestView::WouldEmpty(dir, path)) => exists|d: &str, p: &str, r: bool|
         #[trigger]
            call_ensures(doors.1, (before.0, d, p), (after.0, r)) && d@ == dir && p@ == path
                && after.1 == (AnswersView { would_empty: Some(r), ..before.1 }),
        Step::Request(RequestView::Unlink(path)) => exists|p: &str, r: Removal| #[trigger]
            call_ensures(doors.2, (before.0, p), (after.0, r)) && p@ == path && after.1
                == with_removal(job, before.1, r),
        Step::Request(RequestView::Prune(dir)) => exists|d: &str, r: bool| #[trigger]
            call_ensures(doors.3, (before.0, d), (after.0, r)) && d@ == dir && after.1 == (
            AnswersView { pruned: Some(r), ..before.1 }),
        Step::Done(_) => false,
    }
}

/// Whether the requests that come next, and no others, lead from one state over
/// those in `path` to another.
pub open spec fn requests_lead<
    W,
    F: Fn(W, &str) -> (W, Option<String>),
    E: Fn(W, &str, &str) -> (W, bool),
    U: Fn(W, &str) -> (W, Removal),
    D: Fn(W, &str) -> (W, bool),
>(
    job: JobView,
    doors: (F, E, U, D),
    path: Seq<(W, AnswersView)>,
    from: (W, AnswersView),
    to: (W, AnswersView),
) -> bool
    decreases path.len(),
{
    if path.len() == 0 {
        from == to
    } else {
        request_made(job, doors, path.last(), to) && requests_lead(
            job,
            doors,
            path.drop_last(),
            from,
            path.last(),
        )
    }
}

/// What comes of a deletion: the report, and what is left of the index. After a
/// dry run, or where a file is still there, the index stays as it was.
pub open spec fn deletion_end(
    job: JobView,
    index: IndexView,
    end: Result<ReportView, Seq<char>>,
    r: Result<(PiDeleteReport, Option<CachedHarnessIndex>), String>,
) -> bool {
    match (end, r) {
        (Ok(report), Ok(res)) => {
            &&& res.0@ == report
            &&& res.1 is None <==> job.dry_run
            &&& res.1 matches Some(i) ==> i@ == without_sessions(
                without_session(index, job.session_id),
                job.subtree,
            )
        },
        (Err(e), Err(text)) => text@ == e,
        _ => false,
    }
}

proof fn files_are_no_more(ids: Seq<Seq<char>>, files: Seq<Option<Seq<char>>>)
    ensures
        with_files(ids, files).len() <= ids.len(),
    decreases ids.len(),
{
    if ids.len() > 0 && ids.len() == files.len() {
        files_are_no_more(ids.drop_last(), files.drop_last());
    }
}

/// How many requests can still come.
spec fn requests_left(job: JobView, a: AnswersView) -> int {
    let files = job.subtree.len() - a.files.len();
    let removals = job.subtree.len() - a.removals.len();
    files + removals + (if a.own is None {
        1int
    } else {
        0
    }) + (if a.would_empty is None {
        1int
    } else {
        0
    }) + (if a.own_removal is None {
        1int
    } else {
        0
    }) + (if a.pruned is None {
        1int
    } else {
        0
    })
}

/// Deletes a session. One that started others is deleted only with them, and
/// with those that they started.
///
/// `index` is what is remembered of all sessions; what is left of it comes back,
/// to be remembered, unless nothing was deleted. `find` gives the file of a
/// session, `empties` tells whether a directory holds nothing but a file,
/// `unlink` deletes a file, and `prune` deletes a directory that is empty.
///
/// `world` stands for what these act on. Each call takes it over from the one
/// before, so that the calls are told apart by what they leave behind: the
/// requests that come next were made, each once and in order, and no others.
pub fn delete_session<
    W,
    F: Fn(W, &str) -> (W, Option<String>),
    E: Fn(W, &str, &str) -> (W, bool),
    U: Fn(W, &str) -> (W, Removal),
    D: Fn(W, &str) -> (W, bool),
>(
    session_id: &str,
    cascade: bool,
    dry_run: bool,
    sessions: &Vec<SessionInfo>,
    index: CachedHarnessIndex,
    world: W,
    find: F,
    empties: E,
    unlink: U,
    prune: D,
) -> (r: (W, Result<(PiDeleteReport, Option<CachedHarnessIndex>), String>))
    requires
        forall|w: W, s: &str| call_requires(find, (w, s)),
        forall|w: W, d: &str, p: &str| call_requires(empties, (w, d, p)),
        forall|w: W, p: &str| call_requires(unlink, (w, p)),
        forall|w: W, d: &str| call_requires(prune, (w, d)),
    ensures
        ({
            let job = deletion_of(session_id@, cascade, dry_run, sessions.deep_view());
            exists|path: Seq<(W, AnswersView)>, a: AnswersView|
                {
                    &&& #[trigger] requests_lead(
                        job,
                        (find, empties, unlink, prune),
                        path,
                        (world, no_answers()),
                        (r.0, a),
                    )
                    &&& deletion_step(job, a) matches Step::Done(end)
                    &&& deletion_end(job, index@, end, r.1)
                }
        }),
{
    let job = plan_deletion(session_id, cascade, dry_run, sessions);
    let ghost doors = (find, empties, unlink, prune);
    let mut a = DeleteAnswers::none();
    let mut now = world;
    let ghost mut path: Seq<(W, AnswersView)> = Seq::empty();
    assert(answers_fit(job@, a@));
    loop
        invariant
            forall|w: W, s: &str| call_requires(find, (w, s)),
            forall|w: W, d: &str, p: &str| call_requires(empties, (w, d, p)),
            forall|w: W, p: &str| call_requires(unlink, (w, p)),
            forall|w: W, d: &str| call_requires(prune, (w, d)),
            doors == (find, empties, unlink, prune),
            job@ == deletion_of(session_id@, cascade, dry_run, sessions.deep_view()),
            answers_fit(job@, a@),
            requests_lead(job@, doors, path, (world, no_answers()), (now, a@)),
        decreases requests_left(job@, a@) + 1,
    {
        let ghost before = (now, a@);
        proof {
            files_are_no_more(job@.subtree, a@.files);
        }
        match next_step(&job, &a) {
            Step::Request(DeleteRequest::Find(id)) => {
                let id = id.as_str();
                let (after, file) = find(now, id);
                now = after;
                let ghost told = file;
                let ghost view = file.deep_view();
                if a.own.is_none() {
                    a.own = Some(file);
                } else {
                    a.files.push(file);
                    assert(a.files.deep_view() =~= before.1.files.push(view));
                }
                assert(a@ =~= with_file(before.1, view));
                assert(call_ensures(doors.0, (before.0, id), (now, told)));
                assert(request_made(job@, doors, before, (now, a@)));
            },
            Step::Request(DeleteRequest::WouldEmpty(dir, file)) => {
                let dir = dir.as_str();
                let file = file.as_str();
                let (after, emptied) = empties(now, dir, file);
                now = after;
                a.would_empty = Some(emptied);
                assert(a@ =~= AnswersView { would_empty: Some(emptied), ..before.1 });
                assert(call_ensures(doors.1, (before.0, dir, file), (now, emptied)));
                assert(request_made(job@, doors, before, (now, a@)));
            },
            Step::Request(DeleteRequest::Unlink(file)) => {
                let file = file.as_str();
                let (after, removal) = unlink(now, file);
                now = after;
                let found = list_found(&job.subtree, &a.files);
                assert(found.deep_view().len() == found.len());
                if a.removals.len() < found.len() {
                    a.removals.push(removal);
                } else {
                    a.own_removal = Some(removal);
                }
                assert(a@ =~= with_removal(job@, before.1, removal));
                assert(call_ensures(doors.2, (before.0, file), (now, removal)));
                assert(request_made(job@, doors, before, (now, a@)));
            },
            Step::Request(DeleteRequest::Prune(dir)) => {
                let dir = dir.as_str();
                let (after, pruned) = prune(now, dir);
                now = after;
                a.pruned = Some(pruned);
                assert(a@ =~= AnswersView { pruned: Some(pruned), ..before.1 });
                assert(call_ensures(doors.3, (before.0, dir), (now, pruned)));
                assert(request_made(job@, doors, before, (now, a@)));
            },
            Step::Done(end) => {
                let r = match end {
                    Ok(report) => {
                        if dry_run {
                            (now, Ok((report, None)))
                        } else {
                            let mut left = index;
                            left.remove_session(session_id);
                            drop_sessions(&mut left, &job.subtree);
                            (now, Ok((report, Some(left))))
                        }
                    },
                    Err(e) => (now, Err(e)),
                };
                assert(requests_lead(job@, doors, path, (world, no_answers()), (r.0, a@)));
                return r;
            },
        }
        proof {
            assert(path.push(before).drop_last() =~= path);
            path = path.push(before);
            files_are_no_more(job@.subtree, a@.files);
        }
    }
}

/// A deletion forgets the session and its subtree, and no other session.
pub proof fn deletions_forget_the_subtree(index: IndexView, job: JobView)
    ensures
        forall|id: Seq<char>| #[trigger]
            without_sessions(
                without_session(index, job.session_id),
                job.subtree,
            ).sessions.dom().contains(id) <==> index.sessions.dom().contains(id) && id
                != job.session_id && !job.subtree.contains(id),
{
    dropping_keeps_the_others(without_session(index, job.session_id), job.subtree);
}

/// A dry run foretells the deletion: where every file is there and can be
/// deleted, and the directory becomes empty exactly where it was said to, the two
/// reports are the same.
pub proof fn dry_runs_foretell(
    children: Seq<Seq<char>>,
    files: Seq<Option<Seq<char>>>,
    own: Option<Seq<char>>,
    removals: Seq<Removal>,
    emptied: bool,
)
    requires
        files.len() == children.len(),
        forall|i: int| 0 <= i < files.len() ==> (#[trigger] files[i]) is Some,
        removals.len() == with_files(children, files).len(),
        forall|i: int| 0 <= i < removals.len() ==> #[trigger] removals[i] == Removal::Done,
    ensures
        dry_report(children, with_files(children, files), own, emptied) == real_report(
            with_files(children, files),
            removals,
            own,
            Removal::Done,
            emptied,
        ),
{
    let found = with_files(children, files);
    all_have_files(children, files);
    all_removed(found, removals);
    assert(found.take(found.len() as int) =~= found);
}

proof fn all_have_files(children: Seq<Seq<char>>, files: Seq<Option<Seq<char>>>)
    requires
        files.len() == children.len(),
        forall|i: int| 0 <= i < files.len() ==> (#[trigger] files[i]) is Some,
    ensures
        with_files(children, files).len() == children.len(),
    decreases children.len(),
{
    if children.len() > 0 {
        let rest = files.drop_last();
        assert forall|i: int| 0 <= i < rest.len() implies (#[trigger] rest[i]) is Some by {
            assert(rest[i] == files[i]);
        }
        all_have_files(children.drop_last(), rest);
        assert(files[files.len() - 1] is Some);
    }
}

proof fn all_removed(found: Seq<(Seq<char>, Seq<char>)>, removals: Seq<Removal>)
    requires
        removals.len() <= found.len(),
        forall|i: int| 0 <= i < removals.len() ==> #[trigger] removals[i] == Removal::Done,
    ensures
        removed(found, removals) == paths_of(found.take(removals.len() as int)),
    decreases removals.len(),
{
    if removals.len() == 0 {
        assert(paths_of(found.take(0)) =~= Seq::<Seq<char>>::empty());
    } else {
        let rest = removals.drop_last();
        assert forall|i: int| 0 <= i < rest.len() implies #[trigger] rest[i] == Removal::Done by {
            assert(rest[i] == removals[i]);
        }
        all_removed(found, rest);
        assert(removals[removals.len() - 1] == Removal::Done);
        assert(paths_of(found.take(removals.len() as int)) =~= paths_of(
            found.take(rest.len() as int),
        ).push(found[rest.len() as int].1));
    }
}

/// The children of a session are those that name it as their parent. Gives which session one
/// is.
pub proof fn children_name_their_parent(sessions: Seq<InfoView>, id: Seq<char>, k: int) -> (i: int)
    requires
        0 <= k < children_of(sessions, id).len(),
    ensures
        0 <= i < sessions.len(),
        sessions[i].session_id == children_of(sessions, id)[k],
        sessions[i].parent_id == Some(id),
    decreases sessions.len(),
{
    let rest = sessions.drop_last();
    if k < children_of(rest, id).len() {
        children_name_their_parent(rest, id, k)
    } else {
        sessions.len() - 1
    }
}

/// Every session that names a parent is a child of it. Gives which.
pub proof fn every_child_is_listed(sessions: Seq<InfoView>, i: int) -> (k: int)
    requires
        0 <= i < sessions.len(),
        sessions[i].parent_id is Some,
    ensures
        0 <= k < children_of(sessions, sessions[i].parent_id->0).len(),
        children_of(sessions, sessions[i].parent_id->0)[k] == sessions[i].session_id,
    decreases sessions.len(),
{
    let rest = sessions.drop_last();
    if i < rest.len() {
        every_child_is_listed(rest, i)
    } else {
        children_of(rest, sessions[i].parent_id->0).len() as int
    }
}

/// A session with children is deleted only where they are to go with it; nothing is looked
/// for otherwise.
pub proof fn children_forbid_deletion(job: JobView, a: AnswersView)
    ensures
        job.children.len() > 0 && !job.cascade ==> (deletion_step(job, a) matches Step::Done(r)
            && r is Err),
        job.children.len() == 0 || job.cascade ==> (a.own is None ==> deletion_step(job, a)
            == Step::<RequestView, Result<ReportView, Seq<char>>>::Request(
            RequestView::Find(job.session_id),
        )),
{
}

/// What is deleted is a file of the subtree or the session's own, and the session's own only
/// when all of the subtree are gone; a directory is looked at only when the session's own
/// file was deleted from it.
pub proof fn only_files_of_the_subtree_are_deleted(job: JobView, a: AnswersView) -> (i: int)
    ensures
        deletion_step(job, a) matches Step::Request(RequestView::Unlink(path)) ==> {
            let found = with_files(job.subtree, a.files);
            &&& !job.dry_run
            &&& a.files.len() >= job.subtree.len()
            &&& {
                ||| a.removals.len() < found.len() && i == a.removals.len() && path == found[i].1
                ||| a.removals.len() >= found.len() && a.own == Some(Some(path)) && a.own_removal
                    is None
            }
        },
        deletion_step(job, a) matches Step::Request(RequestView::Prune(dir)) ==> {
            &&& !job.dry_run
            &&& a.own_removal == Some(Removal::Done)
            &&& a.own is Some && a.own->0 is Some
            &&& parent_of(a.own->0->0) == Some(dir)
        },
{
    a.removals.len() as int
}

/// The files of a subtree are those that were found, each with its session. Gives which.
pub proof fn files_belong_to_their_sessions(
    children: Seq<Seq<char>>,
    files: Seq<Option<Seq<char>>>,
    k: int,
) -> (i: int)
    requires
        children.len() == files.len(),
        0 <= k < with_files(children, files).len(),
    ensures
        0 <= i < children.len(),
        files[i] is Some,
        with_files(children, files)[k] == (children[i], files[i]->0),
    decreases children.len(),
{
    let before = with_files(children.drop_last(), files.drop_last());
    if k < before.len() {
        files_belong_to_their_sessions(children.drop_last(), files.drop_last(), k)
    } else {
        children.len() - 1
    }
}

/// A report lists a file exactly where it was deleted, one by one.
pub proof fn reports_list_what_was_deleted(
    found: Seq<(Seq<char>, Seq<char>)>,
    removals: Seq<Removal>,
    removal: Removal,
)
    requires
        removals.len() < found.len(),
    ensures
        removed(found, Seq::empty()).len() == 0,
        removal == Removal::Done ==> removed(found, removals.push(removal)) == removed(
            found,
            removals,
        ).push(found[removals.len() as int].1),
        removal != Removal::Done ==> removed(found, removals.push(removal)) == removed(
            found,
            removals,
        ),
{
    assert(removals.push(removal).drop_last() =~= removals);
}

/// The session's own file is reported where there is one, and its directory behind it where it
/// became empty.
pub proof fn own_files_and_directories_are_reported(path: Seq<char>, emptied: bool)
    ensures
        own_paths(None, emptied).len() == 0,
        own_paths(Some(path), emptied)[0] == path,
        parent_of(path) matches Some(dir) ==> (emptied ==> own_paths(Some(path), emptied) == seq![
            path,
            dir,
        ]),
        !emptied ==> own_paths(Some(path), emptied) == seq![path],
        prunes(Some(path), emptied) <==> emptied && parent_of(path) is Some,
        !prunes(None, emptied),
        own_removed(Some(path), Removal::Done) == Some(path),
        own_removed(Some(path), Removal::Missing) is None,
        own_removed(Some(path), Removal::Failed) is None,
{
}

/// A directory would become empty where it can be listed and everything in it is to go.
pub proof fn directories_become_empty_when_all_goes(
    entries: Seq<Seq<char>>,
    paths: Seq<Seq<char>>,
)
    ensures
        !holds_only(None, paths),
        holds_only(Some(entries), paths) <==> forall|i: int|
            0 <= i < entries.len() ==> paths.contains(#[trigger] entries[i]),
{
}

/// A preview shows up to five, and of more how many more there are.
pub proof fn previews_show_five(ids: Seq<Seq<char>>)
    ensures
        ids.len() <= 5 ==> preview(ids) == joined(ids, seq![',', ' ']),
        ids.len() > 5 ==> has_prefix(preview(ids), joined(ids.take(5), seq![',', ' '])),
{
    reveal_strlit(", ");
    assert(", "@ =~= seq![',', ' ']);
    if ids.len() > 5 {
        let front = joined(ids.take(5), ", "@);
        assert(preview(ids).subrange(0, front.len() as int) =~= front);
    }
}

/// A deletion is of the session that is named, with its children and all that they started.
pub proof fn deletions_are_of_the_session(
    session_id: Seq<char>,
    cascade: bool,
    dry_run: bool,
    sessions: Seq<InfoView>,
)
    ensures
        deletion_of(session_id, cascade, dry_run, sessions).session_id == session_id,
        deletion_of(session_id, cascade, dry_run, sessions).cascade == cascade,
        deletion_of(session_id, cascade, dry_run, sessions).dry_run == dry_run,
        deletion_of(session_id, cascade, dry_run, sessions).children == children_of(
            sessions,
            session_id,
        ),
        forall|x: Seq<char>| #[trigger]
            started(sessions, x, session_id) && x != session_id ==> deletion_of(
                session_id,
                cascade,
                dry_run,
                sessions,
            ).subtree.contains(x),
{
    subtrees_are_complete(sessions, session_id);
}

/// An answer is kept for what was asked: the first file for the session itself, the next for
/// the subtree in its order; and what came of deleting likewise, the session's own file last.
pub proof fn answers_are_kept_in_order(
    job: JobView,
    a: AnswersView,
    file: Option<Seq<char>>,
    removal: Removal,
)
    ensures
        a.own is None ==> with_file(a, file).own == Some(file) && with_file(a, file).files
            == a.files,
        a.own is Some ==> with_file(a, file).own == a.own && with_file(a, file).files
            == a.files.push(file),
        a.removals.len() < with_files(job.subtree, a.files).len() ==> with_removal(
            job,
            a,
            removal,
        ).removals == a.removals.push(removal) && with_removal(job, a, removal).own_removal
            == a.own_removal,
        a.removals.len() >= with_files(job.subtree, a.files).len() ==> with_removal(
            job,
            a,
            removal,
        ).own_removal == Some(removal) && with_removal(job, a, removal).removals == a.removals,
{
}

/// A dry run leaves the index alone; a deletion takes the session and its subtree out of it.
pub proof fn the_index_forgets_what_was_deleted(
    job: JobView,
    index: IndexView,
    end: Result<ReportView, Seq<char>>,
    r: Result<(PiDeleteReport, Option<CachedHarnessIndex>), String>,
    id: Seq<char>,
)
    requires
        deletion_end(job, index, end, r),
    ensures
        r is Ok <==> end is Ok,
        r matches Ok((_, kept)) ==> (kept is None <==> job.dry_run),
        r matches Ok((_, kept)) ==> (kept matches Some(after) ==> (
        after@.sessions.dom().contains(id) <==> index.sessions.dom().contains(id) && id
            != job.session_id && !job.subtree.contains(id))),
{
    deletions_forget_the_subtree(index, job);
}

/// A refusal names the session and how many children it has.
pub proof fn refusals_name_the_session(session_id: Seq<char>, children: Seq<Seq<char>>)
    ensures
        has_prefix(
            refusal(session_id, children),
            "pi session "@ + session_id + " has "@ + decimal(children.len()),
        ),
        contains_text(refusal(session_id, children), preview(children)),
{
    let text = refusal(session_id, children);
    let front = "pi session "@ + session_id + " has "@ + decimal(children.len());
    let n = (front + " child session(s) ("@).len() as int;
    assert(text.subrange(0, front.len() as int) =~= front);
    assert(text.subrange(n, n + preview(children).len()) =~= preview(children));
    assert(occurs_at(text, preview(children), n));
}

} // verus!
