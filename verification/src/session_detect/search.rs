//! The search for the session that matches.

use crate::order::{Ranking, sorting_sorts, stable_sort, stably_sorted};
use crate::provider::{Provider, Session, provider_label};
use crate::session_detect::filters::{
    FilterCriterion, SessionFilter, best_messages, best_messages_are_ranked, build_filters,
    filters_for, filters_of, ranks_of,
};
use crate::session_detect::messages::{
    MessageView, messages_are_few_and_full, messages_in, parse_pane_messages,
};
use crate::text::{decimal, decimal_of, lines_of, str_eq, trim_end, trimmed_end};
use vstd::prelude::*;

verus! {

/// A session that was detected.
#[derive(Clone, Debug)]
pub struct DetectedSession {
    pub session_id: String,
    pub provider: Provider,
}

/// How to find the last session of a terminal.
pub struct LastSessionOptions {
    /// Look at sessions of this provider only.
    pub provider_filter: Option<Provider>,
    /// Read the screen from this file.
    pub scrollback_file: Option<String>,
}

/// How to find a session by what its last messages say.
pub struct MatchOptions {
    /// The text to look for.
    pub needle: String,
    /// How many messages, counted from the end, to look at.
    pub last_messages: usize,
    /// Look at sessions of this provider only.
    pub provider_filter: Option<Provider>,
    /// Look at sessions of this project only.
    pub project_dir: Option<String>,
}

/// Why no session was detected.
#[derive(Debug)]
pub struct DetectError {
    pub message: String,
}

/// Whether a provider is looked at under a filter.
pub open spec fn provider_included(filter: Option<Provider>, p: Provider) -> bool {
    filter is None || filter == Some(p)
}

/// Whether a provider is looked at under a filter.
pub fn includes_provider(filter: Option<Provider>, p: Provider) -> (r: bool)
    ensures
        r == provider_included(filter, p),
{
    match filter {
        Some(q) => q == p,
        None => true,
    }
}

/// The sessions that no other session started.
pub open spec fn top_level(sessions: Seq<Session>) -> Seq<Session>
    decreases sessions.len(),
{
    if sessions.len() == 0 {
        sessions
    } else if sessions.last().parent_id is None {
        top_level(sessions.drop_last()).push(sessions.last())
    } else {
        top_level(sessions.drop_last())
    }
}

/// The sessions, where their provider is looked at.
pub open spec fn if_included(
    filter: Option<Provider>,
    p: Provider,
    sessions: Seq<Session>,
) -> Seq<Session> {
    if provider_included(filter, p) {
        sessions
    } else {
        Seq::empty()
    }
}

/// Most recently updated first.
pub struct ByUpdateDescending;

impl Ranking<Session> for ByUpdateDescending {
    open spec fn le(a: Session, b: Session) -> bool {
        b.updated_at.spec_le(a.updated_at)
    }

    fn leq(a: &Session, b: &Session) -> (r: bool) {
        b.updated_at.le(a.updated_at)
    }

    proof fn total(a: Session, b: Session) {
    }

    proof fn transitive(a: Session, b: Session, c: Session) {
    }
}

/// The message closest to the footer first.
pub struct ByDepth;

impl<'a> Ranking<&'a SessionFilter> for ByDepth {
    open spec fn le(a: &'a SessionFilter, b: &'a SessionFilter) -> bool {
        a.depth <= b.depth
    }

    fn leq(a: &&'a SessionFilter, b: &&'a SessionFilter) -> (r: bool) {
        a.depth <= b.depth
    }

    proof fn total(a: &'a SessionFilter, b: &'a SessionFilter) {
    }

    proof fn transitive(a: &'a SessionFilter, b: &'a SessionFilter, c: &'a SessionFilter) {
    }
}

/// The sessions to look at, most recently updated first. Sub-agents of OpenCode
/// and Pi are left out.
pub open spec fn candidates(
    filter: Option<Provider>,
    opencode: Seq<Session>,
    claudecode: Seq<Session>,
    pi: Seq<Session>,
) -> Seq<Session> {
    stably_sorted::<Session, ByUpdateDescending>(
        if_included(filter, Provider::OpenCode, top_level(opencode)) + if_included(
            filter,
            Provider::ClaudeCode,
            claudecode,
        ) + if_included(filter, Provider::Pi, top_level(pi)),
    )
}

/// The filters, the one closest to the footer first.
pub open spec fn filters_by_depth<'a>(filters: Seq<SessionFilter>) -> Seq<&'a SessionFilter> {
    stably_sorted::<&SessionFilter, ByDepth>(Seq::new(filters.len(), |i: int| &filters[i]))
}

/// How many messages to look at beyond the depth of a filter: few at first.
pub open spec fn margin(m: int) -> usize {
    if m == 0 {
        5
    } else if m == 1 {
        10
    } else {
        20
    }
}

/// How many of the filters must match: all at first, then all but the deepest
/// where there are more than two.
pub open spec fn active(filters: int, round: int) -> int {
    filters - round
}

/// How often to try: once more where the deepest filter may be dropped.
pub open spec fn rounds(filters: int) -> int {
    if filters > 2 {
        2
    } else {
        1
    }
}

/// The text of a criterion that asks for text.
pub open spec fn asked_text(c: FilterCriterion) -> Option<String> {
    match c {
        FilterCriterion::TextContains(needle) => Some(needle),
        FilterCriterion::ToolFieldEquals { .. } => None,
    }
}

/// Whether `answer` is what the probes say of a session and a filter. Sessions of
/// OpenCode are probed with the filter. Others are probed for the texts of the
/// message closest to the footer, until one is found, and match no deeper filter.
pub open spec fn answered<F: Fn(&Session, &SessionFilter, usize) -> bool, G: Fn(
    &Session,
    &String,
    usize,
) -> bool>(
    matches: F,
    tail: G,
    s: &Session,
    f: &SessionFilter,
    window: usize,
    answer: bool,
) -> bool {
    if s.provider is OpenCode {
        call_ensures(matches, (s, f, window), answer)
    } else if f.depth != 0 {
        !answer
    } else if answer {
        exists|k: int|
            #![trigger f.criteria@[k]]
            0 <= k < f.criteria@.len() && asked_text(f.criteria@[k]) is Some && call_ensures(
                tail,
                (s, &asked_text(f.criteria@[k])->0, window),
                true,
            )
    } else {
        forall|k: int|
            #![trigger f.criteria@[k]]
            0 <= k < f.criteria@.len() && asked_text(f.criteria@[k]) is Some ==> call_ensures(
                tail,
                (s, &asked_text(f.criteria@[k])->0, window),
                false,
            )
    }
}

/// Whether the probes say that a session matches the first `n` filters.
pub open spec fn accepted<F: Fn(&Session, &SessionFilter, usize) -> bool, G: Fn(
    &Session,
    &String,
    usize,
) -> bool>(
    matches: F,
    tail: G,
    s: &Session,
    filters: Seq<&SessionFilter>,
    n: int,
    extra: usize,
) -> bool {
    forall|j: int|
        0 <= j < n ==> answered(
            matches,
            tail,
            s,
            #[trigger] filters[j],
            (extra + filters[j].depth) as usize,
            true,
        )
}

/// Whether the probes say that a session does not match one of the first `n` filters.
pub open spec fn refused<F: Fn(&Session, &SessionFilter, usize) -> bool, G: Fn(
    &Session,
    &String,
    usize,
) -> bool>(
    matches: F,
    tail: G,
    s: &Session,
    filters: Seq<&SessionFilter>,
    n: int,
    extra: usize,
) -> bool {
    exists|j: int|
        0 <= j < n && answered(
            matches,
            tail,
            s,
            #[trigger] filters[j],
            (extra + filters[j].depth) as usize,
            false,
        )
}

/// Whether a try comes before another: rounds first, then margins, then sessions.
pub open spec fn tried_before(a: (int, int, int), b: (int, int, int)) -> bool {
    a.0 < b.0 || (a.0 == b.0 && (a.1 < b.1 || (a.1 == b.1 && a.2 < b.2)))
}

/// Whether a try is one of those that a search may make.
pub open spec fn is_try(t: (int, int, int), filters: int, sessions: int) -> bool {
    0 <= t.0 < rounds(filters) && 0 <= t.1 < 3 && 0 <= t.2 < sessions
}

/// What a search among sessions gives: the first try whose session the probes
/// accept, where they refuse all tries before it; nothing where they refuse all.
pub open spec fn search_outcome<F: Fn(&Session, &SessionFilter, usize) -> bool, G: Fn(
    &Session,
    &String,
    usize,
) -> bool>(
    filters: Seq<SessionFilter>,
    all: Seq<Session>,
    matches: F,
    tail: G,
    outcome: Option<DetectedSession>,
) -> bool {
    let sorted = filters_by_depth(filters);
    let n = filters.len() as int;
    match outcome {
        Some(found) => n > 0 && exists|t: (int, int, int)|
            {
                &&& #[trigger] is_try(t, n, all.len() as int)
                &&& found.session_id@ == all[t.2].session_id@
                &&& found.provider == all[t.2].provider
                &&& accepted(matches, tail, &all[t.2], sorted, active(n, t.0), margin(t.1))
                &&& forall|u: (int, int, int)| #[trigger]
                    is_try(u, n, all.len() as int) && tried_before(u, t) ==> refused(
                        matches,
                        tail,
                        &all[u.2],
                        sorted,
                        active(n, u.0),
                        margin(u.1),
                    )
            },
        None => n == 0 || forall|u: (int, int, int)| #[trigger]
            is_try(u, n, all.len() as int) ==> refused(
                matches,
                tail,
                &all[u.2],
                sorted,
                active(n, u.0),
                margin(u.1),
            ),
    }
}

fn keep_top_level(sessions: Vec<Session>) -> (r: Vec<Session>)
    ensures
        r@ == top_level(sessions@),
{
    let ghost all = sessions@;
    let mut rest = sessions;
    let mut out: Vec<Session> = Vec::new();
    let ghost mut done: int = 0;
    while rest.len() > 0
        invariant
            0 <= done <= all.len(),
            rest@ == all.skip(done),
            out@ == top_level(all.take(done)),
        decreases rest.len(),
    {
        let s = rest.remove(0);
        assert(all.take(done + 1).drop_last() == all.take(done));
        assert(all.take(done + 1).last() == s);
        if s.parent_id.is_none() {
            out.push(s);
        }
        proof {
            done = done + 1;
        }
    }
    assert(all.take(done) == all);
    out
}

fn collect_candidates(
    filter: Option<Provider>,
    opencode: Vec<Session>,
    claudecode: Vec<Session>,
    pi: Vec<Session>,
) -> (r: Vec<Session>)
    ensures
        r@ == candidates(filter, opencode@, claudecode@, pi@),
{
    let mut all: Vec<Session> = Vec::new();
    if includes_provider(filter, Provider::OpenCode) {
        let mut kept = keep_top_level(opencode);
        all.append(&mut kept);
    }
    if includes_provider(filter, Provider::ClaudeCode) {
        let mut kept = claudecode;
        all.append(&mut kept);
    }
    if includes_provider(filter, Provider::Pi) {
        let mut kept = keep_top_level(pi);
        all.append(&mut kept);
    }
    assert(all@ == if_included(filter, Provider::OpenCode, top_level(opencode@)) + if_included(
        filter,
        Provider::ClaudeCode,
        claudecode@,
    ) + if_included(filter, Provider::Pi, top_level(pi@)));
    stable_sort::<Session, ByUpdateDescending>(all)
}

fn probe<F: Fn(&Session, &SessionFilter, usize) -> bool, G: Fn(&Session, &String, usize) -> bool>(
    matches: &F,
    tail: &G,
    s: &Session,
    f: &SessionFilter,
    window: usize,
) -> (r: bool)
    requires
        forall|s: &Session, f: &SessionFilter, w: usize| call_requires(*matches, (s, f, w)),
        forall|s: &Session, n: &String, w: usize| call_requires(*tail, (s, n, w)),
    ensures
        answered(*matches, *tail, s, f, window, r),
{
    match s.provider {
        Provider::OpenCode => matches(s, f, window),
        _ => {
            if f.depth != 0 {
                return false;
            }
            let mut k: usize = 0;
            while k < f.criteria.len()
                invariant
                    k <= f.criteria.len(),
                    !(s.provider is OpenCode),
                    f.depth == 0,
                    forall|s: &Session, n: &String, w: usize| call_requires(*tail, (s, n, w)),
                    forall|j: int|
                        #![trigger f.criteria@[j]]
                        0 <= j < k && asked_text(f.criteria@[j]) is Some ==> call_ensures(
                            *tail,
                            (s, &asked_text(f.criteria@[j])->0, window),
                            false,
                        ),
                decreases f.criteria.len() - k,
            {
                match &f.criteria[k] {
                    FilterCriterion::TextContains(needle) => {
                        if tail(s, needle, window) {
                            return true;
                        }
                    },
                    _ => {},
                }
                k += 1;
            }
            false
        },
    }
}

/// Looks for a session that matches the filters: with all filters first, then
/// without the deepest; each time with growing margins; and for each margin the
/// sessions, most recently updated first. The first session that matches is it.
pub fn find_session_by_filters<
    F: Fn(&Session, &SessionFilter, usize) -> bool,
    G: Fn(&Session, &String, usize) -> bool,
>(
    filters: &Vec<SessionFilter>,
    provider_filter: Option<Provider>,
    opencode: Vec<Session>,
    claudecode: Vec<Session>,
    pi: Vec<Session>,
    matches: F,
    tail: G,
) -> (r: Option<DetectedSession>)
    requires
        forall|i: int| 0 <= i < filters@.len() ==> (#[trigger] filters@[i]).depth + 20 <= usize::MAX,
        forall|s: &Session, f: &SessionFilter, w: usize| call_requires(matches, (s, f, w)),
        forall|s: &Session, n: &String, w: usize| call_requires(tail, (s, n, w)),
    ensures
        search_outcome(
            filters@,
            candidates(provider_filter, opencode@, claudecode@, pi@),
            matches,
            tail,
            r,
        ),
{
    if filters.len() == 0 {
        return None;
    }
    let sessions = collect_candidates(provider_filter, opencode, claudecode, pi);
    let mut refs: Vec<&SessionFilter> = Vec::new();
    let mut i: usize = 0;
    while i < filters.len()
        invariant
            i <= filters.len(),
            refs@ == Seq::new(i as nat, |j: int| &filters@[j]),
        decreases filters.len() - i,
    {
        refs.push(&filters[i]);
        i += 1;
    }
    let ghost unsorted = refs@;
    let sorted = stable_sort::<&SessionFilter, ByDepth>(refs);
    proof {
        crate::order::sorting_sorts::<&SessionFilter, ByDepth>(unsorted);
        assert forall|j: int| 0 <= j < sorted@.len() implies (#[trigger] sorted@[j]).depth + 20
            <= usize::MAX by {
            vstd::seq_lib::to_multiset_contains(sorted@, sorted@[j]);
            vstd::seq_lib::to_multiset_contains(unsorted, sorted@[j]);
            assert(sorted@.contains(sorted@[j]));
            assert(unsorted.contains(sorted@[j]));
            let k = choose|k: int| 0 <= k < unsorted.len() && unsorted[k] == sorted@[j];
            assert(filters@[k].depth + 20 <= usize::MAX);
        }
    }
    let ghost n = filters@.len() as int;
    let total: usize = if filters.len() > 2 {
        2
    } else {
        1
    };
    let mut round: usize = 0;
    while round < total
        invariant
            round <= total,
            total == rounds(n),
            n == filters@.len(),
            n > 0,
            sorted@.len() == n,
            sorted@ == filters_by_depth(filters@),
            sessions@ == candidates(provider_filter, opencode@, claudecode@, pi@),
            forall|j: int| 0 <= j < sorted@.len() ==> (#[trigger] sorted@[j]).depth + 20 <= usize::MAX,
            forall|s: &Session, f: &SessionFilter, w: usize| call_requires(matches, (s, f, w)),
            forall|s: &Session, n: &String, w: usize| call_requires(tail, (s, n, w)),
            forall|u: (int, int, int)| #[trigger]
                is_try(u, n, sessions@.len() as int) && u.0 < round ==> refused(
                    matches,
                    tail,
                    &sessions@[u.2],
                    sorted@,
                    active(n, u.0),
                    margin(u.1),
                ),
        decreases total - round,
    {
        let needed: usize = sorted.len() - round;
        let mut m: usize = 0;
        while m < 3
            invariant
                m <= 3,
                round < total,
                total == rounds(n),
                n == filters@.len(),
                n > 0,
                sorted@.len() == n,
                needed == active(n, round as int),
                sorted@ == filters_by_depth(filters@),
                sessions@ == candidates(provider_filter, opencode@, claudecode@, pi@),
                forall|j: int|
                    0 <= j < sorted@.len() ==> (#[trigger] sorted@[j]).depth + 20 <= usize::MAX,
                forall|s: &Session, f: &SessionFilter, w: usize| call_requires(matches, (s, f, w)),
                forall|s: &Session, n: &String, w: usize| call_requires(tail, (s, n, w)),
                forall|u: (int, int, int)| #[trigger]
                    is_try(u, n, sessions@.len() as int) && (u.0 < round || (u.0 == round && u.1
                        < m)) ==> refused(
                        matches,
                        tail,
                        &sessions@[u.2],
                        sorted@,
                        active(n, u.0),
                        margin(u.1),
                    ),
            decreases 3 - m,
        {
            let extra: usize = if m == 0 {
                5
            } else if m == 1 {
                10
            } else {
                20
            };
            let mut k: usize = 0;
            while k < sessions.len()
                invariant
                    k <= sessions.len(),
                    m < 3,
                    round < total,
                    total == rounds(n),
                    n == filters@.len(),
                    n > 0,
                    sorted@.len() == n,
                    needed == active(n, round as int),
                    extra == margin(m as int),
                    extra <= 20,
                    sorted@ == filters_by_depth(filters@),
                    sessions@ == candidates(provider_filter, opencode@, claudecode@, pi@),
                    forall|j: int|
                        0 <= j < sorted@.len() ==> (#[trigger] sorted@[j]).depth + 20 <= usize::MAX,
                    forall|s: &Session, f: &SessionFilter, w: usize|
                        call_requires(matches, (s, f, w)),
                    forall|s: &Session, n: &String, w: usize| call_requires(tail, (s, n, w)),
                    forall|u: (int, int, int)| #[trigger]
                        is_try(u, n, sessions@.len() as int) && tried_before(
                            u,
                            (round as int, m as int, k as int),
                        ) ==> refused(
                            matches,
                            tail,
                            &sessions@[u.2],
                            sorted@,
                            active(n, u.0),
                            margin(u.1),
                        ),
                decreases sessions.len() - k,
            {
                let mut all_match = true;
                let mut j: usize = 0;
                while j < needed && all_match
                    invariant
                        j <= needed <= sorted@.len(),
                        k < sessions.len(),
                        extra <= 20,
                        forall|j: int|
                            0 <= j < sorted@.len() ==> (#[trigger] sorted@[j]).depth + 20
                                <= usize::MAX,
                        forall|s: &Session, f: &SessionFilter, w: usize|
                            call_requires(matches, (s, f, w)),
                        forall|s: &Session, n: &String, w: usize| call_requires(tail, (s, n, w)),
                        all_match ==> accepted(
                            matches,
                            tail,
                            &sessions@[k as int],
                            sorted@,
                            j as int,
                            extra,
                        ),
                        !all_match ==> refused(
                            matches,
                            tail,
                            &sessions@[k as int],
                            sorted@,
                            needed as int,
                            extra,
                        ),
                    decreases needed - j,
                {
                    let f = sorted[j];
                    all_match = probe(&matches, &tail, &sessions[k], f, extra + f.depth);
                    j += 1;
                }
                if all_match {
                    let found = DetectedSession {
                        session_id: sessions[k].session_id.clone(),
                        provider: sessions[k].provider,
                    };
                    assert(is_try((round as int, m as int, k as int), n, sessions@.len() as int));
                    return Some(found);
                }
                k += 1;
            }
            m += 1;
        }
        round += 1;
    }
    None
}

/// Whether a session belongs to a project, where one is given.
pub open spec fn of_project(project: Option<Seq<char>>, s: Session) -> bool {
    project matches Some(p) ==> s.project_dir@ == p
}

/// The sessions of a project, where one is given.
pub open spec fn in_project(project: Option<Seq<char>>, sessions: Seq<Session>) -> Seq<Session>
    decreases sessions.len(),
{
    if sessions.len() == 0 {
        sessions
    } else if of_project(project, sessions.last()) {
        in_project(project, sessions.drop_last()).push(sessions.last())
    } else {
        in_project(project, sessions.drop_last())
    }
}

/// The sessions whose last messages are looked at.
pub open spec fn match_candidates(
    filter: Option<Provider>,
    project: Option<Seq<char>>,
    opencode: Seq<Session>,
    claudecode: Seq<Session>,
    pi: Seq<Session>,
) -> Seq<Session> {
    if_included(filter, Provider::OpenCode, in_project(project, opencode)) + if_included(
        filter,
        Provider::ClaudeCode,
        in_project(project, claudecode),
    ) + if_included(filter, Provider::Pi, in_project(project, pi))
}

/// A detected session.
pub ghost struct FoundView {
    pub session_id: Seq<char>,
    pub provider: Provider,
}

impl View for DetectedSession {
    type V = FoundView;

    open spec fn view(&self) -> FoundView {
        FoundView { session_id: self.session_id@, provider: self.provider }
    }
}

impl DeepView for DetectedSession {
    type V = FoundView;

    open spec fn deep_view(&self) -> FoundView {
        self.view()
    }
}

/// The sessions for which the answer is yes.
pub open spec fn matched(sessions: Seq<Session>, answers: Seq<bool>) -> Seq<FoundView>
    decreases sessions.len(),
{
    if sessions.len() == 0 || answers.len() != sessions.len() {
        Seq::empty()
    } else {
        let before = matched(sessions.drop_last(), answers.drop_last());
        if answers.last() {
            before.push(
                FoundView {
                    session_id: sessions.last().session_id@,
                    provider: sessions.last().provider,
                },
            )
        } else {
            before
        }
    }
}

/// One line for each session that matches.
pub open spec fn match_lines(found: Seq<FoundView>) -> Seq<char>
    decreases found.len(),
{
    if found.len() == 0 {
        Seq::empty()
    } else {
        match_lines(found.drop_last()) + "  "@ + found.last().session_id + " ("@ + provider_label(
            found.last().provider,
        ) + ")\n"@
    }
}

/// What is said where no session matches.
pub open spec fn no_match_text(needle: Seq<char>, last: nat) -> Seq<char> {
    "No session found matching \""@ + needle + "\" in last "@ + decimal(last) + " messages"@
}

/// What is said where several sessions match.
pub open spec fn ambiguous_text(found: Seq<FoundView>, needle: Seq<char>) -> Seq<char> {
    trimmed_end(
        "Ambiguous: "@ + decimal(found.len()) + " sessions match \""@ + needle
            + "\". Use --type or --project to narrow:\n"@ + match_lines(found),
    )
}

/// Exactly one session must match.
pub open spec fn single_match(found: Seq<FoundView>, needle: Seq<char>, last: nat) -> Result<
    FoundView,
    Seq<char>,
> {
    if found.len() == 0 {
        Err(no_match_text(needle, last))
    } else if found.len() == 1 {
        Ok(found[0])
    } else {
        Err(ambiguous_text(found, needle))
    }
}

/// The content of a detection: the session, or what is said instead.
pub open spec fn detection(r: Result<DetectedSession, DetectError>) -> Result<FoundView, Seq<char>> {
    match r {
        Ok(found) => Ok(found@),
        Err(e) => Err(e.message@),
    }
}

/// The only session that matches, or why there is no such session.
pub fn single_session(found: Vec<DetectedSession>, needle: &str, last: usize) -> (r: Result<
    DetectedSession,
    DetectError,
>)
    ensures
        detection(r) == single_match(found.deep_view(), needle@, last as nat),
{
    let ghost all = found.deep_view();
    if found.len() == 0 {
        let mut message = "No session found matching \"".to_owned();
        message.append(needle);
        message.append("\" in last ");
        message.append(decimal_of(last as u64).as_str());
        message.append(" messages");
        return Err(DetectError { message });
    }
    if found.len() == 1 {
        let mut found = found;
        assert(all[0] == found@[0]@);
        return Ok(found.remove(0));
    }
    let mut text = "Ambiguous: ".to_owned();
    text.append(decimal_of(found.len() as u64).as_str());
    text.append(" sessions match \"");
    text.append(needle);
    text.append("\". Use --type or --project to narrow:\n");
    let ghost head = text@;
    let mut i: usize = 0;
    assert(head + match_lines(all.take(0)) == head);
    while i < found.len()
        invariant
            i <= found.len(),
            all == found.deep_view(),
            text@ == head + match_lines(all.take(i as int)),
        decreases found.len() - i,
    {
        let ghost before = match_lines(all.take(i as int));
        assert(all.take(i + 1).drop_last() == all.take(i as int));
        assert(all.take(i + 1).last() == found@[i as int]@);
        text.append("  ");
        text.append(found[i].session_id.as_str());
        text.append(" (");
        text.append(found[i].provider.label());
        text.append(")\n");
        assert(text@ == head + match_lines(all.take(i + 1)));
        i += 1;
    }
    assert(all.take(i as int) == all);
    Err(DetectError { message: trim_end(text.as_str()) })
}

fn keep_project(project: &Option<String>, sessions: Vec<Session>) -> (r: Vec<Session>)
    ensures
        r@ == in_project(project.deep_view(), sessions@),
{
    let ghost all = sessions@;
    let mut rest = sessions;
    let mut out: Vec<Session> = Vec::new();
    let ghost mut done: int = 0;
    while rest.len() > 0
        invariant
            0 <= done <= all.len(),
            rest@ == all.skip(done),
            out@ == in_project(project.deep_view(), all.take(done)),
        decreases rest.len(),
    {
        let s = rest.remove(0);
        assert(all.take(done + 1).drop_last() == all.take(done));
        assert(all.take(done + 1).last() == s);
        let keep = match project {
            Some(p) => str_eq(s.project_dir.as_str(), p.as_str()),
            None => true,
        };
        if keep {
            out.push(s);
        }
        proof {
            done = done + 1;
        }
    }
    assert(all.take(done) == all);
    out
}

/// Finds the one session whose last messages contain the needle. `tail` says
/// whether the last messages of a session contain a text; `project` is the
/// project of the options as an absolute path.
pub fn find_session_by_match<G: Fn(&Session, &String, usize) -> bool>(
    opts: &MatchOptions,
    project: &Option<String>,
    opencode: Vec<Session>,
    claudecode: Vec<Session>,
    pi: Vec<Session>,
    tail: G,
) -> (r: Result<DetectedSession, DetectError>)
    requires
        forall|s: &Session, n: &String, w: usize| call_requires(tail, (s, n, w)),
    ensures
        ({
            let all = match_candidates(
                opts.provider_filter,
                project.deep_view(),
                opencode@,
                claudecode@,
                pi@,
            );
            exists|answers: Seq<bool>|
                {
                    &&& answers.len() == all.len()
                    &&& forall|i: int|
                        0 <= i < all.len() ==> call_ensures(
                            tail,
                            (&all[i], &opts.needle, opts.last_messages),
                            #[trigger] answers[i],
                        )
                    &&& detection(r) == single_match(
                        #[trigger] matched(all, answers),
                        opts.needle@,
                        opts.last_messages as nat,
                    )
                }
        }),
{
    let mut all: Vec<Session> = Vec::new();
    if includes_provider(opts.provider_filter, Provider::OpenCode) {
        let mut kept = keep_project(project, opencode);
        all.append(&mut kept);
    }
    if includes_provider(opts.provider_filter, Provider::ClaudeCode) {
        let mut kept = keep_project(project, claudecode);
        all.append(&mut kept);
    }
    if includes_provider(opts.provider_filter, Provider::Pi) {
        let mut kept = keep_project(project, pi);
        all.append(&mut kept);
    }
    let ghost sessions = match_candidates(
        opts.provider_filter,
        project.deep_view(),
        opencode@,
        claudecode@,
        pi@,
    );
    assert(all@ == sessions);
    let ghost mut answers: Seq<bool> = Seq::empty();
    let mut found: Vec<DetectedSession> = Vec::new();
    let mut i: usize = 0;
    assert(found.deep_view() == Seq::<FoundView>::empty());
    while i < all.len()
        invariant
            i <= all.len(),
            all@ == sessions,
            answers.len() == i,
            forall|j: int|
                0 <= j < i ==> call_ensures(
                    tail,
                    (&all@[j], &opts.needle, opts.last_messages),
                    #[trigger] answers[j],
                ),
            found.deep_view() == matched(all@.take(i as int), answers),
            forall|s: &Session, n: &String, w: usize| call_requires(tail, (s, n, w)),
        decreases all.len() - i,
    {
        let answer = tail(&all[i], &opts.needle, opts.last_messages);
        let ghost before = found.deep_view();
        assert(all@.take(i + 1).drop_last() == all@.take(i as int));
        assert(answers.push(answer).drop_last() == answers);
        if answer {
            let hit = DetectedSession {
                session_id: all[i].session_id.clone(),
                provider: all[i].provider,
            };
            found.push(hit);
            assert(found.deep_view() == before.push(hit@));
        }
        proof {
            answers = answers.push(answer);
        }
        i += 1;
    }
    assert(all@.take(i as int) == all@);
    let ghost hits = found.deep_view();
    assert(hits == matched(sessions, answers));
    single_session(found, opts.needle.as_str(), opts.last_messages)
}

/// The session that variables name, in the order in which they are given. An
/// empty name names none.
pub fn session_from_variables(
    opencode: Option<String>,
    claude: Option<String>,
    pi: Option<String>,
) -> (r: Option<DetectedSession>)
    ensures
        r.deep_view() == (match (opencode.deep_view(), claude.deep_view(), pi.deep_view()) {
            (Some(id), _, _) if id.len() > 0 => Some(
                FoundView { session_id: id, provider: Provider::OpenCode },
            ),
            (_, Some(id), _) if id.len() > 0 => Some(
                FoundView { session_id: id, provider: Provider::ClaudeCode },
            ),
            (_, _, Some(id)) if id.len() > 0 => Some(
                FoundView { session_id: id, provider: Provider::Pi },
            ),
            _ => None,
        }),
{
    match opencode {
        Some(id) => {
            if !id.as_str().is_empty() {
                return Some(DetectedSession { session_id: id, provider: Provider::OpenCode });
            }
        },
        None => {},
    }
    match claude {
        Some(id) => {
            if !id.as_str().is_empty() {
                return Some(DetectedSession { session_id: id, provider: Provider::ClaudeCode });
            }
        },
        None => {},
    }
    match pi {
        Some(id) => {
            if !id.as_str().is_empty() {
                return Some(DetectedSession { session_id: id, provider: Provider::Pi });
            }
        },
        None => {},
    }
    None
}

proof fn filter_depths_are_small(messages: Seq<MessageView>, chosen: Seq<int>)
    requires
        forall|i: int| 0 <= i < messages.len() ==> (#[trigger] messages[i]).depth < 10,
        forall|i: int| 0 <= i < chosen.len() ==> 0 <= #[trigger] chosen[i] < messages.len(),
    ensures
        forall|i: int|
            0 <= i < filters_of(messages, chosen).len() ==> (#[trigger] filters_of(
                messages,
                chosen,
            )[i]).depth < 10,
    decreases chosen.len(),
{
    if chosen.len() > 0 {
        filter_depths_are_small(messages, chosen.drop_last());
        assert(0 <= chosen[chosen.len() - 1] < messages.len());
        assert(messages[chosen.last()].depth < 10);
        let before = filters_of(messages, chosen.drop_last());
        let now = filters_of(messages, chosen);
        assert(now == before || now == before.push(now.last()));
    }
}

/// Finds the session that a screen shows.
pub fn detect_last_session_from_scrollback<
    F: Fn(&Session, &SessionFilter, usize) -> bool,
    G: Fn(&Session, &String, usize) -> bool,
>(
    scrollback: &str,
    provider_filter: Option<Provider>,
    opencode: Vec<Session>,
    claudecode: Vec<Session>,
    pi: Vec<Session>,
    matches: F,
    tail: G,
) -> (r: Result<DetectedSession, DetectError>)
    requires
        forall|s: &Session, f: &SessionFilter, w: usize| call_requires(matches, (s, f, w)),
        forall|s: &Session, n: &String, w: usize| call_requires(tail, (s, n, w)),
    ensures
        ({
            let messages = messages_in(lines_of(scrollback@));
            let wanted = filters_for(messages);
            if messages.len() == 0 {
                r matches Err(e) && e.message@
                    == "Could not detect last session.\nNo messages parsed from scrollback file."@
            } else if wanted.len() == 0 {
                r matches Err(e) && e.message@
                    == "Could not detect last session.\nNo filters built from scrollback file."@
            } else {
                &&& exists|filters: Vec<SessionFilter>|
                    {
                        &&& #[trigger] filters.deep_view() == wanted
                        &&& search_outcome(
                            filters@,
                            candidates(provider_filter, opencode@, claudecode@, pi@),
                            matches,
                            tail,
                            (match r {
                                Ok(found) => Some(found),
                                Err(_) => None,
                            }),
                        )
                    }
                &&& r matches Err(e) ==> e.message@
                    == "Could not detect last session.\nFilters built from scrollback file matched no session."@
            }
        }),
{
    let messages = parse_pane_messages(scrollback);
    assert(messages.deep_view().len() == messages.len());
    if messages.len() == 0 {
        return Err(
            DetectError {
                message:
                    "Could not detect last session.\nNo messages parsed from scrollback file.".to_owned(),
            },
        );
    }
    let filters = build_filters(&messages);
    assert(filters.deep_view().len() == filters.len());
    if filters.len() == 0 {
        return Err(
            DetectError {
                message:
                    "Could not detect last session.\nNo filters built from scrollback file.".to_owned(),
            },
        );
    }
    proof {
        let all = messages.deep_view();
        messages_are_few_and_full(lines_of(scrollback@));
        best_messages_are_ranked(ranks_of(all), 3);
        filter_depths_are_small(all, best_messages(ranks_of(all), 3));
        assert forall|i: int| 0 <= i < filters@.len() implies (#[trigger] filters@[i]).depth + 20
            <= usize::MAX by {
            assert(filters.deep_view()[i] == filters@[i]@);
        }
    }
    match find_session_by_filters(&filters, provider_filter, opencode, claudecode, pi, matches, tail) {
        Some(found) => Ok(found),
        None => Err(
            DetectError {
                message:
                    "Could not detect last session.\nFilters built from scrollback file matched no session.".to_owned(),
            },
        ),
    }
}

proof fn top_level_keeps_the_parentless(sessions: Seq<Session>)
    ensures
        forall|s: Session| #[trigger]
            top_level(sessions).contains(s) <==> sessions.contains(s) && s.parent_id is None,
    decreases sessions.len(),
{
    if sessions.len() > 0 {
        let rest = sessions.drop_last();
        top_level_keeps_the_parentless(rest);
        assert(sessions =~= rest.push(sessions.last()));
        assert forall|s: Session| #[trigger]
            top_level(sessions).contains(s) <==> sessions.contains(s) && s.parent_id is None by {
            vstd::seq_lib::lemma_seq_contains_after_push(rest, sessions.last(), s);
            vstd::seq_lib::lemma_seq_contains_after_push(top_level(rest), sessions.last(), s);
        }
    }
}

proof fn in_project_keeps_the_project(project: Option<Seq<char>>, sessions: Seq<Session>)
    ensures
        forall|s: Session| #[trigger]
            in_project(project, sessions).contains(s) <==> sessions.contains(s) && (
            project matches Some(p) ==> s.project_dir@ == p),
    decreases sessions.len(),
{
    if sessions.len() > 0 {
        let rest = sessions.drop_last();
        in_project_keeps_the_project(project, rest);
        assert(sessions =~= rest.push(sessions.last()));
        assert forall|s: Session| #[trigger]
            in_project(project, sessions).contains(s) <==> sessions.contains(s) && (
            project matches Some(p) ==> s.project_dir@ == p) by {
            vstd::seq_lib::lemma_seq_contains_after_push(rest, sessions.last(), s);
            vstd::seq_lib::lemma_seq_contains_after_push(
                in_project(project, rest),
                sessions.last(),
                s,
            );
        }
    }
}

proof fn contained_in_a_sum(a: Seq<Session>, b: Seq<Session>, s: Session)
    ensures
        (a + b).contains(s) <==> a.contains(s) || b.contains(s),
{
    if a.contains(s) {
        let i = choose|i: int| 0 <= i < a.len() && a[i] == s;
        assert((a + b)[i] == s);
    }
    if b.contains(s) {
        let i = choose|i: int| 0 <= i < b.len() && b[i] == s;
        assert((a + b)[a.len() + i] == s);
    }
    if (a + b).contains(s) {
        let i = choose|i: int| 0 <= i < (a + b).len() && (a + b)[i] == s;
        if i < a.len() {
            assert(a[i] == s);
        } else {
            assert(b[i - a.len()] == s);
        }
    }
}

/// The sessions that are searched are those of the providers asked for, without those
/// that another session of OpenCode or Pi started, and the last updated comes first.
pub proof fn sessions_asked_for_are_searched(
    filter: Option<Provider>,
    opencode: Seq<Session>,
    claudecode: Seq<Session>,
    pi: Seq<Session>,
)
    ensures
        forall|s: Session| #[trigger]
            candidates(filter, opencode, claudecode, pi).contains(s) <==> {
                ||| opencode.contains(s) && s.parent_id is None && (filter is None || filter
                    == Some(Provider::OpenCode))
                ||| claudecode.contains(s) && (filter is None || filter == Some(
                    Provider::ClaudeCode,
                ))
                ||| pi.contains(s) && s.parent_id is None && (filter is None || filter == Some(
                    Provider::Pi,
                ))
            },
        forall|i: int, j: int|
            0 <= i < j < candidates(filter, opencode, claudecode, pi).len() ==> (
            #[trigger] candidates(filter, opencode, claudecode, pi)[j]).updated_at.spec_le(
                (#[trigger] candidates(filter, opencode, claudecode, pi)[i]).updated_at,
            ),
{
    let a = if_included(filter, Provider::OpenCode, top_level(opencode));
    let b = if_included(filter, Provider::ClaudeCode, claudecode);
    let c = if_included(filter, Provider::Pi, top_level(pi));
    let all = a + b + c;
    let r = candidates(filter, opencode, claudecode, pi);
    sorting_sorts::<Session, ByUpdateDescending>(all);
    top_level_keeps_the_parentless(opencode);
    top_level_keeps_the_parentless(pi);
    assert forall|s: Session| #[trigger] r.contains(s) <==> all.contains(s) by {
        r.to_multiset_ensures();
        all.to_multiset_ensures();
        assert(r.contains(s) <==> r.to_multiset().count(s) > 0);
        assert(all.contains(s) <==> all.to_multiset().count(s) > 0);
    }
    assert forall|s: Session| #[trigger] all.contains(s) <==> a.contains(s) || b.contains(s)
        || c.contains(s) by {
        contained_in_a_sum(a, b, s);
        contained_in_a_sum(a + b, c, s);
    }
    assert forall|i: int, j: int| 0 <= i < j < r.len() implies (
    #[trigger] r[j]).updated_at.spec_le((#[trigger] r[i]).updated_at) by {
        assert(ByUpdateDescending::le(r[i], r[j]));
    }
}

/// A text is looked for in the sessions of the providers and of the project asked for,
/// and in no others.
pub proof fn texts_are_looked_for_where_asked(
    filter: Option<Provider>,
    project: Option<Seq<char>>,
    opencode: Seq<Session>,
    claudecode: Seq<Session>,
    pi: Seq<Session>,
)
    ensures
        forall|s: Session| #[trigger]
            match_candidates(filter, project, opencode, claudecode, pi).contains(s) <==> (
            project matches Some(p) ==> s.project_dir@ == p) && {
                ||| opencode.contains(s) && (filter is None || filter == Some(Provider::OpenCode))
                ||| claudecode.contains(s) && (filter is None || filter == Some(
                    Provider::ClaudeCode,
                ))
                ||| pi.contains(s) && (filter is None || filter == Some(Provider::Pi))
            },
{
    let a = if_included(filter, Provider::OpenCode, in_project(project, opencode));
    let b = if_included(filter, Provider::ClaudeCode, in_project(project, claudecode));
    let c = if_included(filter, Provider::Pi, in_project(project, pi));
    in_project_keeps_the_project(project, opencode);
    in_project_keeps_the_project(project, claudecode);
    in_project_keeps_the_project(project, pi);
    assert forall|s: Session| #[trigger] (a + b + c).contains(s) <==> a.contains(s)
        || b.contains(s) || c.contains(s) by {
        contained_in_a_sum(a, b, s);
        contained_in_a_sum(a + b, c, s);
    }
}

/// A session that is found by text is one that was looked into and held it, and the only
/// one; where none held it, or more than one did, none is found.
pub proof fn found_by_text_is_the_only_one(
    sessions: Seq<Session>,
    answers: Seq<bool>,
    needle: Seq<char>,
    last: nat,
)
    requires
        answers.len() == sessions.len(),
    ensures
        match single_match(matched(sessions, answers), needle, last) {
            Ok(found) => exists|i: int|
                0 <= i < sessions.len() && #[trigger] answers[i] && found.session_id
                    == sessions[i].session_id@ && found.provider == sessions[i].provider && forall|
                    j: int,
                |
                    0 <= j < sessions.len() && j != i ==> !(#[trigger] answers[j]),
            Err(_) => (forall|i: int| 0 <= i < sessions.len() ==> !(#[trigger] answers[i])) || exists|
                i: int,
                j: int,
            |
                0 <= i < j < sessions.len() && #[trigger] answers[i] && #[trigger] answers[j],
        },
{
    matches_are_answers(sessions, answers);
    let found = matched(sessions, answers);
    if found.len() == 1 {
        let i = match_position(sessions, answers, 0);
        assert forall|j: int| 0 <= j < sessions.len() && j != i implies !(#[trigger] answers[j]) by {
            if answers[j] {
                two_answers_are_two_matches(sessions, answers, i, j);
            }
        }
        assert(answers[i]);
    } else if found.len() > 1 {
        let i = match_position(sessions, answers, 0);
        let j = match_position(sessions, answers, 1);
        matches_keep_their_order(sessions, answers, 0, 1);
    }
}

proof fn matches_are_answers(sessions: Seq<Session>, answers: Seq<bool>)
    requires
        answers.len() == sessions.len(),
    ensures
        matched(sessions, answers).len() <= sessions.len(),
        matched(sessions, answers).len() == 0 ==> forall|i: int|
            0 <= i < answers.len() ==> !(#[trigger] answers[i]),
    decreases sessions.len(),
{
    if sessions.len() > 0 {
        matches_are_answers(sessions.drop_last(), answers.drop_last());
        if matched(sessions, answers).len() == 0 {
            assert forall|i: int| 0 <= i < answers.len() implies !(#[trigger] answers[i]) by {
                if i < answers.len() - 1 {
                    assert(answers.drop_last()[i] == answers[i]);
                }
            }
        }
    }
}

spec fn position_of(sessions: Seq<Session>, answers: Seq<bool>, k: int) -> int
    decreases sessions.len(),
{
    if sessions.len() == 0 || answers.len() != sessions.len() {
        0
    } else if answers.last() && k == matched(sessions.drop_last(), answers.drop_last()).len() {
        sessions.len() - 1
    } else {
        position_of(sessions.drop_last(), answers.drop_last(), k)
    }
}

proof fn match_position(sessions: Seq<Session>, answers: Seq<bool>, k: int) -> (i: int)
    requires
        answers.len() == sessions.len(),
        0 <= k < matched(sessions, answers).len(),
    ensures
        i == position_of(sessions, answers, k),
        0 <= i < sessions.len(),
        answers[i],
        matched(sessions, answers)[k].session_id == sessions[i].session_id@,
        matched(sessions, answers)[k].provider == sessions[i].provider,
    decreases sessions.len(),
{
    let rest = sessions.drop_last();
    let before = answers.drop_last();
    if answers.last() && k == matched(rest, before).len() {
        sessions.len() - 1
    } else {
        match_position(rest, before, k)
    }
}

proof fn matches_keep_their_order(sessions: Seq<Session>, answers: Seq<bool>, k: int, l: int)
    requires
        answers.len() == sessions.len(),
        0 <= k < l < matched(sessions, answers).len(),
    ensures
        position_of(sessions, answers, k) < position_of(sessions, answers, l),
    decreases sessions.len(),
{
    let rest = sessions.drop_last();
    let before = answers.drop_last();
    if answers.last() && l == matched(rest, before).len() {
        match_position(rest, before, k);
    } else {
        matches_keep_their_order(rest, before, k, l);
    }
}

proof fn two_answers_are_two_matches(sessions: Seq<Session>, answers: Seq<bool>, i: int, j: int)
    requires
        answers.len() == sessions.len(),
        0 <= i < answers.len(),
        0 <= j < answers.len(),
        i != j,
        answers[i],
        answers[j],
    ensures
        matched(sessions, answers).len() >= 2,
    decreases sessions.len(),
{
    let rest = sessions.drop_last();
    let before = answers.drop_last();
    let n = sessions.len() - 1;
    if i < n && j < n {
        two_answers_are_two_matches(rest, before, i, j);
    } else {
        let other = if i < n {
            i
        } else {
            j
        };
        assert(before[other]);
        matches_are_answers(rest, before);
    }
}

/// A session that is found by filters is one of those searched. Each of the filters but
/// at most the deepest of more than two was met by it, in a window of five, ten or twenty
/// messages beyond the depth of the filter.
pub proof fn found_by_filters_meets_them<
    F: Fn(&Session, &SessionFilter, usize) -> bool,
    G: Fn(&Session, &String, usize) -> bool,
>(
    filters: Seq<SessionFilter>,
    all: Seq<Session>,
    matches: F,
    tail: G,
    found: DetectedSession,
) -> (r: (int, usize))
    requires
        search_outcome(filters, all, matches, tail, Some(found)),
    ensures
        filters.len() > 0,
        0 <= r.0 < all.len(),
        found.session_id@ == all[r.0].session_id@,
        found.provider == all[r.0].provider,
        r.1 == 5 || r.1 == 10 || r.1 == 20,
        forall|j: int|
            0 <= j < filters.len() && (j < filters.len() - 1 || filters.len() <= 2) ==> answered(
                matches,
                tail,
                &all[r.0],
                #[trigger] filters_by_depth(filters)[j],
                (r.1 + filters_by_depth(filters)[j].depth) as usize,
                true,
            ),
{
    let n = filters.len() as int;
    let sorted = filters_by_depth(filters);
    let t = choose|t: (int, int, int)|
        {
            &&& #[trigger] is_try(t, n, all.len() as int)
            &&& found.session_id@ == all[t.2].session_id@
            &&& found.provider == all[t.2].provider
            &&& accepted(matches, tail, &all[t.2], sorted, active(n, t.0), margin(t.1))
            &&& forall|u: (int, int, int)| #[trigger]
                is_try(u, n, all.len() as int) && tried_before(u, t) ==> refused(
                    matches,
                    tail,
                    &all[u.2],
                    sorted,
                    active(n, u.0),
                    margin(u.1),
                )
        };
    (t.2, margin(t.1))
}

/// Where every session met every filter in the first window, the first session that is
/// searched is found: nothing is passed over.
pub proof fn the_first_that_meets_all_is_found<
    F: Fn(&Session, &SessionFilter, usize) -> bool,
    G: Fn(&Session, &String, usize) -> bool,
>(
    filters: Seq<SessionFilter>,
    all: Seq<Session>,
    matches: F,
    tail: G,
    outcome: Option<DetectedSession>,
)
    requires
        search_outcome(filters, all, matches, tail, outcome),
        filters.len() > 0,
        all.len() > 0,
        forall|f: &SessionFilter| !(#[trigger] answered(
            matches,
            tail,
            &all[0],
            f,
            (5 + f.depth) as usize,
            false,
        )),
    ensures
        outcome matches Some(found) && found.session_id@ == all[0].session_id@ && found.provider
            == all[0].provider,
{
    let n = filters.len() as int;
    let sorted = filters_by_depth(filters);
    let first = (0int, 0int, 0int);
    assert(is_try(first, n, all.len() as int));
    assert(!refused(matches, tail, &all[0], sorted, active(n, 0), margin(0)));
    if let Some(found) = outcome {
        let t = choose|t: (int, int, int)|
            {
                &&& #[trigger] is_try(t, n, all.len() as int)
                &&& found.session_id@ == all[t.2].session_id@
                &&& found.provider == all[t.2].provider
                &&& accepted(matches, tail, &all[t.2], sorted, active(n, t.0), margin(t.1))
                &&& forall|u: (int, int, int)| #[trigger]
                    is_try(u, n, all.len() as int) && tried_before(u, t) ==> refused(
                        matches,
                        tail,
                        &all[u.2],
                        sorted,
                        active(n, u.0),
                        margin(u.1),
                    )
            };
        assert(!tried_before(first, t));
    }
}

/// The filters are tried from the shallowest to the deepest, and none is left out.
pub proof fn filters_are_tried_by_depth(filters: Seq<SessionFilter>)
    ensures
        filters_by_depth(filters).len() == filters.len(),
        forall|i: int, j: int|
            0 <= i < j < filters.len() ==> (#[trigger] filters_by_depth(filters)[i]).depth <= (
            #[trigger] filters_by_depth(filters)[j]).depth,
{
    let refs: Seq<&SessionFilter> = Seq::new(filters.len(), |i: int| &filters[i]);
    sorting_sorts::<&SessionFilter, ByDepth>(refs);
    let r = filters_by_depth(filters);
    r.to_multiset_ensures();
    refs.to_multiset_ensures();
    assert forall|i: int, j: int| 0 <= i < j < filters.len() implies (#[trigger] r[i]).depth <= (
    #[trigger] r[j]).depth by {
        assert(ByDepth::le(r[i], r[j]));
    }
}

/// A session of OpenCode meets a filter where its records are said to match it. One of
/// another provider meets only a filter of the last message, by a text of the filter that
/// its tail is said to hold.
pub proof fn filters_are_met_by_records_or_text<
    F: Fn(&Session, &SessionFilter, usize) -> bool,
    G: Fn(&Session, &String, usize) -> bool,
>(matches: F, tail: G, s: &Session, f: &SessionFilter, window: usize)
    requires
        answered(matches, tail, s, f, window, true),
    ensures
        s.provider == Provider::OpenCode ==> call_ensures(matches, (s, f, window), true),
        s.provider != Provider::OpenCode ==> f.depth == 0 && exists|k: int|
            0 <= k < f.criteria@.len() && (#[trigger] f.criteria@[k] is TextContains)
                && call_ensures(tail, (s, &f.criteria@[k]->TextContains_0, window), true),
{
    if s.provider != Provider::OpenCode {
        let k = choose|k: int|
            #![trigger f.criteria@[k]]
            0 <= k < f.criteria@.len() && asked_text(f.criteria@[k]) is Some && call_ensures(
                tail,
                (s, &asked_text(f.criteria@[k])->0, window),
                true,
            );
        assert(f.criteria@[k] is TextContains);
    }
}

/// A session that the surroundings name is taken by the variable of its harness: the first
/// of the three that is not empty counts, and an empty one names nothing.
pub proof fn variables_name_their_harness(
    opencode: Option<String>,
    claude: Option<String>,
    pi: Option<String>,
    r: Option<DetectedSession>,
)
    requires
        call_ensures(session_from_variables, (opencode, claude, pi), r),
    ensures
        opencode is Some && opencode->0@.len() > 0 ==> r is Some && r->0.session_id@
            == opencode->0@ && r->0.provider == Provider::OpenCode,
        (opencode is None || opencode->0@.len() == 0) && claude is Some && claude->0@.len() > 0
            ==> r is Some && r->0.session_id@ == claude->0@ && r->0.provider
            == Provider::ClaudeCode,
        (opencode is None || opencode->0@.len() == 0) && (claude is None || claude->0@.len() == 0)
            && pi is Some && pi->0@.len() > 0 ==> r is Some && r->0.session_id@ == pi->0@
            && r->0.provider == Provider::Pi,
        (opencode is None || opencode->0@.len() == 0) && (claude is None || claude->0@.len() == 0)
            && (pi is None || pi->0@.len() == 0) ==> r is None,
{
    match r {
        Some(found) => {
            assert(found@ == r.deep_view()->0);
        },
        None => {},
    }
}

/// Every filter is looked for five messages deeper than it was shown, then ten, then twenty;
/// with more than two filters the last is given up in a second round.
pub proof fn searches_widen()
    ensures
        margin(0) == 5,
        margin(1) == 10,
        margin(2) == 20,
        forall|n: int| n <= 2 ==> #[trigger] rounds(n) == 1,
        forall|n: int| n > 2 ==> #[trigger] rounds(n) == 2,
        forall|n: int, r: int| #[trigger] active(n, r) + r == n,
{
}

/// A session of another harness than OpenCode is refused by a filter on its last message only
/// where none of the texts that the filter asks for is found.
pub proof fn refusals_looked_for_every_text<F: Fn(&Session, &SessionFilter, usize) -> bool, G: Fn(
    &Session,
    &String,
    usize,
) -> bool>(
    matches: F,
    tail: G,
    s: &Session,
    f: &SessionFilter,
    window: usize,
    k: int,
)
    requires
        answered(matches, tail, s, f, window, false),
        s.provider != Provider::OpenCode,
        f.depth == 0,
        0 <= k < f.criteria@.len(),
        asked_text(f.criteria@[k]) is Some,
    ensures
        call_ensures(tail, (s, &asked_text(f.criteria@[k])->0, window), false),
{
}

} // verus!
