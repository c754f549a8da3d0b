//! The summary of all judgements on a test.

use crate::rate::judge::{JudgeRating, RatingView};
use crate::session_index::index::{put_text, strictly_sorted, with_text, with_text_adds_in_order};
use crate::table::TextMap;
use crate::text::{contains_text, decimal, decimal_of, has_prefix, has_suffix, occurs_at, str_eq};
use crate::time::{Timestamp, format_utc, is_instant, utc_now, utc_text};
use vstd::prelude::*;

verus! {

/// Where a rating failed.
#[derive(Clone, Copy, PartialEq, Eq, Structural, Debug)]
pub enum FailureStage {
    TestParsing,
    AgentInvocation,
    AgentTimeout,
    JudgeInvocation,
    JudgeTimeout,
    JudgeParsing,
    ReportWriting,
}

/// The name of a stage in reports.
pub open spec fn stage_name(s: FailureStage) -> Seq<char> {
    match s {
        FailureStage::TestParsing => "Test Parsing"@,
        FailureStage::AgentInvocation => "Agent Invocation"@,
        FailureStage::AgentTimeout => "Agent Timeout"@,
        FailureStage::JudgeInvocation => "Judge Invocation"@,
        FailureStage::JudgeTimeout => "Judge Timeout"@,
        FailureStage::JudgeParsing => "Judge Parsing"@,
        FailureStage::ReportWriting => "Report Writing"@,
    }
}

impl FailureStage {
    /// The name of the stage in reports.
    pub fn as_str(&self) -> (r: &'static str)
        ensures
            r@ == stage_name(*self),
    {
        match self {
            FailureStage::TestParsing => "Test Parsing",
            FailureStage::AgentInvocation => "Agent Invocation",
            FailureStage::AgentTimeout => "Agent Timeout",
            FailureStage::JudgeInvocation => "Judge Invocation",
            FailureStage::JudgeTimeout => "Judge Timeout",
            FailureStage::JudgeParsing => "Judge Parsing",
            FailureStage::ReportWriting => "Report Writing",
        }
    }
}

/// A failure in rating.
#[derive(Clone, Debug)]
pub struct FailureRecord {
    pub stage: FailureStage,
    /// The model that was at work.
    pub model: Option<String>,
    pub message: String,
    pub timestamp: Timestamp,
}

/// The line of a failure.
pub open spec fn failure_line(f: FailureRecord) -> Seq<char> {
    "- "@ + stage_name(f.stage) + (match f.model {
        Some(m) => ": "@ + m@ + " - "@,
        None => " - "@,
    }) + f.message@ + "\n"@
}

/// The lines of failures.
pub open spec fn failure_lines(errors: Seq<FailureRecord>) -> Seq<char>
    decreases errors.len(),
{
    if errors.len() == 0 {
        Seq::empty()
    } else {
        failure_lines(errors.drop_last()) + failure_line(errors.last())
    }
}

/// The section of failures.
pub open spec fn errors_section(errors: Seq<FailureRecord>) -> Seq<char> {
    "\n## Errors\n\n"@ + failure_lines(errors)
}

fn append_failure(s: &mut String, f: &FailureRecord)
    ensures
        final(s)@ == old(s)@ + failure_line(*f),
{
    let ghost before = s@;
    s.append("- ");
    s.append(f.stage.as_str());
    match &f.model {
        Some(m) => {
            s.append(": ");
            s.append(m.as_str());
            s.append(" - ");
        },
        None => {
            s.append(" - ");
        },
    }
    s.append(f.message.as_str());
    s.append("\n");
    assert(s@ =~= before + failure_line(*f));
}

/// The section of failures.
pub fn format_errors_section(errors: &Vec<FailureRecord>) -> (r: String)
    ensures
        r@ == errors_section(errors@),
{
    let mut s = "\n## Errors\n\n".to_string();
    let mut i: usize = 0;
    assert(errors@.take(0) =~= Seq::<FailureRecord>::empty());
    assert("\n## Errors\n\n"@ + Seq::<char>::empty() =~= "\n## Errors\n\n"@);
    while i < errors.len()
        invariant
            i <= errors.len(),
            s@ == "\n## Errors\n\n"@ + failure_lines(errors@.take(i as int)),
        decreases errors.len() - i,
    {
        let ghost known = failure_lines(errors@.take(i as int));
        let ghost line = failure_line(errors@[i as int]);
        assert(errors@.take(i + 1).drop_last() =~= errors@.take(i as int));
        append_failure(&mut s, &errors[i]);
        assert("\n## Errors\n\n"@ + known + line =~= "\n## Errors\n\n"@ + (known + line));
        i += 1;
    }
    assert(errors@.take(i as int) =~= errors@);
    s
}

/// The judgements on one agent.
pub struct AgentStats {
    /// The judges, in order.
    judges: Vec<String>,
    /// The last judgement of each: points, and how many there are.
    scores: TextMap<(u32, u32)>,
    /// The points of all judgements.
    total_points: u128,
    /// How many there are in all judgements.
    total_max_points: u128,
}

/// The content of the judgements on one agent.
#[verifier::ext_equal]
pub ghost struct StatsView {
    pub judges: Seq<Seq<char>>,
    pub scores: Map<Seq<char>, (u32, u32)>,
    pub total_points: nat,
    pub total_max_points: nat,
}

/// No judgements.
pub open spec fn no_stats() -> StatsView {
    StatsView {
        judges: Seq::empty(),
        scores: Map::empty(),
        total_points: 0,
        total_max_points: 0,
    }
}

/// The judgements with one more. A later judgement of the same judge takes the
/// place of the earlier, but both count in the sums.
pub open spec fn with_score(s: StatsView, judge: Seq<char>, points: u32, max_points: u32) -> StatsView {
    StatsView {
        judges: with_text(s.judges, judge),
        scores: s.scores.insert(judge, (points, max_points)),
        total_points: s.total_points + points as nat,
        total_max_points: s.total_max_points + max_points as nat,
    }
}

impl View for AgentStats {
    type V = StatsView;

    closed spec fn view(&self) -> StatsView {
        StatsView {
            judges: self.judges.deep_view(),
            scores: self.scores@,
            total_points: self.total_points as nat,
            total_max_points: self.total_max_points as nat,
        }
    }
}

/// How many there are in the judgement of the first judge.
pub open spec fn first_max(s: StatsView) -> u32 {
    if s.judges.len() > 0 && s.scores.dom().contains(s.judges[0]) {
        s.scores[s.judges[0]].1
    } else {
        0
    }
}

impl AgentStats {
    /// No judgements.
    pub fn new() -> (r: AgentStats)
        ensures
            r@ == no_stats(),
    {
        let r = AgentStats {
            judges: Vec::new(),
            scores: TextMap::new(),
            total_points: 0,
            total_max_points: 0,
        };
        assert(r@ =~= no_stats());
        r
    }

    /// Adds a judgement.
    pub fn add_rating(&mut self, judge_model: &str, points: u32, max_points: u32)
        requires
            old(self)@.total_points + points <= u128::MAX,
            old(self)@.total_max_points + max_points <= u128::MAX,
        ensures
            final(self)@ == with_score(old(self)@, judge_model@, points, max_points),
    {
        let _new = put_text(&mut self.judges, judge_model.to_string());
        self.scores.insert(judge_model.to_string(), (points, max_points));
        self.total_points = self.total_points + points as u128;
        self.total_max_points = self.total_max_points + max_points as u128;
        assert(self@ =~= with_score(old(self)@, judge_model@, points, max_points));
    }

    /// The points of all judgements.
    pub fn total_points(&self) -> (r: u128)
        ensures
            r == self@.total_points,
    {
        self.total_points
    }

    /// How many points there are in all judgements.
    pub fn total_max_points(&self) -> (r: u128)
        ensures
            r == self@.total_max_points,
    {
        self.total_max_points
    }

    /// How many judges there are.
    pub fn judge_count(&self) -> (r: usize)
        ensures
            r == self@.judges.len(),
    {
        assert(self.judges.deep_view().len() == self.judges.len());
        self.judges.len()
    }

    /// The name of a judge.
    pub fn judge_at(&self, i: usize) -> (r: &String)
        requires
            i < self@.judges.len(),
        ensures
            r@ == self@.judges[i as int],
    {
        assert(self.judges.deep_view()[i as int] == self.judges@[i as int]@);
        &self.judges[i]
    }

    /// The last judgement of a judge: points, and how many there are.
    pub fn score_of(&self, judge: &str) -> (r: Option<(u32, u32)>)
        ensures
            match r {
                Some(s) => self@.scores.dom().contains(judge@) && s == self@.scores[judge@],
                None => !self@.scores.dom().contains(judge@),
            },
    {
        match self.scores.get(judge) {
            Some(s) => Some(*s),
            None => None,
        }
    }

    /// How many points there are in one judgement: in that of the first judge.
    pub fn max_points_per_judge(&self) -> (r: u32)
        ensures
            r == first_max(self@),
    {
        if self.judges.len() == 0 {
            return 0;
        }
        assert(self.judges.deep_view()[0] == self.judges@[0]@);
        match self.scores.get(self.judges[0].as_str()) {
            Some(s) => s.1,
            None => 0,
        }
    }
}

/// The agents that are judged, in order, each once.
pub open spec fn agents_in(ratings: Seq<RatingView>) -> Seq<Seq<char>>
    decreases ratings.len(),
{
    if ratings.len() == 0 {
        Seq::empty()
    } else {
        with_text(agents_in(ratings.drop_last()), ratings.last().agent_model)
    }
}

/// The judgements on an agent.
pub open spec fn stats_of(ratings: Seq<RatingView>, agent: Seq<char>) -> StatsView
    decreases ratings.len(),
{
    if ratings.len() == 0 {
        no_stats()
    } else {
        let before = stats_of(ratings.drop_last(), agent);
        let r = ratings.last();
        if r.agent_model == agent {
            with_score(before, r.judge_model, r.points, r.max_points)
        } else {
            before
        }
    }
}

fn list_agents(ratings: &Vec<JudgeRating>) -> (r: Vec<String>)
    ensures
        r.deep_view() == agents_in(ratings.deep_view()),
{
    let ghost all = ratings.deep_view();
    let mut out: Vec<String> = Vec::new();
    let mut i: usize = 0;
    assert(all.take(0) =~= Seq::<RatingView>::empty());
    assert(out.deep_view() =~= Seq::<Seq<char>>::empty());
    while i < ratings.len()
        invariant
            i <= ratings.len(),
            all == ratings.deep_view(),
            out.deep_view() == agents_in(all.take(i as int)),
        decreases ratings.len() - i,
    {
        assert(all.take(i + 1).drop_last() =~= all.take(i as int));
        assert(all.take(i + 1).last() == ratings@[i as int]@);
        let _new = put_text(&mut out, ratings[i].agent_model.clone());
        i += 1;
    }
    assert(all.take(i as int) =~= all);
    out
}

fn gather_stats(ratings: &Vec<JudgeRating>, agent: &str) -> (r: AgentStats)
    ensures
        r@ == stats_of(ratings.deep_view(), agent@),
{
    let ghost all = ratings.deep_view();
    let mut stats = AgentStats::new();
    let mut i: usize = 0;
    assert(all.take(0) =~= Seq::<RatingView>::empty());
    while i < ratings.len()
        invariant
            i <= ratings.len(),
            all == ratings.deep_view(),
            stats@ == stats_of(all.take(i as int), agent@),
            stats@.total_points <= i * u32::MAX,
            stats@.total_max_points <= i * u32::MAX,
        decreases ratings.len() - i,
    {
        proof {
            assert(all.take(i + 1).drop_last() =~= all.take(i as int));
            assert(all.take(i + 1).last() == ratings@[i as int]@);
            assert((i + 1) * u32::MAX == i * u32::MAX + u32::MAX) by (nonlinear_arith);
            assert((i + 1) * u32::MAX <= u128::MAX) by (nonlinear_arith)
                requires
                    i < usize::MAX,
            ;
        }
        let r = &ratings[i];
        if str_eq(r.agent_model.as_str(), agent) {
            stats.add_rating(r.judge_model.as_str(), r.points, r.max_points);
        }
        i += 1;
    }
    assert(all.take(i as int) =~= all);
    stats
}

/// The points of all judgements on all agents.
pub open spec fn all_points(ratings: Seq<RatingView>) -> nat
    decreases ratings.len(),
{
    if ratings.len() == 0 {
        0
    } else {
        all_points(ratings.drop_last()) + ratings.last().points as nat
    }
}

/// How many points there are in all judgements on all agents.
pub open spec fn all_max_points(ratings: Seq<RatingView>) -> nat
    decreases ratings.len(),
{
    if ratings.len() == 0 {
        0
    } else {
        all_max_points(ratings.drop_last()) + ratings.last().max_points as nat
    }
}

fn sum_points(ratings: &Vec<JudgeRating>) -> (r: (u128, u128))
    ensures
        r.0 == all_points(ratings.deep_view()),
        r.1 == all_max_points(ratings.deep_view()),
{
    let ghost all = ratings.deep_view();
    let mut points: u128 = 0;
    let mut max_points: u128 = 0;
    let mut i: usize = 0;
    assert(all.take(0) =~= Seq::<RatingView>::empty());
    while i < ratings.len()
        invariant
            i <= ratings.len(),
            all == ratings.deep_view(),
            points == all_points(all.take(i as int)),
            max_points == all_max_points(all.take(i as int)),
            points <= i * u32::MAX,
            max_points <= i * u32::MAX,
        decreases ratings.len() - i,
    {
        proof {
            assert(all.take(i + 1).drop_last() =~= all.take(i as int));
            assert(all.take(i + 1).last() == ratings@[i as int]@);
            assert((i + 1) * u32::MAX == i * u32::MAX + u32::MAX) by (nonlinear_arith);
            assert((i + 1) * u32::MAX <= u128::MAX) by (nonlinear_arith)
                requires
                    i < usize::MAX,
            ;
        }
        points = points + ratings[i].points as u128;
        max_points = max_points + ratings[i].max_points as u128;
        i += 1;
    }
    assert(all.take(i as int) =~= all);
    (points, max_points)
}

/// Whether a share may be written so.
pub open spec fn may_show_share<P: Fn(u128, u128) -> String>(
    percent: P,
    points: nat,
    max_points: nat,
    text: Seq<char>,
) -> bool {
    exists|p: u128, m: u128, s: String| #[trigger]
        call_ensures(percent, (p, m), s) && p == points && m == max_points && s@ == text
}

/// Whether an average may be written so, with a number of decimals.
pub open spec fn may_show_average<A: Fn(u128, usize, usize) -> String>(
    average: A,
    points: nat,
    count: nat,
    decimals: nat,
    text: Seq<char>,
) -> bool {
    exists|p: u128, n: usize, d: usize, s: String| #[trigger]
        call_ensures(average, (p, n, d), s) && p == points && n == count && d == decimals && s@
            == text
}

/// How the numbers in the section of an agent are written.
pub ghost struct AgentTexts {
    /// The share of points for each judge.
    pub shares: Seq<Seq<char>>,
    pub average: Seq<char>,
    pub share: Seq<char>,
}

/// The line of a judge.
pub open spec fn judge_line(judge: Seq<char>, score: (u32, u32), share: Seq<char>) -> Seq<char> {
    "- "@ + judge + ": "@ + decimal(score.0 as nat) + "/"@ + decimal(score.1 as nat) + " ("@ + share
        + "%)\n"@
}

/// The lines of the first `n` judges.
pub open spec fn judge_lines(s: StatsView, shares: Seq<Seq<char>>, n: nat) -> Seq<char>
    decreases n,
{
    if n == 0 {
        Seq::empty()
    } else {
        let i = (n - 1) as nat;
        judge_lines(s, shares, i) + judge_line(
            s.judges[i as int],
            s.scores[s.judges[i as int]],
            shares[i as int],
        )
    }
}

/// The section of an agent.
pub open spec fn agent_section(agent: Seq<char>, s: StatsView, t: AgentTexts) -> Seq<char> {
    "\n### "@ + agent + "\n"@ + judge_lines(s, t.shares, s.judges.len()) + "- **Average**: "@
        + t.average + "/"@ + decimal(first_max(s) as nat) + " ("@ + t.share + "%)\n"@
}

/// Whether the numbers in the section of an agent may be written so.
pub open spec fn texts_hold<P: Fn(u128, u128) -> String, A: Fn(u128, usize, usize) -> String>(
    doors: (P, A),
    s: StatsView,
    t: AgentTexts,
) -> bool {
    &&& t.shares.len() == s.judges.len()
    &&& forall|i: int|
        0 <= i < s.judges.len() ==> may_show_share(
            doors.0,
            s.scores[s.judges[i]].0 as nat,
            s.scores[s.judges[i]].1 as nat,
            #[trigger] t.shares[i],
        )
    &&& may_show_average(doors.1, s.total_points, s.judges.len(), 1, t.average)
    &&& may_show_share(doors.0, s.total_points, s.total_max_points, t.share)
}

/// The sections of the first `n` agents.
pub open spec fn agent_sections(ratings: Seq<RatingView>, texts: Seq<AgentTexts>, n: nat) -> Seq<char>
    decreases n,
{
    if n == 0 {
        Seq::empty()
    } else {
        let i = (n - 1) as nat;
        let agent = agents_in(ratings)[i as int];
        agent_sections(ratings, texts, i) + agent_section(
            agent,
            stats_of(ratings, agent),
            texts[i as int],
        )
    }
}

/// The head of a summary.
pub open spec fn summary_head(
    test_name: Seq<char>,
    instruction_hash: Seq<char>,
    prompt_hash: Seq<char>,
    at: Timestamp,
) -> Seq<char> {
    "# Rating Summary\n\n**Test**: "@ + test_name + "\n**Agent Instruction Hash**: "@
        + instruction_hash + "\n**Judge Prompt Hash**: "@ + prompt_hash + "\n**Timestamp**: "@
        + utc_text(at) + "\n"@
}

/// The section of the average over all.
pub open spec fn global_section(average: Seq<char>, max_points: u32, share: Seq<char>) -> Seq<char> {
    "\n## Global Average\n\n**All Judges \u{d7} All Agents**: "@ + average + "/"@ + decimal(
        max_points as nat,
    ) + " ("@ + share + "%)\n"@
}

/// The failures, where there are any.
pub open spec fn errors_part(errors: Seq<FailureRecord>) -> Seq<char> {
    if errors.len() == 0 {
        Seq::empty()
    } else {
        errors_section(errors)
    }
}

/// How the numbers in a summary are written.
pub ghost struct SummaryTexts {
    pub agents: Seq<AgentTexts>,
    pub average: Seq<char>,
    pub share: Seq<char>,
}

/// What stands in a summary behind its head.
pub open spec fn summary_body(
    ratings: Seq<RatingView>,
    errors: Seq<FailureRecord>,
    t: SummaryTexts,
) -> Seq<char> {
    if ratings.len() == 0 {
        "\n## No Ratings\n\nNo successful ratings were collected.\n"@ + errors_part(errors)
    } else {
        "\n## Per-Agent Results\n"@ + agent_sections(ratings, t.agents, agents_in(ratings).len())
            + global_section(t.average, ratings[0].max_points, t.share) + errors_part(errors)
    }
}

/// Whether the numbers in a summary may be written so.
pub open spec fn summary_texts_hold<
    P: Fn(u128, u128) -> String,
    A: Fn(u128, usize, usize) -> String,
>(doors: (P, A), ratings: Seq<RatingView>, t: SummaryTexts) -> bool {
    ratings.len() > 0 ==> {
        &&& t.agents.len() == agents_in(ratings).len()
        &&& forall|i: int|
            0 <= i < t.agents.len() ==> texts_hold(
                doors,
                stats_of(ratings, agents_in(ratings)[i]),
                #[trigger] t.agents[i],
            )
        &&& may_show_average(doors.1, all_points(ratings), ratings.len(), 2, t.average)
        &&& may_show_share(doors.0, all_points(ratings), all_max_points(ratings), t.share)
    }
}

/// Every judge that is listed has a judgement.
pub proof fn judges_have_scores(ratings: Seq<RatingView>, agent: Seq<char>)
    ensures
        forall|i: int|
            0 <= i < stats_of(ratings, agent).judges.len() ==> stats_of(
                ratings,
                agent,
            ).scores.dom().contains(#[trigger] stats_of(ratings, agent).judges[i]),
        strictly_sorted(stats_of(ratings, agent).judges),
    decreases ratings.len(),
{
    if ratings.len() > 0 {
        judges_have_scores(ratings.drop_last(), agent);
        let before = stats_of(ratings.drop_last(), agent);
        let r = ratings.last();
        if r.agent_model == agent {
            with_text_adds_in_order(before.judges, r.judge_model);
            let s = stats_of(ratings, agent);
            assert forall|i: int| 0 <= i < s.judges.len() implies s.scores.dom().contains(
                #[trigger] s.judges[i],
            ) by {
                assert(s.judges.contains(s.judges[i]));
                if s.judges[i] != r.judge_model {
                    assert(before.judges.contains(s.judges[i]));
                }
            }
        }
    }
}

/// The agents of a summary stand in order, each once, and are those judged.
pub proof fn agents_are_listed_once(ratings: Seq<RatingView>)
    ensures
        strictly_sorted(agents_in(ratings)),
        forall|a: Seq<char>| #[trigger]
            agents_in(ratings).contains(a) <==> exists|i: int|
                0 <= i < ratings.len() && (#[trigger] ratings[i]).agent_model == a,
    decreases ratings.len(),
{
    if ratings.len() > 0 {
        let init = ratings.drop_last();
        agents_are_listed_once(init);
        with_text_adds_in_order(agents_in(init), ratings.last().agent_model);
        assert forall|a: Seq<char>| #[trigger]
            agents_in(ratings).contains(a) <==> exists|i: int|
                0 <= i < ratings.len() && (#[trigger] ratings[i]).agent_model == a by {
            if agents_in(init).contains(a) {
                let i = choose|i: int|
                    0 <= i < init.len() && (#[trigger] init[i]).agent_model == a;
                assert(ratings[i] == init[i]);
            }
            if a == ratings.last().agent_model {
                assert(ratings[ratings.len() - 1].agent_model == a);
            }
            if exists|i: int| 0 <= i < ratings.len() && (#[trigger] ratings[i]).agent_model == a {
                let i = choose|i: int|
                    0 <= i < ratings.len() && (#[trigger] ratings[i]).agent_model == a;
                if i < init.len() {
                    assert(init[i] == ratings[i]);
                    assert(agents_in(init).contains(a));
                }
            }
        }
    }
}

fn append_agent<P: Fn(u128, u128) -> String, A: Fn(u128, usize, usize) -> String>(
    s: &mut String,
    agent: &str,
    ratings: &Vec<JudgeRating>,
    percent: &P,
    average: &A,
) -> (r: Ghost<AgentTexts>)
    requires
        forall|p: u128, m: u128| call_requires(*percent, (p, m)),
        forall|p: u128, n: usize, d: usize| call_requires(*average, (p, n, d)),
    ensures
        texts_hold((*percent, *average), stats_of(ratings.deep_view(), agent@), r@),
        final(s)@ == old(s)@ + agent_section(agent@, stats_of(ratings.deep_view(), agent@), r@),
{
    let stats = gather_stats(ratings, agent);
    let ghost v = stats@;
    proof {
        judges_have_scores(ratings.deep_view(), agent@);
    }
    let ghost before = s@;
    let ghost head = "\n### "@ + agent@ + "\n"@;
    s.append("\n### ");
    s.append(agent);
    s.append("\n");
    assert(s@ =~= before + head);
    let ghost mut shares: Seq<Seq<char>> = Seq::empty();
    let n: usize = stats.judge_count();
    let mut i: usize = 0;
    assert(before + head + Seq::<char>::empty() =~= before + head);
    while i < n
        invariant
            i <= n,
            n == v.judges.len(),
            v == stats@,
            forall|j: int|
                0 <= j < v.judges.len() ==> v.scores.dom().contains(#[trigger] v.judges[j]),
            forall|p: u128, m: u128| call_requires(*percent, (p, m)),
            shares.len() == i,
            forall|j: int|
                0 <= j < i ==> may_show_share(
                    *percent,
                    v.scores[v.judges[j]].0 as nat,
                    v.scores[v.judges[j]].1 as nat,
                    #[trigger] shares[j],
                ),
            s@ == before + head + judge_lines(v, shares, i as nat),
        decreases n - i,
    {
        let judge = stats.judge_at(i);
        let (points, max_points) = match stats.score_of(judge.as_str()) {
            Some(score) => score,
            None => (0, 0),
        };
        assert(v.scores.dom().contains(v.judges[i as int]));
        let share = percent(points as u128, max_points as u128);
        let ghost known = shares;
        let ghost lines = judge_lines(v, known, i as nat);
        let ghost line = judge_line(v.judges[i as int], (points, max_points), share@);
        proof {
            shares = known.push(share@);
            assert(may_show_share(*percent, points as nat, max_points as nat, share@));
            same_lines(v, known, share@, i as nat);
            assert forall|j: int| 0 <= j < i + 1 implies may_show_share(
                *percent,
                v.scores[v.judges[j]].0 as nat,
                v.scores[v.judges[j]].1 as nat,
                #[trigger] shares[j],
            ) by {
                if j < i {
                    assert(shares[j] == known[j]);
                }
            }
        }
        s.append("- ");
        s.append(judge.as_str());
        s.append(": ");
        s.append(decimal_of(points as u64).as_str());
        s.append("/");
        s.append(decimal_of(max_points as u64).as_str());
        s.append(" (");
        s.append(share.as_str());
        s.append("%)\n");
        assert(s@ =~= before + head + (lines + line));
        i += 1;
    }
    let ghost lines = judge_lines(v, shares, n as nat);
    let shown = average(stats.total_points(), n, 1);
    let share = percent(stats.total_points(), stats.total_max_points());
    let ghost t = AgentTexts { shares, average: shown@, share: share@ };
    assert(may_show_average(*average, v.total_points, v.judges.len(), 1, shown@));
    assert(may_show_share(*percent, v.total_points, v.total_max_points, share@));
    s.append("- **Average**: ");
    s.append(shown.as_str());
    s.append("/");
    s.append(decimal_of(stats.max_points_per_judge() as u64).as_str());
    s.append(" (");
    s.append(share.as_str());
    s.append("%)\n");
    assert(s@ =~= before + agent_section(agent@, v, t));
    Ghost(t)
}

proof fn same_lines(s: StatsView, shares: Seq<Seq<char>>, more: Seq<char>, n: nat)
    requires
        n <= shares.len(),
    ensures
        judge_lines(s, shares.push(more), n) == judge_lines(s, shares, n),
    decreases n,
{
    if n > 0 {
        same_lines(s, shares, more, (n - 1) as nat);
    }
}

proof fn same_sections(
    ratings: Seq<RatingView>,
    texts: Seq<AgentTexts>,
    more: AgentTexts,
    n: nat,
)
    requires
        n <= texts.len(),
    ensures
        agent_sections(ratings, texts.push(more), n) == agent_sections(ratings, texts, n),
    decreases n,
{
    if n > 0 {
        same_sections(ratings, texts, more, (n - 1) as nat);
    }
}

fn append_errors(s: &mut String, errors: &Vec<FailureRecord>)
    ensures
        final(s)@ == old(s)@ + errors_part(errors@),
{
    let ghost before = s@;
    if errors.len() > 0 {
        s.append(format_errors_section(errors).as_str());
    } else {
        assert(before + Seq::<char>::empty() =~= before);
    }
}

/// What stands in a summary behind its head.
fn append_body<P: Fn(u128, u128) -> String, A: Fn(u128, usize, usize) -> String>(
    s: &mut String,
    ratings: &Vec<JudgeRating>,
    errors: &Vec<FailureRecord>,
    percent: &P,
    average: &A,
) -> (r: Ghost<SummaryTexts>)
    requires
        forall|p: u128, m: u128| call_requires(*percent, (p, m)),
        forall|p: u128, n: usize, d: usize| call_requires(*average, (p, n, d)),
    ensures
        summary_texts_hold((*percent, *average), ratings.deep_view(), r@),
        final(s)@ == old(s)@ + summary_body(ratings.deep_view(), errors@, r@),
{
    let ghost all = ratings.deep_view();
    let ghost before = s@;
    if ratings.len() == 0 {
        s.append("\n## No Ratings\n\nNo successful ratings were collected.\n");
        append_errors(s, errors);
        let ghost t = SummaryTexts {
            agents: Seq::empty(),
            average: Seq::empty(),
            share: Seq::empty(),
        };
        assert(s@ =~= before + summary_body(all, errors@, t));
        return Ghost(t);
    }
    let agents = list_agents(ratings);
    let ghost names = agents.deep_view();
    let ghost mut texts: Seq<AgentTexts> = Seq::empty();
    let ghost head = "\n## Per-Agent Results\n"@;
    s.append("\n## Per-Agent Results\n");
    let mut i: usize = 0;
    assert(s@ =~= before + head + Seq::<char>::empty());
    while i < agents.len()
        invariant
            i <= agents.len(),
            all == ratings.deep_view(),
            names == agents.deep_view(),
            names == agents_in(all),
            forall|p: u128, m: u128| call_requires(*percent, (p, m)),
            forall|p: u128, n: usize, d: usize| call_requires(*average, (p, n, d)),
            texts.len() == i,
            forall|j: int|
                0 <= j < i ==> texts_hold(
                    (*percent, *average),
                    stats_of(all, names[j]),
                    #[trigger] texts[j],
                ),
            s@ == before + head + agent_sections(all, texts, i as nat),
        decreases agents.len() - i,
    {
        let ghost known = texts;
        let ghost sections = agent_sections(all, known, i as nat);
        let t = append_agent(s, agents[i].as_str(), ratings, percent, average);
        proof {
            assert(names[i as int] == agents@[i as int]@);
            texts = known.push(t@);
            same_sections(all, known, t@, i as nat);
            let section = agent_section(names[i as int], stats_of(all, names[i as int]), t@);
            assert(before + head + sections + section =~= before + head + (sections + section));
            assert forall|j: int| 0 <= j < i + 1 implies texts_hold(
                (*percent, *average),
                stats_of(all, names[j]),
                #[trigger] texts[j],
            ) by {
                if j < i {
                    assert(texts[j] == known[j]);
                }
            }
        }
        i += 1;
    }
    let ghost sections = agent_sections(all, texts, names.len());
    let (points, max_points) = sum_points(ratings);
    let shown = average(points, ratings.len(), 2);
    let share = percent(points, max_points);
    let ghost t = SummaryTexts { agents: texts, average: shown@, share: share@ };
    assert(may_show_average(*average, all_points(all), all.len(), 2, shown@));
    assert(may_show_share(*percent, all_points(all), all_max_points(all), share@));
    assert(all[0] == ratings@[0]@);
    s.append("\n## Global Average\n\n**All Judges \u{d7} All Agents**: ");
    s.append(shown.as_str());
    s.append("/");
    s.append(decimal_of(ratings[0].max_points as u64).as_str());
    s.append(" (");
    s.append(share.as_str());
    s.append("%)\n");
    assert(s@ =~= before + head + sections + global_section(shown@, all[0].max_points, share@));
    append_errors(s, errors);
    assert(s@ =~= before + summary_body(all, errors@, t));
    Ghost(t)
}

/// What a summary is of.
pub struct SummaryHead<'a> {
    pub test_name: &'a str,
    pub agent_instruction_hash: &'a str,
    pub judge_prompt_hash: &'a str,
}

/// The head of a summary.
pub open spec fn head_text(h: SummaryHead<'_>, at: Timestamp) -> Seq<char> {
    summary_head(h.test_name@, h.agent_instruction_hash@, h.judge_prompt_hash@, at)
}

/// The summary of judgements and failures at an instant.
pub fn generate_summary_at<P: Fn(u128, u128) -> String, A: Fn(u128, usize, usize) -> String>(
    ratings: &Vec<JudgeRating>,
    errors: &Vec<FailureRecord>,
    head: &SummaryHead<'_>,
    at: Timestamp,
    percent: P,
    average: A,
) -> (r: String)
    requires
        is_instant(at),
        forall|p: u128, m: u128| call_requires(percent, (p, m)),
        forall|p: u128, n: usize, d: usize| call_requires(average, (p, n, d)),
    ensures
        exists|t: SummaryTexts| #[trigger]
            summary_texts_hold((percent, average), ratings.deep_view(), t) && r@ == head_text(
                *head,
                at,
            ) + summary_body(ratings.deep_view(), errors@, t),
{
    let mut s = "# Rating Summary\n\n**Test**: ".to_string();
    s.append(head.test_name);
    s.append("\n**Agent Instruction Hash**: ");
    s.append(head.agent_instruction_hash);
    s.append("\n**Judge Prompt Hash**: ");
    s.append(head.judge_prompt_hash);
    s.append("\n**Timestamp**: ");
    s.append(format_utc(at).as_str());
    s.append("\n");
    assert(s@ == head_text(*head, at));
    let t = append_body(&mut s, ratings, errors, &percent, &average);
    assert(summary_texts_hold((percent, average), ratings.deep_view(), t@));
    s
}

/// The summary of judgements and failures, as of now. `percent` writes the share
/// of points in how many there are, with one decimal; `average` writes a sum over
/// a number of judgements, with as many decimals as it is told.
pub fn generate_summary<P: Fn(u128, u128) -> String, A: Fn(u128, usize, usize) -> String>(
    ratings: &Vec<JudgeRating>,
    errors: &Vec<FailureRecord>,
    head: &SummaryHead<'_>,
    percent: P,
    average: A,
) -> (r: String)
    requires
        forall|p: u128, m: u128| call_requires(percent, (p, m)),
        forall|p: u128, n: usize, d: usize| call_requires(average, (p, n, d)),
    ensures
        exists|at: Timestamp, t: SummaryTexts|
            #![trigger head_text(*head, at), summary_texts_hold(
                (percent, average),
                ratings.deep_view(),
                t,
            )]
            is_instant(at) && summary_texts_hold((percent, average), ratings.deep_view(), t) && r@
                == head_text(*head, at) + summary_body(ratings.deep_view(), errors@, t),
{
    let at = utc_now();
    generate_summary_at(ratings, errors, head, at, percent, average)
}

/// A stage of work is shown by its name.
pub proof fn stages_are_shown_by_name()
    ensures
        stage_name(FailureStage::TestParsing) == "Test Parsing"@,
        stage_name(FailureStage::AgentInvocation) == "Agent Invocation"@,
        stage_name(FailureStage::AgentTimeout) == "Agent Timeout"@,
        stage_name(FailureStage::JudgeInvocation) == "Judge Invocation"@,
        stage_name(FailureStage::JudgeTimeout) == "Judge Timeout"@,
        stage_name(FailureStage::JudgeParsing) == "Judge Parsing"@,
        stage_name(FailureStage::ReportWriting) == "Report Writing"@,
{
}

/// One more rating adds its points to those of its agent, and to no other's.
pub proof fn points_add_up(ratings: Seq<RatingView>, r: RatingView, agent: Seq<char>)
    ensures
        r.agent_model == agent ==> {
            let before = stats_of(ratings, agent);
            let after = stats_of(ratings.push(r), agent);
            &&& after.total_points == before.total_points + r.points
            &&& after.total_max_points == before.total_max_points + r.max_points
            &&& after.scores.dom().contains(r.judge_model)
            &&& after.scores[r.judge_model] == (r.points, r.max_points)
            &&& forall|j: Seq<char>|
                j != r.judge_model && before.scores.dom().contains(j)
                    ==> #[trigger] after.scores.dom().contains(j) && after.scores[j]
                    == before.scores[j]
        },
        r.agent_model != agent ==> stats_of(ratings.push(r), agent) == stats_of(ratings, agent),
        stats_of(Seq::empty(), agent).total_points == 0,
        stats_of(Seq::empty(), agent).total_max_points == 0,
        stats_of(Seq::empty(), agent).judges.len() == 0,
        all_points(ratings.push(r)) == all_points(ratings) + r.points,
        all_max_points(ratings.push(r)) == all_max_points(ratings) + r.max_points,
        all_points(Seq::empty()) == 0,
        all_max_points(Seq::empty()) == 0,
{
    assert(ratings.push(r).drop_last() =~= ratings);
}

/// The score of a judge for an agent is the last that the judge gave the agent. Gives which
/// rating that is.
pub proof fn scores_are_the_last_given(
    ratings: Seq<RatingView>,
    agent: Seq<char>,
    judge: Seq<char>,
) -> (i: int)
    ensures
        stats_of(ratings, agent).scores.dom().contains(judge) ==> {
            &&& 0 <= i < ratings.len()
            &&& ratings[i].agent_model == agent
            &&& ratings[i].judge_model == judge
            &&& stats_of(ratings, agent).scores[judge] == (
                ratings[i].points,
                ratings[i].max_points,
            )
            &&& forall|j: int|
                i < j < ratings.len() ==> (#[trigger] ratings[j]).agent_model != agent
                    || ratings[j].judge_model != judge
        },
        !stats_of(ratings, agent).scores.dom().contains(judge) ==> forall|j: int|
            0 <= j < ratings.len() ==> (#[trigger] ratings[j]).agent_model != agent
                || ratings[j].judge_model != judge,
    decreases ratings.len(),
{
    if ratings.len() == 0 {
        0
    } else if ratings.last().agent_model == agent && ratings.last().judge_model == judge {
        ratings.len() - 1
    } else {
        let rest = ratings.drop_last();
        let i = scores_are_the_last_given(rest, agent, judge);
        assert(forall|j: int| 0 <= j < rest.len() ==> rest[j] == #[trigger] ratings[j]);
        i
    }
}

/// Errors are listed in their order, each with its stage, its model where one was at work,
/// and what it says.
pub proof fn errors_are_listed_in_order(errors: Seq<FailureRecord>, f: FailureRecord)
    ensures
        failure_lines(Seq::empty()).len() == 0,
        failure_lines(errors.push(f)) == failure_lines(errors) + failure_line(f),
        f.model is None ==> failure_line(f) == seq!['-', ' '] + stage_name(f.stage) + seq![
            ' ',
            '-',
            ' ',
        ] + f.message@ + seq!['\n'],
        f.model matches Some(m) ==> failure_line(f) == seq!['-', ' '] + stage_name(f.stage) + (
        seq![':', ' '] + m@ + seq![' ', '-', ' ']) + f.message@ + seq!['\n'],
{
    reveal_strlit("- ");
    reveal_strlit(" - ");
    reveal_strlit(": ");
    reveal_strlit("\n");
    assert("- "@ =~= seq!['-', ' ']);
    assert(" - "@ =~= seq![' ', '-', ' ']);
    assert(": "@ =~= seq![':', ' ']);
    assert("\n"@ =~= seq!['\n']);
    assert(errors.push(f).drop_last() =~= errors);
}

/// A judge's line shows the judge, its points and how many there are, in this order.
pub proof fn judges_are_shown_with_their_points(
    judge: Seq<char>,
    score: (u32, u32),
    share: Seq<char>,
)
    ensures
        judge_line(judge, score, share) == seq!['-', ' '] + judge + seq![':', ' '] + decimal(
            score.0 as nat,
        ) + seq!['/'] + decimal(score.1 as nat) + seq![' ', '('] + share + seq!['%', ')', '\n'],
{
    reveal_strlit("- ");
    reveal_strlit(": ");
    reveal_strlit("/");
    reveal_strlit(" (");
    reveal_strlit("%)\n");
    assert("- "@ =~= seq!['-', ' ']);
    assert(": "@ =~= seq![':', ' ']);
    assert("/"@ =~= seq!['/']);
    assert(" ("@ =~= seq![' ', '(']);
    assert("%)\n"@ =~= seq!['%', ')', '\n']);
}

/// How many points there are for an agent is what its first judge says.
pub proof fn the_first_judge_says_how_many_there_are(s: StatsView)
    ensures
        s.judges.len() == 0 ==> first_max(s) == 0,
        s.judges.len() > 0 && s.scores.dom().contains(s.judges[0]) ==> s.scores[s.judges[0]].1
            == first_max(s),
{
}

/// Without ratings a summary says so; with them it shows every agent and the whole; errors
/// are shown last, where there are any.
pub proof fn summaries_show_what_there_is(
    ratings: Seq<RatingView>,
    errors: Seq<FailureRecord>,
    t: SummaryTexts,
)
    ensures
        errors.len() > 0 ==> has_suffix(summary_body(ratings, errors, t), failure_lines(errors)),
        ratings.len() == 0 ==> has_prefix(
            summary_body(ratings, errors, t),
            "\n## No Ratings\n\nNo successful ratings were collected.\n"@,
        ),
        ratings.len() > 0 ==> has_prefix(
            summary_body(ratings, errors, t),
            "\n## Per-Agent Results\n"@,
        ),
        ratings.len() > 0 && errors.len() == 0 ==> has_suffix(
            summary_body(ratings, errors, t),
            global_section(t.average, ratings[0].max_points, t.share),
        ),
{
    let body = summary_body(ratings, errors, t);
    let lines = failure_lines(errors);
    if errors.len() > 0 {
        assert(body.subrange(body.len() - lines.len(), body.len() as int) =~= lines);
    }
    if ratings.len() == 0 {
        let front = "\n## No Ratings\n\nNo successful ratings were collected.\n"@;
        assert(body.subrange(0, front.len() as int) =~= front);
    } else {
        let front = "\n## Per-Agent Results\n"@;
        assert(body.subrange(0, front.len() as int) =~= front);
        let whole = global_section(t.average, ratings[0].max_points, t.share);
        if errors.len() == 0 {
            assert(body.subrange(body.len() - whole.len(), body.len() as int) =~= whole);
        }
    }
}

/// An agent's section shows the agent, its judges in order with their own shares, and behind
/// them the average.
pub proof fn sections_show_agent_judges_and_average(
    agent: Seq<char>,
    s: StatsView,
    t: AgentTexts,
    n: nat,
)
    requires
        n > 0,
    ensures
        has_prefix(agent_section(agent, s, t), "\n### "@ + agent + "\n"@),
        contains_text(agent_section(agent, s, t), judge_lines(s, t.shares, s.judges.len())),
        contains_text(
            agent_section(agent, s, t),
            "- **Average**: "@ + t.average + "/"@ + decimal(first_max(s) as nat),
        ),
        judge_lines(s, t.shares, n) == judge_lines(s, t.shares, (n - 1) as nat) + judge_line(
            s.judges[n - 1],
            s.scores[s.judges[n - 1]],
            t.shares[n - 1],
        ),
        judge_lines(s, t.shares, 0).len() == 0,
{
    let text = agent_section(agent, s, t);
    let front = "\n### "@ + agent + "\n"@;
    let lines = judge_lines(s, t.shares, s.judges.len());
    let average = "- **Average**: "@ + t.average + "/"@ + decimal(first_max(s) as nat);
    let k = front.len() as int;
    let m = k + lines.len();
    assert(text.subrange(0, k) =~= front);
    assert(text.subrange(k, m) =~= lines);
    assert(occurs_at(text, lines, k));
    assert(text.subrange(m, m + average.len()) =~= average);
    assert(occurs_at(text, average, m));
}

/// The share of an agent is of all its points, its average is of its points over its judges
/// with one digit, and a judge's share is of the judge's own points.
pub proof fn shares_are_of_their_points<
    P: Fn(u128, u128) -> String,
    A: Fn(u128, usize, usize) -> String,
>(doors: (P, A), s: StatsView, t: AgentTexts, i: int)
    requires
        texts_hold(doors, s, t),
        0 <= i < s.judges.len(),
    ensures
        may_show_share(
            doors.0,
            s.scores[s.judges[i]].0 as nat,
            s.scores[s.judges[i]].1 as nat,
            t.shares[i],
        ),
        may_show_share(doors.0, s.total_points, s.total_max_points, t.share),
        may_show_average(doors.1, s.total_points, s.judges.len(), 1, t.average),
{
}

/// The whole is shown over all ratings: the average with two digits over their number, the
/// share over all points that there are.
pub proof fn the_whole_is_over_all_ratings<
    P: Fn(u128, u128) -> String,
    A: Fn(u128, usize, usize) -> String,
>(doors: (P, A), ratings: Seq<RatingView>, t: SummaryTexts, i: int)
    requires
        summary_texts_hold(doors, ratings, t),
        ratings.len() > 0,
        0 <= i < agents_in(ratings).len(),
    ensures
        may_show_average(doors.1, all_points(ratings), ratings.len(), 2, t.average),
        may_show_share(doors.0, all_points(ratings), all_max_points(ratings), t.share),
        t.agents.len() == agents_in(ratings).len(),
        texts_hold(doors, stats_of(ratings, agents_in(ratings)[i]), t.agents[i]),
{
}

/// Agents are shown in their order, each with its own ratings.
pub proof fn agents_are_shown_in_order(ratings: Seq<RatingView>, texts: Seq<AgentTexts>, n: nat)
    requires
        n > 0,
    ensures
        agent_sections(ratings, texts, 0).len() == 0,
        agent_sections(ratings, texts, n) == agent_sections(ratings, texts, (n - 1) as nat)
            + agent_section(
            agents_in(ratings)[n - 1],
            stats_of(ratings, agents_in(ratings)[n - 1]),
            texts[n - 1],
        ),
{
}

/// A summary begins with the test, the hash of the instruction, the hash of the prompt and
/// the time, in this order.
pub proof fn summaries_begin_with_their_facts(
    test_name: Seq<char>,
    instruction_hash: Seq<char>,
    prompt_hash: Seq<char>,
    at: Timestamp,
)
    ensures
        contains_text(
            summary_head(test_name, instruction_hash, prompt_hash, at),
            "**Test**: "@ + test_name,
        ),
        contains_text(
            summary_head(test_name, instruction_hash, prompt_hash, at),
            "\n**Agent Instruction Hash**: "@ + instruction_hash,
        ),
        contains_text(
            summary_head(test_name, instruction_hash, prompt_hash, at),
            "\n**Judge Prompt Hash**: "@ + prompt_hash,
        ),
        contains_text(
            summary_head(test_name, instruction_hash, prompt_hash, at),
            "\n**Timestamp**: "@ + utc_text(at),
        ),
{
    reveal_strlit("# Rating Summary\n\n**Test**: ");
    reveal_strlit("**Test**: ");
    let head = summary_head(test_name, instruction_hash, prompt_hash, at);
    let a = "**Test**: "@ + test_name;
    let n = 18int;
    assert(head.subrange(n, n + a.len()) =~= a);
    assert(occurs_at(head, a, n));
    let b = "\n**Agent Instruction Hash**: "@ + instruction_hash;
    let m = n + a.len();
    assert(head.subrange(m, m + b.len()) =~= b);
    assert(occurs_at(head, b, m));
    let c = "\n**Judge Prompt Hash**: "@ + prompt_hash;
    let k = m + b.len();
    assert(head.subrange(k, k + c.len()) =~= c);
    assert(occurs_at(head, c, k));
    let d = "\n**Timestamp**: "@ + utc_text(at);
    let l = k + c.len();
    assert(head.subrange(l, l + d.len()) =~= d);
    assert(occurs_at(head, d, l));
}

/// A share and an average are shown of their own numbers: where the outside always shows the
/// same for these, that is shown.
pub proof fn numbers_are_shown_as_they_are<
    P: Fn(u128, u128) -> String,
    A: Fn(u128, usize, usize) -> String,
>(
    doors: (P, A),
    points: u128,
    max_points: u128,
    count: usize,
    decimals: usize,
    share: Seq<char>,
    average: Seq<char>,
    text: Seq<char>,
)
    requires
        forall|s: String| #[trigger]
            call_ensures(doors.0, (points, max_points), s) ==> s@ == share,
        forall|s: String| #[trigger]
            call_ensures(doors.1, (points, count, decimals), s) ==> s@ == average,
    ensures
        may_show_share(doors.0, points as nat, max_points as nat, text) ==> text == share,
        may_show_average(doors.1, points as nat, count as nat, decimals as nat, text) ==> text
            == average,
{
}

} // verus!
