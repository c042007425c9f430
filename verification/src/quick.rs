//! Quick launch and quick resume: a query picks a target or a session
//! without the picker, where one candidate is clearly the best.

use crate::fuzzy::{fuzzy_score, rank_matches, scores_of};
use crate::projects::{target_views, ProjectTarget, TargetView};
use crate::rank::{ranking, Score};
use crate::sessions::{session_views, SessionItem};
use crate::text::{chars_of, is_blank, push_str, string_of, trim, trim_chars};
use crate::tui::{session_hay, session_hays};
use vstd::prelude::*;

verus! {

/// By how much the best score must lead the second for the best candidate
/// to be taken without asking.
pub const CONFIDENT_MARGIN: i64 = 25;

/// How many targets are offered where the user is asked.
pub const TARGET_OPTIONS: usize = 12;

/// How many sessions are offered where the user is asked.
pub const SESSION_OPTIONS: usize = 20;

/// What a query ends in: one candidate, or candidates to ask the user about.
#[derive(Debug, Clone)]
pub enum Choice<T> {
    Chosen(T),
    Ask(Vec<T>),
}

/// Why a query gave nothing.
#[derive(Debug, Clone, PartialEq, Eq)]
pub enum QueryError {
    /// The query for a project was empty.
    EmptyProjectQuery,
    /// No project matched the query.
    NoProjectMatch(String),
    /// The query for a session was empty.
    EmptyResumeQuery,
    /// No session matched the query.
    NoSessionMatch(String),
}

impl QueryError {
    /// The error as a sentence.
    pub fn message(&self) -> (r: String)
        ensures
            r@ == match *self {
                QueryError::EmptyProjectQuery => "empty project query"@,
                QueryError::NoProjectMatch(q) => "no project matches for: "@ + q@,
                QueryError::EmptyResumeQuery => "empty resume query"@,
                QueryError::NoSessionMatch(q) => "no session matches for: "@ + q@,
            },
    {
        match self {
            QueryError::EmptyProjectQuery => string_of(&chars_of("empty project query")),
            QueryError::NoProjectMatch(q) => {
                let mut out = chars_of("no project matches for: ");
                push_str(&mut out, q.as_str());
                string_of(&out)
            },
            QueryError::EmptyResumeQuery => string_of(&chars_of("empty resume query")),
            QueryError::NoSessionMatch(q) => {
                let mut out = chars_of("no session matches for: ");
                push_str(&mut out, q.as_str());
                string_of(&out)
            },
        }
    }
}

/// Whether the best of the scores, which come best first, is taken without
/// asking: it is the only one, or it leads the second by the margin.
pub open spec fn is_confident(scores: Seq<i64>) -> bool {
    scores.len() == 1 || (scores.len() >= 2 && scores[0] >= scores[1] + CONFIDENT_MARGIN)
}

/// Whether the best of the scores, which come best first, is taken without
/// asking.
pub fn confident_pick(scores: &Vec<i64>) -> (r: bool)
    ensures
        r == is_confident(scores@),
{
    if scores.len() == 1 {
        true
    } else if scores.len() >= 2 {
        scores[0] as i128 >= scores[1] as i128 + CONFIDENT_MARGIN as i128
    } else {
        false
    }
}

/// The first `max` of `items`, or all where there are fewer.
pub open spec fn first_of<T>(items: Seq<T>, max: int) -> Seq<T> {
    if items.len() <= max {
        items
    } else {
        items.take(max)
    }
}

/// The scores of the candidates.
pub open spec fn scores_in<T>(scored: Seq<(i64, T)>) -> Seq<i64> {
    scored.map_values(|p: (i64, T)| p.0)
}

/// The candidates without their scores.
pub open spec fn items_in<T>(scored: Seq<(i64, T)>) -> Seq<T> {
    scored.map_values(|p: (i64, T)| p.1)
}

fn scores_from<T>(scored: &Vec<(i64, T)>) -> (scores: Vec<i64>)
    ensures
        scores@ == scores_in(scored@),
{
    let mut scores: Vec<i64> = Vec::new();
    let mut i: usize = 0;
    while i < scored.len()
        invariant
            i <= scored.len(),
            scores@ == scores_in(scored@).take(i as int),
        decreases scored.len() - i,
    {
        scores.push(scored[i].0);
        assert(scores@ =~= scores_in(scored@).take(i + 1));
        i += 1;
    }
    assert(scores_in(scored@).take(scored.len() as int) =~= scores_in(scored@));
    scores
}

/// Chooses among targets that matched a query, best first, each with its
/// score. The best is chosen where it is the only one or leads the second
/// by 25; else the first 12 are to be offered to the user.
pub fn choose_target(scored: Vec<(i64, ProjectTarget)>) -> (r: Choice<ProjectTarget>)
    requires
        scored.len() > 0,
    ensures
        is_confident(scores_in(scored@)) ==> r == Choice::Chosen(scored[0].1),
        !is_confident(scores_in(scored@)) ==> (r matches Choice::Ask(options) && options@
            == first_of(items_in(scored@), TARGET_OPTIONS as int)),
{
    let scores = scores_from(&scored);
    if confident_pick(&scores) {
        return Choice::Chosen(scored[0].1.duplicate());
    }
    let n: usize = if scored.len() <= TARGET_OPTIONS {
        scored.len()
    } else {
        TARGET_OPTIONS
    };
    let ghost wanted = first_of(items_in(scored@), TARGET_OPTIONS as int);
    let mut options: Vec<ProjectTarget> = Vec::new();
    let mut i: usize = 0;
    while i < n
        invariant
            i <= n <= scored.len(),
            wanted == first_of(items_in(scored@), TARGET_OPTIONS as int),
            wanted.len() == n,
            options@ == wanted.take(i as int),
        decreases n - i,
    {
        options.push(scored[i].1.duplicate());
        assert(options@ =~= wanted.take(i + 1));
        i += 1;
    }
    assert(wanted.take(n as int) =~= wanted);
    Choice::Ask(options)
}

/// Chooses among sessions that matched a query, best first, each with its
/// score. The best is chosen where it is the only one or leads the second
/// by 25; else the first 20 are to be offered to the user.
pub fn choose_session(scored: Vec<(i64, SessionItem)>) -> (r: Choice<SessionItem>)
    requires
        scored.len() > 0,
    ensures
        is_confident(scores_in(scored@)) ==> r == Choice::Chosen(scored[0].1),
        !is_confident(scores_in(scored@)) ==> (r matches Choice::Ask(options) && options@
            == first_of(items_in(scored@), SESSION_OPTIONS as int)),
{
    let scores = scores_from(&scored);
    if confident_pick(&scores) {
        return Choice::Chosen(scored[0].1.duplicate());
    }
    let n: usize = if scored.len() <= SESSION_OPTIONS {
        scored.len()
    } else {
        SESSION_OPTIONS
    };
    let ghost wanted = first_of(items_in(scored@), SESSION_OPTIONS as int);
    let mut options: Vec<SessionItem> = Vec::new();
    let mut i: usize = 0;
    while i < n
        invariant
            i <= n <= scored.len(),
            wanted == first_of(items_in(scored@), SESSION_OPTIONS as int),
            wanted.len() == n,
            options@ == wanted.take(i as int),
        decreases n - i,
    {
        options.push(scored[i].1.duplicate());
        assert(options@ =~= wanted.take(i + 1));
        i += 1;
    }
    assert(wanted.take(n as int) =~= wanted);
    Choice::Ask(options)
}

/// The text by which a target is matched in a quick launch: its label and
/// its path.
pub open spec fn target_hay(t: TargetView) -> Seq<char> {
    t.label + seq![' '] + t.path
}

/// The texts by which the targets are matched in a quick launch.
pub open spec fn quick_target_hays(targets: Seq<TargetView>) -> Seq<Seq<char>> {
    Seq::new(targets.len(), |i: int| target_hay(targets[i]))
}

/// The candidates that `order` lists, each with its score.
pub open spec fn scored_in<T>(items: Seq<T>, scores: Seq<Option<i64>>, order: Seq<usize>) -> Seq<
    (i64, T),
> {
    Seq::new(order.len(), |k: int| (scores[order[k] as int]->0, items[order[k] as int]))
}

/// The targets that match `query`, best first, each with its score.
pub open spec fn matching_targets(targets: Seq<ProjectTarget>, query: Seq<char>) -> Seq<
    (i64, ProjectTarget),
> {
    let scores = scores_of(quick_target_hays(target_views(targets)), trim(query));
    scored_in(targets, scores, ranking::<Score>(scores))
}

/// The sessions that match `query`, best first, each with its score.
pub open spec fn matching_sessions(items: Seq<SessionItem>, query: Seq<char>) -> Seq<
    (i64, SessionItem),
> {
    let scores = scores_of(session_hays(session_views(items)), trim(query));
    scored_in(items, scores, ranking::<Score>(scores))
}

fn score_targets(targets: &Vec<ProjectTarget>, query: &str) -> (scores: Vec<Option<i64>>)
    ensures
        scores@ == scores_of(quick_target_hays(target_views(targets@)), query@),
{
    let ghost wanted = scores_of(quick_target_hays(target_views(targets@)), query@);
    let mut scores: Vec<Option<i64>> = Vec::new();
    let mut i: usize = 0;
    while i < targets.len()
        invariant
            i <= targets.len(),
            wanted == scores_of(quick_target_hays(target_views(targets@)), query@),
            scores@ == wanted.take(i as int),
        decreases targets.len() - i,
    {
        let t = &targets[i];
        let mut hay = chars_of(t.label.as_str());
        hay.push(' ');
        push_str(&mut hay, t.path.as_str());
        assert(target_views(targets@)[i as int] == t@);
        assert(hay@ =~= target_hay(t@));
        scores.push(fuzzy_score(string_of(&hay).as_str(), query));
        assert(scores@ =~= wanted.take(i + 1));
        i += 1;
    }
    assert(wanted.take(targets.len() as int) =~= wanted);
    scores
}

fn score_sessions(items: &Vec<SessionItem>, query: &str) -> (scores: Vec<Option<i64>>)
    ensures
        scores@ == scores_of(session_hays(session_views(items@)), query@),
{
    let ghost wanted = scores_of(session_hays(session_views(items@)), query@);
    let mut scores: Vec<Option<i64>> = Vec::new();
    let mut i: usize = 0;
    while i < items.len()
        invariant
            i <= items.len(),
            wanted == scores_of(session_hays(session_views(items@)), query@),
            scores@ == wanted.take(i as int),
        decreases items.len() - i,
    {
        let s = &items[i];
        let mut hay = chars_of(s.id.as_str());
        hay.push(' ');
        push_str(&mut hay, s.cwd.as_str());
        hay.push(' ');
        match &s.summary {
            Some(t) => {
                push_str(&mut hay, t.as_str());
            },
            None => {},
        }
        assert(session_views(items@)[i as int] == s@);
        assert(hay@ =~= session_hay(s@));
        scores.push(fuzzy_score(string_of(&hay).as_str(), query));
        assert(scores@ =~= wanted.take(i + 1));
        i += 1;
    }
    assert(wanted.take(items.len() as int) =~= wanted);
    scores
}

/// Picks a target by a query. An empty query and a query that matches no
/// target are refused; else the targets that match are ranked by their
/// scores and the choice is made by `choose_target`.
pub fn launch_by_query(targets: &Vec<ProjectTarget>, query: &str) -> (r: Result<
    Choice<ProjectTarget>,
    QueryError,
>)
    ensures
        is_blank(query@) ==> r == Err::<Choice<ProjectTarget>, QueryError>(
            QueryError::EmptyProjectQuery,
        ),
        !is_blank(query@) && matching_targets(targets@, query@).len() == 0 ==> (r matches Err(
            QueryError::NoProjectMatch(q),
        ) && q@ == trim(query@)),
        !is_blank(query@) && matching_targets(targets@, query@).len() > 0 ==> ({
            let scored = matching_targets(targets@, query@);
            &&& is_confident(scores_in(scored)) ==> r == Ok::<Choice<ProjectTarget>, QueryError>(
                Choice::Chosen(scored[0].1),
            )
            &&& !is_confident(scores_in(scored)) ==> (r matches Ok(Choice::Ask(options))
                && options@ == first_of(items_in(scored), TARGET_OPTIONS as int))
        }),
{
    let q = trim_chars(&chars_of(query));
    if q.len() == 0 {
        return Err(QueryError::EmptyProjectQuery);
    }
    let wanted_query = string_of(&q);
    let scores = score_targets(targets, wanted_query.as_str());
    let order = rank_matches(&scores);
    let ghost wanted = matching_targets(targets@, query@);
    let mut scored: Vec<(i64, ProjectTarget)> = Vec::new();
    let mut k: usize = 0;
    while k < order.len()
        invariant
            k <= order.len(),
            order@ == ranking::<Score>(scores@),
            crate::rank::is_ranking::<Score>(order@, scores@),
            scores.len() == targets.len(),
            wanted == scored_in(targets@, scores@, order@),
            scored@ == wanted.take(k as int),
        decreases order.len() - k,
    {
        assert(scores@[order@[k as int] as int] is Some);
        let at = order[k];
        let score = match scores[at] {
            Some(s) => s,
            None => 0,
        };
        scored.push((score, targets[at].duplicate()));
        assert(scored@ =~= wanted.take(k + 1));
        k += 1;
    }
    assert(wanted.take(order.len() as int) =~= wanted);
    if scored.len() == 0 {
        return Err(QueryError::NoProjectMatch(wanted_query));
    }
    Ok(choose_target(scored))
}

/// Picks a session by a query. An empty query and a query that matches no
/// session are refused; else the sessions that match are ranked by their
/// scores and the choice is made by `choose_session`.
pub fn resume_by_query(items: &Vec<SessionItem>, query: &str) -> (r: Result<
    Choice<SessionItem>,
    QueryError,
>)
    ensures
        is_blank(query@) ==> r == Err::<Choice<SessionItem>, QueryError>(
            QueryError::EmptyResumeQuery,
        ),
        !is_blank(query@) && matching_sessions(items@, query@).len() == 0 ==> (r matches Err(
            QueryError::NoSessionMatch(q),
        ) && q@ == trim(query@)),
        !is_blank(query@) && matching_sessions(items@, query@).len() > 0 ==> ({
            let scored = matching_sessions(items@, query@);
            &&& is_confident(scores_in(scored)) ==> r == Ok::<Choice<SessionItem>, QueryError>(
                Choice::Chosen(scored[0].1),
            )
            &&& !is_confident(scores_in(scored)) ==> (r matches Ok(Choice::Ask(options))
                && options@ == first_of(items_in(scored), SESSION_OPTIONS as int))
        }),
{
    let q = trim_chars(&chars_of(query));
    if q.len() == 0 {
        return Err(QueryError::EmptyResumeQuery);
    }
    let wanted_query = string_of(&q);
    let scores = score_sessions(items, wanted_query.as_str());
    let order = rank_matches(&scores);
    let ghost wanted = matching_sessions(items@, query@);
    let mut scored: Vec<(i64, SessionItem)> = Vec::new();
    let mut k: usize = 0;
    while k < order.len()
        invariant
            k <= order.len(),
            order@ == ranking::<Score>(scores@),
            crate::rank::is_ranking::<Score>(order@, scores@),
            scores.len() == items.len(),
            wanted == scored_in(items@, scores@, order@),
            scored@ == wanted.take(k as int),
        decreases order.len() - k,
    {
        assert(scores@[order@[k as int] as int] is Some);
        let at = order[k];
        let score = match scores[at] {
            Some(s) => s,
            None => 0,
        };
        scored.push((score, items[at].duplicate()));
        assert(scored@ =~= wanted.take(k + 1));
        k += 1;
    }
    assert(wanted.take(order.len() as int) =~= wanted);
    if scored.len() == 0 {
        return Err(QueryError::NoSessionMatch(wanted_query));
    }
    Ok(choose_session(scored))
}

} // verus!
