//! The fuzzy query engine: how well a query matches a text, and the order in
//! which the matching candidates are offered.

use crate::rank::{
    is_ranking, keys_of, lemma_ranking_distinct, lemma_ranking_exists, lists, rank, ranking, Score,
};
use crate::text::{chars_of, is_blank, string_of, string_views, trim, trim_chars};
use vstd::prelude::*;
use vstd::string::*;

verus! {

/// The longest text, in characters, that is handed to the matcher. A text
/// beyond it matches nothing.
pub const MATCH_LIMIT: usize = 1_000_000;

/// The score that the skim matcher (version 2, case ignored) gives to the
/// text `hay` for the query `query`; none where the query does not match.
pub uninterp spec fn skim_score(hay: Seq<char>, query: Seq<char>) -> Option<i64>;

/// `SkimMatcherV2::default().ignore_case().fuzzy_match(hay, query)` of the
/// crate `fuzzy_matcher`: the score of the best alignment of the query in the
/// text, or `None` where the characters of the query do not occur in the
/// text in their order. The lengths are bounded so that its 32-bit scores
/// cannot overflow.
#[verifier::external_body]
fn skim_match(hay: &str, query: &str) -> (r: Option<i64>)
    requires
        hay@.len() <= MATCH_LIMIT,
        query@.len() <= MATCH_LIMIT,
    ensures
        r == skim_score(hay@, query@),
{
    let matcher = fuzzy_matcher::skim::SkimMatcherV2::default().ignore_case();
    fuzzy_matcher::FuzzyMatcher::fuzzy_match(&matcher, hay, query)
}

/// The score of `hay` for `query`: that of the matcher where both texts are
/// within `MATCH_LIMIT`, none beyond it.
pub open spec fn match_score(hay: Seq<char>, query: Seq<char>) -> Option<i64> {
    if hay.len() <= MATCH_LIMIT && query.len() <= MATCH_LIMIT {
        skim_score(hay, query)
    } else {
        None
    }
}

/// Scores the text `hay` against `query`, case ignored. `None` means that
/// the query does not match.
pub fn fuzzy_score(hay: &str, query: &str) -> (r: Option<i64>)
    ensures
        r == match_score(hay@, query@),
{
    if hay.unicode_len() <= MATCH_LIMIT && query.unicode_len() <= MATCH_LIMIT {
        skim_match(hay, query)
    } else {
        None
    }
}

/// The positions `0, 1, .. n - 1`.
pub open spec fn identity_order(n: nat) -> Seq<usize> {
    Seq::new(n, |i: int| i as usize)
}

/// The positions `0, 1, .. n - 1`.
pub fn all_positions(n: usize) -> (out: Vec<usize>)
    ensures
        out@ == identity_order(n as nat),
{
    let mut out: Vec<usize> = Vec::new();
    let mut i: usize = 0;
    while i < n
        invariant
            i <= n,
            out@ == identity_order(i as nat),
        decreases n - i,
    {
        out.push(i);
        i += 1;
    }
    out
}

/// The order in which the candidates with the given scores are offered: the
/// candidates that matched, the best score first; candidates with the same
/// score stay in the order in which they came.
pub fn rank_matches(scores: &Vec<Option<i64>>) -> (order: Vec<usize>)
    ensures
        is_ranking::<Score>(order@, scores@),
        order@ == ranking::<Score>(scores@),
{
    let mut keys: Vec<Option<Score>> = Vec::new();
    let mut i: usize = 0;
    while i < scores.len()
        invariant
            i <= scores.len(),
            keys.len() == i,
            forall|k: int|
                0 <= k < i ==> #[trigger] keys@[k] == match scores@[k] {
                    Some(s) => Some(Score { value: s }),
                    None => None,
                },
        decreases scores.len() - i,
    {
        keys.push(
            match scores[i] {
                Some(s) => Some(Score { value: s }),
                None => None,
            },
        );
        i += 1;
    }
    assert(keys_of(keys@) =~= scores@);
    rank(&keys)
}

/// The scores of the texts `hays` for the query `query`.
pub open spec fn scores_of(hays: Seq<Seq<char>>, query: Seq<char>) -> Seq<Option<i64>> {
    Seq::new(hays.len(), |i: int| match_score(hays[i], query))
}

/// The order in which candidates are shown for a filter text: all of them in
/// their own order where the filter is blank, else those that the trimmed
/// filter matches, best first.
pub open spec fn filtered(filter: Seq<char>, hays: Seq<Seq<char>>) -> Seq<usize> {
    if is_blank(filter) {
        identity_order(hays.len())
    } else {
        ranking::<Score>(scores_of(hays, trim(filter)))
    }
}

/// Filters candidates, each given by the text that stands for it: with a
/// blank filter all of them stay in their order; else those that the trimmed
/// filter matches, the best score first.
pub fn filter_rows(rows: &Vec<String>, filter: &str) -> (order: Vec<usize>)
    ensures
        order@ == filtered(filter@, string_views(rows@)),
        forall|k: int| 0 <= k < order.len() ==> order[k] < rows.len(),
{
    let q = trim_chars(&chars_of(filter));
    if q.len() == 0 {
        return all_positions(rows.len());
    }
    let query = string_of(&q);
    let mut scores: Vec<Option<i64>> = Vec::new();
    let ghost wanted = scores_of(string_views(rows@), trim(filter@));
    let mut i: usize = 0;
    while i < rows.len()
        invariant
            i <= rows.len(),
            query@ == trim(filter@),
            wanted == scores_of(string_views(rows@), trim(filter@)),
            scores@ == wanted.take(i as int),
        decreases rows.len() - i,
    {
        scores.push(fuzzy_score(rows[i].as_str(), query.as_str()));
        assert(scores@ == wanted.take(i + 1));
        i += 1;
    }
    assert(wanted.take(rows.len() as int) == wanted);
    let order = rank_matches(&scores);
    assert forall|k: int| 0 <= k < order.len() implies order[k] < rows.len() by {
        assert(scores@[order[k] as int] is Some);
    }
    order
}

/// With a blank filter every candidate stays, in the order in which the
/// candidates came: filtering what is shown once more with no query gives
/// the same list.
pub proof fn lemma_blank_filter_keeps_order(filter: Seq<char>, hays: Seq<Seq<char>>)
    requires
        hays.len() <= usize::MAX,
        is_blank(filter),
    ensures
        filtered(filter, hays).len() == hays.len(),
        forall|i: int| 0 <= i < hays.len() ==> filtered(filter, hays)[i] == i,
{
}

/// What a filter shows is a list of places in the candidates, none twice;
/// with a filter that is not blank it holds exactly the candidates that the
/// filter matches.
pub proof fn lemma_filtered_matches(filter: Seq<char>, hays: Seq<Seq<char>>)
    requires
        hays.len() <= usize::MAX,
    ensures
        forall|k: int|
            0 <= k < filtered(filter, hays).len() ==> 0 <= #[trigger] filtered(filter, hays)[k]
                < hays.len(),
        forall|a: int, b: int|
            0 <= a < b < filtered(filter, hays).len() ==> filtered(filter, hays)[a] != filtered(
                filter,
                hays,
            )[b],
        !is_blank(filter) ==> forall|i: int|
            0 <= i < hays.len() ==> (lists(filtered(filter, hays), i) <==> match_score(
                hays[i],
                trim(filter),
            ) is Some),
{
    if !is_blank(filter) {
        let keys = scores_of(hays, trim(filter));
        lemma_ranking_exists::<Score>(keys);
        let order = ranking::<Score>(keys);
        lemma_ranking_distinct::<Score>(order, keys);
        assert forall|i: int| 0 <= i < hays.len() implies (lists(order, i) <==> match_score(
            hays[i],
            trim(filter),
        ) is Some) by {
            assert(keys[i] == match_score(hays[i], trim(filter)));
            if lists(order, i) {
                let k = choose|k: int| 0 <= k < order.len() && order[k] == i;
                assert(keys[order[k] as int] is Some);
            }
        }
        assert forall|k: int| 0 <= k < order.len() implies 0 <= #[trigger] order[k]
            < hays.len() by {
            assert(keys[order[k] as int] is Some);
        }
    }
}

} // verus!
