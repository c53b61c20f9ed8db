//! Scoring a list of names against a query.
use vstd::prelude::*;
use crate::text::{lowercase, to_lowercase};
use crate::score::Score;
use crate::fuzzy::{fuzzy_outcome, calculate_fuzzy_score};
use crate::rank::{RankKey, keys_wf};
use crate::results::ResultView;

verus! {

/// The score of `name` for `query`: both are lowercased, then scored with
/// `calculate_fuzzy_score` (which lowercases once more).
pub open spec fn name_score(query: Seq<char>, name: Seq<char>) -> Option<Score> {
    fuzzy_outcome(lowercase(query), lowercase(name))
}

/// Every name of `names` can be scored for `query`.
pub open spec fn all_scored(query: Seq<char>, names: Seq<Seq<char>>) -> bool {
    forall|i: int| 0 <= i < names.len() ==> (#[trigger] name_score(query, names[i])) is Some
}

/// The ranking keys of `names` for `query`.
pub open spec fn keys_for(query: Seq<char>, names: Seq<Seq<char>>) -> Seq<RankKey> {
    Seq::new(
        names.len(),
        |i: int| RankKey { front: false, score: name_score(query, names[i])->0 },
    )
}

/// Which keys have a score above zero.
pub open spec fn positive_mask(keys: Seq<RankKey>) -> Seq<bool> {
    Seq::new(keys.len(), |i: int| keys[i].score.positive())
}

/// `v` lists at most `limit` results, each scoring above zero, none scoring
/// above one listed before it.
pub open spec fn best_first(v: Seq<ResultView>, limit: nat) -> bool {
    &&& v.len() <= limit
    &&& forall|k: int| 0 <= k < v.len() ==> (#[trigger] v[k]).score.positive()
    &&& forall|j: int, k: int|
        0 <= j < k < v.len() ==> !(#[trigger] v[j]).score.below((#[trigger] v[k]).score)
}

pub open spec fn string_views(v: Seq<String>) -> Seq<Seq<char>> {
    v.map_values(|s: String| s@)
}

/// Scores every name of `names` for `query`: the keys and which of them are
/// above zero, or `None` where some name cannot be scored.
pub fn score_names(query: &str, names: &Vec<String>) -> (r: Option<(Vec<RankKey>, Vec<bool>)>)
    ensures
        match r {
            Some((keys, mask)) => {
                &&& all_scored(query@, string_views(names@))
                &&& keys@ == keys_for(query@, string_views(names@))
                &&& mask@ == positive_mask(keys@)
                &&& keys_wf(keys@)
            },
            None => !all_scored(query@, string_views(names@)),
        },
{
    let query_lower = to_lowercase(query);
    let ghost views = string_views(names@);
    let mut keys: Vec<RankKey> = Vec::new();
    let mut mask: Vec<bool> = Vec::new();
    let mut i: usize = 0;
    while i < names.len()
        invariant
            i <= names@.len(),
            views == string_views(names@),
            query_lower@ == lowercase(query@),
            keys@.len() == i,
            mask@.len() == i,
            forall|j: int| 0 <= j < i ==> (#[trigger] name_score(query@, views[j])) is Some,
            forall|j: int| 0 <= j < i ==> #[trigger] keys@[j] == (RankKey {
                front: false,
                score: name_score(query@, views[j])->0,
            }),
            forall|j: int| 0 <= j < i ==> #[trigger] mask@[j] == keys@[j].score.positive(),
            keys_wf(keys@),
        decreases names@.len() - i,
    {
        let name_lower = to_lowercase(names[i].as_str());
        assert(views[i as int] == names@[i as int]@);
        match calculate_fuzzy_score(query_lower.as_str(), name_lower.as_str()) {
            Some(s) => {
                let pos = s.is_positive();
                keys.push(RankKey { front: false, score: s });
                mask.push(pos);
            },
            None => {
                assert(name_score(query@, views[i as int]) is None);
                return None;
            },
        }
        i = i + 1;
    }
    assert(keys@ =~= keys_for(query@, views));
    assert(mask@ =~= positive_mask(keys@));
    Some((keys, mask))
}

} // verus!
