//! Installed applications: their entries, the search over them, and the
//! bookkeeping of the scan that collects them.
use vstd::prelude::*;
use crate::score::Score;
use crate::results::{SearchResult, SearchResultCategory, ResultView, result_views};
use crate::rank::{top_marked, top_of, lemma_top_of, keys_wf, lemma_top_shape, precedes};
use crate::scoring::{all_scored, keys_for, positive_mask, score_names, string_views, best_first};

verus! {

/// Where an application was found.
#[derive(Clone, Copy, Debug, PartialEq, Eq, Structural)]
pub enum AppType {
    StartMenu,
    Drive,
}

/// An application that the launcher can start.
#[derive(Clone, Debug)]
pub struct AppEntry {
    pub name: String,
    pub path: String,
    pub app_type: AppType,
}

/// The names of `apps`.
pub open spec fn app_names(apps: Seq<AppEntry>) -> Seq<Seq<char>> {
    apps.map_values(|a: AppEntry| a.name@)
}

/// Most applications that one query lists.
pub const MAX_APP_RESULTS: usize = 20;

/// The result that shows application `app` with score `score`.
pub open spec fn app_result_view(app: AppEntry, score: Score) -> ResultView {
    ResultView {
        id: app.path@,
        name: app.name@,
        path: app.path@,
        category: SearchResultCategory::Application,
        icon: None,
        score,
        metadata: None,
    }
}

/// The results that list the applications matching `query`.
pub open spec fn app_results_spec(query: Seq<char>, apps: Seq<AppEntry>) -> Seq<ResultView> {
    let keys = keys_for(query, app_names(apps));
    top_of(keys, positive_mask(keys), MAX_APP_RESULTS as nat).map_values(
        |i: usize| app_result_view(apps[i as int], keys[i as int].score),
    )
}

/// The applications whose names match `query`: those scoring above zero,
/// best first (equal scores in list order), at most `MAX_APP_RESULTS`. `None`
/// where some name cannot be scored (see `calculate_fuzzy_score`).
pub fn search_applications(query: &str, apps: &[AppEntry]) -> (r: Option<Vec<SearchResult>>)
    ensures
        match r {
            None => !all_scored(query@, app_names(apps@)),
            Some(v) => {
                &&& all_scored(query@, app_names(apps@))
                &&& result_views(v@) == app_results_spec(query@, apps@)
                &&& best_first(result_views(v@), MAX_APP_RESULTS as nat)
                &&& forall|k: int| 0 <= k < v@.len() ==> (#[trigger] v@[k]).score.wf()
            },
        },
{
    let mut names: Vec<String> = Vec::new();
    let mut i: usize = 0;
    while i < apps.len()
        invariant
            i <= apps@.len(),
            names@.len() == i,
            forall|j: int| 0 <= j < i ==> #[trigger] names@[j]@ == apps@[j].name@,
        decreases apps@.len() - i,
    {
        let nm = apps[i].name.clone();
        assert(nm@ == apps@[i as int].name@);
        names.push(nm);
        i = i + 1;
    }
    assert(string_views(names@) =~= app_names(apps@));
    let (keys, mask) = match score_names(query, &names) {
        Some(km) => km,
        None => {
            return None;
        },
    };
    let sel = top_marked(&keys, &mask, MAX_APP_RESULTS);
    proof {
        lemma_top_of(keys@, mask@, MAX_APP_RESULTS as nat, sel@);
    }
    let mut out: Vec<SearchResult> = Vec::new();
    let mut k: usize = 0;
    while k < sel.len()
        invariant
            k <= sel@.len(),
            forall|q: int| 0 <= q < sel@.len() ==> #[trigger] sel@[q] < apps@.len(),
            keys@.len() == apps@.len(),
            keys_wf(keys@),
            out@.len() == k,
            forall|q: int| 0 <= q < k ==> (#[trigger] out@[q]).score.wf(),
            forall|q: int| 0 <= q < k ==> #[trigger] out@[q]@ == app_result_view(
                apps@[sel@[q] as int],
                keys@[sel@[q] as int].score,
            ),
        decreases sel@.len() - k,
    {
        let idx = sel[k];
        let app = &apps[idx];
        let res = SearchResult {
            id: app.path.clone(),
            name: app.name.clone(),
            path: app.path.clone(),
            category: SearchResultCategory::Application,
            icon: None,
            score: keys[idx].score,
            metadata: None,
        };
        assert(res@ == app_result_view(apps@[idx as int], keys@[idx as int].score));
        out.push(res);
        k = k + 1;
    }
    assert(result_views(out@) =~= sel@.map_values(
        |i: usize| app_result_view(apps@[i as int], keys@[i as int].score),
    ));
    proof {
        lemma_top_shape(keys@, mask@, MAX_APP_RESULTS as nat, sel@);
        let ov = result_views(out@);
        assert forall|j: int, k: int| 0 <= j < k < ov.len() implies !(#[trigger] ov[j]).score.below(
            (#[trigger] ov[k]).score,
        ) by {
            assert(!precedes(keys@[sel@[k] as int], keys@[sel@[j] as int]));
        }
        assert forall|k: int| 0 <= k < ov.len() implies (#[trigger] ov[k]).score.positive() by {
            assert(mask@[sel@[k] as int]);
        }
    }
    Some(out)
}

} // verus!
