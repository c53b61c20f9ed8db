//! The whole search: applications, files, the calculator's answer and quick
//! actions, merged into one ranked list.
use vstd::prelude::*;
use crate::text::{trim, trim_text};
use crate::results::{
    SearchResult, SearchResultCategory, SearchResponse, ResultView, result_views, copy_result,
};
use crate::rank::{
    RankKey, keys_wf, top_marked, top_of, lemma_top_of, precedes, lemma_top_shape,
    lemma_count_all_marked,
};
use crate::scoring::all_scored;
use crate::apps::{AppEntry, app_names, app_results_spec, search_applications};
use crate::files::{FileEntry, file_names, file_results_ok, search_files};
use crate::actions::{action_names, action_results_spec, search_actions};

verus! {

/// How a result is ranked in a merged list: by score, and, when
/// `actions_first` holds, quick actions before everything else.
pub open spec fn result_key(r: ResultView, actions_first: bool) -> RankKey {
    RankKey { front: actions_first && r.category == SearchResultCategory::Action, score: r.score }
}

pub open spec fn all_marked(n: nat) -> Seq<bool> {
    Seq::new(n, |i: int| true)
}

/// `list` in ranking order: quick actions first when `actions_first` holds,
/// then by score from high to low, equal ones in list order.
pub open spec fn ranked_list(list: Seq<ResultView>, actions_first: bool) -> Seq<ResultView> {
    let keys = list.map_values(|r: ResultView| result_key(r, actions_first));
    top_of(keys, all_marked(list.len()), list.len()).map_values(|i: usize| list[i as int])
}

/// Result `a` ranks before result `b` whatever their places in the list.
pub open spec fn outranks(a: ResultView, b: ResultView, actions_first: bool) -> bool {
    precedes(result_key(a, actions_first), result_key(b, actions_first))
}

/// No result of `v` is outranked by one that comes after it.
pub open spec fn in_rank_order(v: Seq<ResultView>, actions_first: bool) -> bool {
    forall|j: int, k: int|
        0 <= j < k < v.len() ==> !outranks(#[trigger] v[k], #[trigger] v[j], actions_first)
}

/// `sel` sends each place of `v` to a distinct place of `list` that holds the
/// same result.
pub open spec fn index_map(v: Seq<ResultView>, list: Seq<ResultView>, sel: Seq<usize>) -> bool {
    &&& sel.len() == v.len()
    &&& forall|k: int| 0 <= k < sel.len() ==> #[trigger] sel[k] < list.len() && v[k] == list[sel[k] as int]
    &&& forall|j: int, k: int| 0 <= j < k < sel.len() ==> #[trigger] sel[j] != #[trigger] sel[k]
}

/// `v` holds the results of `list`, each as often as there, in some order.
pub open spec fn rearranges(v: Seq<ResultView>, list: Seq<ResultView>) -> bool {
    &&& v.len() == list.len()
    &&& exists|sel: Seq<usize>| #[trigger] index_map(v, list, sel)
}

/// Orders `list` by score from high to low, with quick actions first when
/// `actions_first` holds; equal ones keep their order.
pub fn rank_results(list: Vec<SearchResult>, actions_first: bool) -> (v: Vec<SearchResult>)
    requires
        forall|j: int| 0 <= j < list@.len() ==> (#[trigger] list@[j]).score.wf(),
    ensures
        result_views(v@) == ranked_list(result_views(list@), actions_first),
        rearranges(result_views(v@), result_views(list@)),
        in_rank_order(result_views(v@), actions_first),
        forall|j: int| 0 <= j < v@.len() ==> (#[trigger] v@[j]).score.wf(),
{
    let n = list.len();
    let mut keys: Vec<RankKey> = Vec::new();
    let mut mask: Vec<bool> = Vec::new();
    let mut i: usize = 0;
    while i < n
        invariant
            n == list@.len(),
            i <= n,
            keys@.len() == i,
            mask@.len() == i,
            forall|j: int| 0 <= j < i ==> #[trigger] keys@[j] == result_key(list@[j]@, actions_first),
            forall|j: int| 0 <= j < i ==> #[trigger] mask@[j],
            forall|j: int| 0 <= j < n ==> (#[trigger] list@[j]).score.wf(),
        decreases n - i,
    {
        let r = &list[i];
        let front = actions_first && r.category == SearchResultCategory::Action;
        keys.push(RankKey { front, score: r.score });
        mask.push(true);
        i = i + 1;
    }
    let ghost views = result_views(list@);
    let ghost lkeys = views.map_values(|r: ResultView| result_key(r, actions_first));
    assert(keys@ =~= lkeys);
    assert(mask@ =~= all_marked(n as nat));
    let sel = top_marked(&keys, &mask, n);
    proof {
        lemma_top_of(keys@, mask@, n as nat, sel@);
    }
    let mut out: Vec<SearchResult> = Vec::new();
    let mut k: usize = 0;
    while k < sel.len()
        invariant
            k <= sel@.len(),
            forall|q: int| 0 <= q < sel@.len() ==> #[trigger] sel@[q] < n,
            n == list@.len(),
            forall|j: int| 0 <= j < n ==> (#[trigger] list@[j]).score.wf(),
            out@.len() == k,
            forall|q: int| 0 <= q < k ==> #[trigger] out@[q]@ == list@[sel@[q] as int]@,
            forall|q: int| 0 <= q < k ==> (#[trigger] out@[q]).score.wf(),
        decreases sel@.len() - k,
    {
        out.push(copy_result(&list[sel[k]]));
        k = k + 1;
    }
    assert(result_views(out@) =~= ranked_list(views, actions_first));
    proof {
        lemma_top_shape(keys@, mask@, n as nat, sel@);
        lemma_count_all_marked(mask@, n as int);
        let ov = result_views(out@);
        assert(index_map(ov, views, sel@));
        assert forall|j: int, k: int| 0 <= j < k < ov.len() implies !outranks(
            #[trigger] ov[k],
            #[trigger] ov[j],
            actions_first,
        ) by {
            assert(!precedes(keys@[sel@[k] as int], keys@[sel@[j] as int]));
        }
    }
    out
}

pub open spec fn opt_list(o: Option<ResultView>) -> Seq<ResultView> {
    match o {
        Some(r) => seq![r],
        None => seq![],
    }
}

/// Some list of results of the sources could not be scored.
pub open spec fn search_fails(
    query: Seq<char>,
    apps: Option<Seq<AppEntry>>,
    files: Option<Seq<FileEntry>>,
    startup_enabled: bool,
) -> bool {
    ||| (apps matches Some(a) && !all_scored(query, app_names(a)))
    ||| (files matches Some(f) && !all_scored(query, file_names(f)))
    ||| !all_scored(query, action_names(startup_enabled))
}

pub open spec fn opt_slice<T>(o: Option<&[T]>) -> Option<Seq<T>> {
    match o {
        Some(s) => Some(s@),
        None => None,
    }
}

pub open spec fn opt_result(o: Option<SearchResult>) -> Option<ResultView> {
    match o {
        Some(r) => Some(r@),
        None => None,
    }
}

/// The results for `query`: nothing for a blank query; otherwise the matching
/// applications (when the application index is loaded), files (when the file
/// index is loaded), the calculator's answer `calculation`, and the matching
/// quick actions, ranked with quick actions first and then by score. `None`
/// where some name cannot be scored (see `calculate_fuzzy_score`).
pub fn search(
    query: &str,
    apps: Option<&[AppEntry]>,
    files: Option<&[FileEntry]>,
    calculation: Option<SearchResult>,
    startup_enabled: bool,
) -> (r: Option<Vec<SearchResult>>)
    requires
        calculation matches Some(c) ==> c.score.wf(),
    ensures
        trim(query@).len() == 0 ==> (r matches Some(v) && v@.len() == 0),
        r matches Some(v) ==> in_rank_order(result_views(v@), true),
        trim(query@).len() > 0 ==> match r {
            None => search_fails(query@, opt_slice(apps), opt_slice(files), startup_enabled),
            Some(v) => {
                &&& !search_fails(query@, opt_slice(apps), opt_slice(files), startup_enabled)
                &&& exists|found_files: Seq<ResultView>|
                    {
                        &&& match files {
                            Some(f) => file_results_ok(query@, f@, found_files),
                            None => found_files.len() == 0,
                        }
                        &&& result_views(v@) == ranked_list(
                            match apps {
                                Some(a) => app_results_spec(query@, a@),
                                None => seq![],
                            } + found_files + opt_list(opt_result(calculation))
                                + action_results_spec(query@, startup_enabled),
                            true,
                        )
                    }
            },
        },
{
    let t = trim_text(query);
    if t.as_str().is_empty() {
        return Some(Vec::new());
    }
    let mut all: Vec<SearchResult> = Vec::new();
    let ghost mut app_part: Seq<ResultView> = seq![];
    match apps {
        Some(a) => {
            match search_applications(query, a) {
                Some(v) => {
                    proof {
                        app_part = result_views(v@);
                    }
                    all = v;
                },
                None => {
                    return None;
                },
            }
        },
        None => {},
    }
    let ghost mut file_part: Seq<ResultView> = seq![];
    match files {
        Some(f) => {
            match search_files(query, f) {
                Some(v) => {
                    proof {
                        file_part = result_views(v@);
                    }
                    let mut v = v;
                    all.append(&mut v);
                },
                None => {
                    return None;
                },
            }
        },
        None => {},
    }
    let ghost calc_part = opt_list(opt_result(calculation));
    match calculation {
        Some(c) => {
            all.push(c);
        },
        None => {},
    }
    let ghost action_part;
    match search_actions(query, startup_enabled) {
        Some(v) => {
            proof {
                action_part = result_views(v@);
            }
            let mut v = v;
            all.append(&mut v);
        },
        None => {
            return None;
        },
    }
    let ghost list = app_part + file_part + calc_part + action_part;
    assert(result_views(all@) =~= list);
    Some(rank_results(all, true))
}

/// The response to `query`: for a blank query no results, counted 0 and
/// taking 0 ms; otherwise `results`, their number, and the time `elapsed`
/// that the search took.
pub fn search_response(query: &str, results: Vec<SearchResult>, elapsed: u64) -> (r: SearchResponse)
    ensures
        trim(query@).len() == 0 ==> r.results@.len() == 0 && r.total_results == 0 && r.query_time_ms
            == 0,
        trim(query@).len() > 0 ==> r.results@ == results@ && r.total_results == results@.len()
            && r.query_time_ms == elapsed,
{
    let t = trim_text(query);
    if t.as_str().is_empty() {
        SearchResponse::new(Vec::new(), 0)
    } else {
        SearchResponse::new(results, elapsed)
    }
}

/// The indexes that searches go through, each filled once at start-up.
pub struct SearchIndex {
    pub apps: Option<Vec<AppEntry>>,
    pub files: Option<Vec<FileEntry>>,
}

impl SearchIndex {
    /// An index with nothing loaded yet.
    pub fn new() -> (s: SearchIndex)
        ensures
            s.apps is None,
            s.files is None,
    {
        SearchIndex { apps: None, files: None }
    }

    /// Stores the application and file indexes built at start-up. Each is
    /// stored only the first time; later ones are dropped.
    pub fn init_cache(&mut self, apps: Vec<AppEntry>, files: Vec<FileEntry>)
        ensures
            final(self).apps == (if old(self).apps is Some {
                old(self).apps
            } else {
                Some(apps)
            }),
            final(self).files == (if old(self).files is Some {
                old(self).files
            } else {
                Some(files)
            }),
    {
        if self.apps.is_none() {
            self.apps = Some(apps);
        }
        if self.files.is_none() {
            self.files = Some(files);
        }
    }
}

} // verus!
