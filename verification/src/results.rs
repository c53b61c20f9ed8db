//! Search results as the launcher shows them.
use vstd::prelude::*;
use crate::score::Score;

verus! {

/// Kind of a search result.
#[derive(Clone, Copy, Debug, PartialEq, Eq, Structural)]
pub enum SearchResultCategory {
    Application,
    File,
    Calculator,
    Action,
    Conversion,
    Timezone,
    WebSearch,
}

/// One entry of the result list.
#[derive(Clone, Debug)]
pub struct SearchResult {
    pub id: String,
    pub name: String,
    pub path: String,
    pub category: SearchResultCategory,
    pub icon: Option<String>,
    pub score: Score,
    pub metadata: Option<String>,
}

/// The result list of one query.
#[derive(Clone, Debug)]
pub struct SearchResponse {
    pub results: Vec<SearchResult>,
    pub query_time_ms: u64,
    pub total_results: usize,
}

/// A search result with its texts as character sequences.
pub struct ResultView {
    pub id: Seq<char>,
    pub name: Seq<char>,
    pub path: Seq<char>,
    pub category: SearchResultCategory,
    pub icon: Option<Seq<char>>,
    pub score: Score,
    pub metadata: Option<Seq<char>>,
}

pub open spec fn opt_view(o: Option<String>) -> Option<Seq<char>> {
    match o {
        Some(s) => Some(s@),
        None => None,
    }
}

impl View for SearchResult {
    type V = ResultView;

    open spec fn view(&self) -> ResultView {
        ResultView {
            id: self.id@,
            name: self.name@,
            path: self.path@,
            category: self.category,
            icon: opt_view(self.icon),
            score: self.score,
            metadata: opt_view(self.metadata),
        }
    }
}

/// The views of a list of results.
pub open spec fn result_views(v: Seq<SearchResult>) -> Seq<ResultView> {
    v.map_values(|r: SearchResult| r@)
}

/// Copies an optional text.
pub fn clone_opt(o: &Option<String>) -> (r: Option<String>)
    ensures
        opt_view(r) == opt_view(*o),
{
    match o {
        Some(s) => Some(s.clone()),
        None => None,
    }
}

/// A copy of `r`.
pub fn copy_result(r: &SearchResult) -> (c: SearchResult)
    ensures
        c@ == r@,
{
    SearchResult {
        id: r.id.clone(),
        name: r.name.clone(),
        path: r.path.clone(),
        category: r.category,
        icon: clone_opt(&r.icon),
        score: r.score,
        metadata: clone_opt(&r.metadata),
    }
}

impl SearchResponse {
    /// The response listing `results`, found in `query_time_ms`.
    pub fn new(results: Vec<SearchResult>, query_time_ms: u64) -> (r: SearchResponse)
        ensures
            r.results@ == results@,
            r.query_time_ms == query_time_ms,
            r.total_results == results@.len(),
    {
        let total_results = results.len();
        SearchResponse { results, query_time_ms, total_results }
    }
}

} // verus!
