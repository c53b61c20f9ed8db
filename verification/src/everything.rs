//! File search through the Everything service: loading its library, turning
//! its answers into results, and the directory-listing search used when it is
//! not installed.
use vstd::prelude::*;
use crate::score::{Score, make_score, exact_score, lemma_exact_score};
use crate::text::{
    after_last, after_last_chars, chars_of, concat, find, find_chars, lowercase, string_of,
    to_lowercase,
};
use crate::results::{SearchResult, SearchResultCategory, ResultView, result_views};
use crate::rank::marked_indices;

verus! {

// ---------------------------------------------------------------------------
// Loading the library
// ---------------------------------------------------------------------------

/// Where the library is looked for, in order.
pub open spec fn everything_dll_paths_spec() -> Seq<Seq<char>> {
    seq![
        "Everything64.dll"@,
        "C:\\Program Files\\Voidtools\\Everything\\Everything64.dll"@,
        "C:\\Program Files (x86)\\Voidtools\\Everything\\Everything64.dll"@,
    ]
}

/// The places where the library is looked for.
pub fn everything_dll_paths() -> (v: Vec<&'static str>)
    ensures
        v@.map_values(|s: &'static str| s@) == everything_dll_paths_spec(),
{
    let v = vec![
        "Everything64.dll",
        "C:\\Program Files\\Voidtools\\Everything\\Everything64.dll",
        "C:\\Program Files (x86)\\Voidtools\\Everything\\Everything64.dll",
    ];
    assert(v@.map_values(|s: &'static str| s@) =~= everything_dll_paths_spec());
    v
}

/// The library functions that a search needs, all of which must resolve.
pub open spec fn everything_symbols_spec() -> Seq<Seq<char>> {
    seq![
        "Everything_SetSearchW"@,
        "Everything_QueryW"@,
        "Everything_GetNumResults"@,
        "Everything_GetResultFilePathW"@,
        "Everything_GetResultFileNameW"@,
        "Everything_GetResultExtensionW"@,
    ]
}

/// The names of the library functions to resolve.
pub fn everything_symbols() -> (v: Vec<&'static str>)
    ensures
        v@.map_values(|s: &'static str| s@) == everything_symbols_spec(),
{
    let v = vec![
        "Everything_SetSearchW",
        "Everything_QueryW",
        "Everything_GetNumResults",
        "Everything_GetResultFilePathW",
        "Everything_GetResultFileNameW",
        "Everything_GetResultExtensionW",
    ];
    assert(v@.map_values(|s: &'static str| s@) =~= everything_symbols_spec());
    v
}

/// A step of loading the library.
#[derive(Clone, Copy, Debug, PartialEq, Eq, Structural)]
pub enum LoadStep {
    /// See whether the `i`-th place exists.
    CheckPath(usize),
    /// Load the library, having found the `i`-th place.
    LoadLibrary(usize),
    /// Resolve all of `everything_symbols`.
    ResolveSymbols,
    /// Done; whether the library is usable.
    Finished(bool),
}

/// The step after trying the `i`-th place without success.
pub open spec fn after_place(i: int) -> LoadStep {
    if i + 1 < 3 {
        LoadStep::CheckPath((i + 1) as usize)
    } else {
        LoadStep::Finished(false)
    }
}

/// The next step, given whether the current one succeeded.
pub open spec fn load_next_spec(step: LoadStep, ok: bool) -> LoadStep {
    match step {
        LoadStep::CheckPath(i) => if ok {
            LoadStep::LoadLibrary(i)
        } else {
            after_place(i as int)
        },
        LoadStep::LoadLibrary(i) => if ok {
            LoadStep::ResolveSymbols
        } else {
            after_place(i as int)
        },
        LoadStep::ResolveSymbols => LoadStep::Finished(ok),
        LoadStep::Finished(b) => LoadStep::Finished(b),
    }
}

/// The first step.
pub fn load_start() -> (s: LoadStep)
    ensures
        s == LoadStep::CheckPath(0),
{
    LoadStep::CheckPath(0)
}

/// The step after `step`, which succeeded when `ok` holds. A missing function
/// ends the loading, without trying further places.
pub fn load_next(step: LoadStep, ok: bool) -> (n: LoadStep)
    requires
        step matches LoadStep::CheckPath(i) ==> i < 3,
        step matches LoadStep::LoadLibrary(i) ==> i < 3,
    ensures
        n == load_next_spec(step, ok),
{
    match step {
        LoadStep::CheckPath(i) => if ok {
            LoadStep::LoadLibrary(i)
        } else if i + 1 < 3 {
            LoadStep::CheckPath(i + 1)
        } else {
            LoadStep::Finished(false)
        },
        LoadStep::LoadLibrary(i) => if ok {
            LoadStep::ResolveSymbols
        } else if i + 1 < 3 {
            LoadStep::CheckPath(i + 1)
        } else {
            LoadStep::Finished(false)
        },
        LoadStep::ResolveSymbols => LoadStep::Finished(ok),
        LoadStep::Finished(b) => LoadStep::Finished(b),
    }
}

/// Steps left at most before loading finishes.
pub open spec fn load_measure(step: LoadStep) -> int {
    match step {
        LoadStep::CheckPath(i) => 2 * (3 - i) + 1,
        LoadStep::LoadLibrary(i) => 2 * (3 - i),
        LoadStep::ResolveSymbols => 1,
        LoadStep::Finished(_) => 0,
    }
}

/// Loading ends: every step that is not finished leads to a step with a
/// smaller measure, whatever its outcome, and the measure never goes below 0.
pub proof fn lemma_load_progress(step: LoadStep, ok: bool)
    requires
        step matches LoadStep::CheckPath(i) ==> i < 3,
        step matches LoadStep::LoadLibrary(i) ==> i < 3,
    ensures
        load_measure(step) >= 0,
        !(step is Finished) ==> load_measure(load_next_spec(step, ok)) < load_measure(step),
        load_next_spec(step, ok) matches LoadStep::CheckPath(i) ==> i < 3,
        load_next_spec(step, ok) matches LoadStep::LoadLibrary(i) ==> i < 3,
{
}

/// Whether searches can go through the library, once loading reached `step`.
pub fn is_everything_available(step: LoadStep) -> (b: bool)
    ensures
        b == (step == LoadStep::Finished(true)),
{
    match step {
        LoadStep::Finished(b) => b,
        _ => false,
    }
}

// ---------------------------------------------------------------------------
// Answers of the library
// ---------------------------------------------------------------------------

/// One answer of the library: full path, file name and extension.
#[derive(Clone, Debug)]
pub struct FoundFile {
    pub path: String,
    pub name: String,
    pub extension: String,
}

/// The result that shows the `i`-th answer `f` of the library: ranked by
/// position, `1 - i / 200`; named by its file name, or by the last part of
/// its path when the name is empty.
pub open spec fn found_result_view(f: FoundFile, i: int) -> ResultView {
    ResultView {
        id: f.path@,
        name: if f.name@.len() == 0 {
            after_last(f.path@, '\\')
        } else {
            f.name@
        },
        path: f.path@,
        category: SearchResultCategory::File,
        icon: Some(f.extension@),
        score: exact_score(1, -5 * i, 1000),
        metadata: None,
    }
}

/// Which answers have a path.
pub open spec fn with_path(found: Seq<FoundFile>) -> Seq<bool> {
    found.map_values(|f: FoundFile| f.path@.len() > 0)
}

/// The results for the answers of the library, in its order; answers without
/// a path are left out, but still count for the positions.
pub fn everything_results(found: &Vec<FoundFile>) -> (v: Vec<SearchResult>)
    requires
        found@.len() <= u32::MAX,
    ensures
        ({
            let idx = marked_indices(with_path(found@), found@.len() as int);
            &&& v@.len() == idx.len()
            &&& forall|k: int|
                0 <= k < idx.len() ==> {
                    let i = idx[k] as int;
                    &&& (#[trigger] v@[k])@ == found_result_view(found@[i], i)
                    &&& v@[k].score.wf()
                }
        }),
{
    let mut out: Vec<SearchResult> = Vec::new();
    let mut i: usize = 0;
    while i < found.len()
        invariant
            i <= found@.len() <= u32::MAX,
            out@.len() == marked_indices(with_path(found@), i as int).len(),
            forall|k: int|
                0 <= k < out@.len() ==> {
                    let j = marked_indices(with_path(found@), i as int)[k] as int;
                    &&& (#[trigger] out@[k])@ == found_result_view(found@[j], j)
                    &&& out@[k].score.wf()
                },
        decreases found@.len() - i,
    {
        let ghost before = marked_indices(with_path(found@), i as int);
        let f = &found[i];
        if !f.path.as_str().is_empty() {
            let name = if f.name.as_str().is_empty() {
                let p = chars_of(f.path.as_str());
                let last = after_last_chars(&p, '\\');
                string_of(last.as_slice())
            } else {
                f.name.clone()
            };
            let score = make_score(1, 0, 5 * i as u128, 1000);
            proof {
                lemma_exact_score(score, 1, -5 * i, 1000);
            }
            let res = SearchResult {
                id: f.path.clone(),
                name,
                path: f.path.clone(),
                category: SearchResultCategory::File,
                icon: Some(f.extension.clone()),
                score,
                metadata: None,
            };
            let ghost old_out = out@;
            out.push(res);
            proof {
                assert(with_path(found@)[i as int]);
                assert(marked_indices(with_path(found@), i + 1) == before.push(i as usize));
                assert forall|k: int| 0 <= k < out@.len() implies {
                    let j = marked_indices(with_path(found@), i + 1)[k] as int;
                    &&& (#[trigger] out@[k])@ == found_result_view(found@[j], j)
                    &&& out@[k].score.wf()
                } by {
                    if k < old_out.len() {
                        assert(out@[k] == old_out[k]);
                    }
                }
            }
        } else {
            assert(!with_path(found@)[i as int]);
            assert(marked_indices(with_path(found@), i + 1) == before);
        }
        i = i + 1;
    }
    out
}

// ---------------------------------------------------------------------------
// Search without the library
// ---------------------------------------------------------------------------

/// The directories that the search without the library lists on `drive`:
/// `drive` followed by `\`, then by `\` and each of the other subdirectories.
pub fn fallback_dirs(drive: &str) -> (v: Vec<String>)
    ensures
        v@.map_values(|s: String| s@) == seq![
            drive@ + "\\"@,
            drive@ + "\\"@ + "Users"@,
            drive@ + "\\"@ + "Program Files"@,
            drive@ + "\\"@ + "Program Files (x86)"@,
        ],
{
    let root = concat(drive, "\\");
    let users = concat(root.as_str(), "Users");
    let pf = concat(root.as_str(), "Program Files");
    let pf86 = concat(root.as_str(), "Program Files (x86)");
    let v = vec![root, users, pf, pf86];
    assert(v@.map_values(|s: String| s@) =~= seq![
        drive@ + "\\"@,
        drive@ + "\\"@ + "Users"@,
        drive@ + "\\"@ + "Program Files"@,
        drive@ + "\\"@ + "Program Files (x86)"@,
    ]);
    v
}

/// Entries read from each directory, at most.
pub const FALLBACK_ENTRIES_PER_DIR: usize = 200;

/// The result that shows a listed entry.
pub open spec fn fallback_result_view(name: Seq<char>, path: Seq<char>, ext: Seq<char>) -> ResultView {
    ResultView {
        id: path,
        name,
        path,
        category: SearchResultCategory::File,
        icon: Some(ext),
        score: Score { whole: 0, frac: 1, den: 2 },
        metadata: None,
    }
}

/// The search without the library: entries whose lowercase names hold the
/// lowercase query are collected until there are `max_results` of them.
pub struct FallbackSearch {
    query_lower: Vec<char>,
    max_results: usize,
    results: Vec<SearchResult>,
}

impl FallbackSearch {
    pub closed spec fn query_lower(&self) -> Seq<char> {
        self.query_lower@
    }

    pub closed spec fn max_results(&self) -> nat {
        self.max_results as nat
    }

    pub closed spec fn results(&self) -> Seq<ResultView> {
        result_views(self.results@)
    }

    /// A search for `query` that stops at `max_results` results.
    pub fn new(query: &str, max_results: u32) -> (s: FallbackSearch)
        ensures
            s.query_lower() == lowercase(query@),
            s.max_results() == max_results,
            s.results().len() == 0,
    {
        let q = to_lowercase(query);
        let s = FallbackSearch {
            query_lower: chars_of(q.as_str()),
            max_results: max_results as usize,
            results: Vec::new(),
        };
        assert(s.results() =~= Seq::<ResultView>::empty());
        s
    }

    /// Offers the entry `name` at `path` with extension `ext`. It is added
    /// when its lowercase name holds the lowercase query; the answer is
    /// whether it was added and made the search complete.
    pub fn offer(&mut self, name: &str, path: &str, ext: &str) -> (done: bool)
        ensures
            final(self).query_lower() == old(self).query_lower(),
            final(self).max_results() == old(self).max_results(),
            final(self).results() == if find(lowercase(name@), old(self).query_lower()) is Some {
                old(self).results().push(fallback_result_view(name@, path@, ext@))
            } else {
                old(self).results()
            },
            done == (find(lowercase(name@), old(self).query_lower()) is Some
                && final(self).results().len() >= old(self).max_results()),
    {
        let n = to_lowercase(name);
        let nc = chars_of(n.as_str());
        if find_chars(&nc, &self.query_lower).is_some() {
            let res = SearchResult {
                id: String::from_str(path),
                name: String::from_str(name),
                path: String::from_str(path),
                category: SearchResultCategory::File,
                icon: Some(String::from_str(ext)),
                score: make_score(0, 1, 0, 2),
                metadata: None,
            };
            let ghost old_r = self.results@;
            self.results.push(res);
            assert(result_views(self.results@) =~= result_views(old_r).push(res@));
            return self.results.len() >= self.max_results;
        }
        false
    }

    /// Whether the search has collected enough results.
    pub fn is_done(&self) -> (b: bool)
        ensures
            b == (self.results().len() >= self.max_results()),
    {
        self.results.len() >= self.max_results
    }

    /// The collected results.
    pub fn into_results(self) -> (v: Vec<SearchResult>)
        ensures
            result_views(v@) == self.results(),
    {
        self.results
    }
}

} // verus!
