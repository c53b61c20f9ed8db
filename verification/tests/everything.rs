use spotlight_win::everything::{
    everything_dll_paths, everything_results, everything_symbols, fallback_dirs,
    is_everything_available, load_next, load_start, FallbackSearch, FoundFile, LoadStep,
};
use spotlight_win::results::SearchResultCategory;
use spotlight_win::score::Score;

fn found(path: &str, name: &str, ext: &str) -> FoundFile {
    FoundFile { path: path.to_string(), name: name.to_string(), extension: ext.to_string() }
}

/// Runs the loading steps, each answered by `outcome`, and returns the steps taken.
fn run(outcome: impl Fn(LoadStep) -> bool) -> Vec<LoadStep> {
    let mut steps = vec![load_start()];
    loop {
        let step = *steps.last().unwrap();
        if let LoadStep::Finished(_) = step {
            return steps;
        }
        steps.push(load_next(step, outcome(step)));
        assert!(steps.len() <= 8, "loading does not end");
    }
}

#[test]
fn loading_with_the_library_in_the_second_place() {
    let steps = run(|s| match s {
        LoadStep::CheckPath(i) => i == 1,
        _ => true,
    });
    assert_eq!(
        steps,
        vec![
            LoadStep::CheckPath(0),
            LoadStep::CheckPath(1),
            LoadStep::LoadLibrary(1),
            LoadStep::ResolveSymbols,
            LoadStep::Finished(true),
        ]
    );
    assert!(is_everything_available(*steps.last().unwrap()));
}

#[test]
fn loading_without_the_library() {
    let steps = run(|_| false);
    assert_eq!(steps.len(), 4);
    assert_eq!(*steps.last().unwrap(), LoadStep::Finished(false));
    assert!(!is_everything_available(LoadStep::Finished(false)));
    assert!(!is_everything_available(LoadStep::ResolveSymbols));
}

#[test]
fn a_failed_load_tries_the_next_place_and_missing_functions_end_it() {
    let steps = run(|s| !matches!(s, LoadStep::LoadLibrary(0) | LoadStep::ResolveSymbols));
    assert_eq!(
        steps,
        vec![
            LoadStep::CheckPath(0),
            LoadStep::LoadLibrary(0),
            LoadStep::CheckPath(1),
            LoadStep::LoadLibrary(1),
            LoadStep::ResolveSymbols,
            LoadStep::Finished(false),
        ]
    );
}

#[test]
fn places_and_functions_of_the_library() {
    let places = everything_dll_paths();
    assert_eq!(places.len(), 3);
    assert_eq!(places[0], "Everything64.dll");
    assert_eq!(places[2], "C:\\Program Files (x86)\\Voidtools\\Everything\\Everything64.dll");
    let symbols = everything_symbols();
    assert_eq!(symbols.len(), 6);
    assert_eq!(symbols[0], "Everything_SetSearchW");
    assert_eq!(symbols[5], "Everything_GetResultExtensionW");
}

#[test]
fn answers_become_results_ranked_by_position() {
    let answers = vec![
        found("C:\\a\\one.txt", "one.txt", "txt"),
        found("", "lost", "x"),
        found("C:\\b\\two.pdf", "", "pdf"),
    ];
    let v = everything_results(&answers);
    assert_eq!(v.len(), 2);
    assert_eq!(v[0].id, "C:\\a\\one.txt");
    assert_eq!(v[0].name, "one.txt");
    assert_eq!(v[0].category, SearchResultCategory::File);
    assert_eq!(v[0].icon, Some("txt".to_string()));
    assert_eq!(v[0].score, Score { whole: 1, frac: 0, den: 1000 });
    // third answer, position 2: 1 - 2 / 200; named by the end of its path
    assert_eq!(v[1].name, "two.pdf");
    assert_eq!(v[1].score, Score { whole: 0, frac: 990, den: 1000 });
}

#[test]
fn fallback_directories_of_a_drive() {
    assert_eq!(
        fallback_dirs("D:"),
        vec!["D:\\", "D:\\Users", "D:\\Program Files", "D:\\Program Files (x86)"]
    );
}

#[test]
fn fallback_search_collects_matches_until_full() {
    let mut s = FallbackSearch::new("Rep", 2);
    assert!(!s.is_done());
    assert!(!s.offer("Notes.txt", "C:\\Notes.txt", "txt"));
    assert!(!s.offer("REPORT.pdf", "C:\\REPORT.pdf", "pdf"));
    assert!(s.offer("prep.doc", "C:\\prep.doc", "doc"));
    assert!(s.is_done());
    let v = s.into_results();
    assert_eq!(v.len(), 2);
    assert_eq!(v[0].name, "REPORT.pdf");
    assert_eq!(v[0].path, "C:\\REPORT.pdf");
    assert_eq!(v[0].icon, Some("pdf".to_string()));
    assert_eq!(v[0].score, Score { whole: 0, frac: 1, den: 2 });
    assert_eq!(v[1].name, "prep.doc");
}
