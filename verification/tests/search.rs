use spotlight_win::apps::{search_applications, AppEntry, AppType, MAX_APP_RESULTS};
use spotlight_win::files::{search_files, FileEntry, MAX_FILE_RESULTS};
use spotlight_win::results::{SearchResponse, SearchResult, SearchResultCategory};
use spotlight_win::score::Score;
use spotlight_win::search::{rank_results, search, search_response, SearchIndex};

fn app(name: &str, path: &str) -> AppEntry {
    AppEntry { name: name.to_string(), path: path.to_string(), app_type: AppType::StartMenu }
}

fn file(name: &str, path: &str) -> FileEntry {
    FileEntry { name: name.to_string(), path: path.to_string() }
}

fn result(id: &str, category: SearchResultCategory, whole: i128) -> SearchResult {
    SearchResult {
        id: id.to_string(),
        name: id.to_string(),
        path: id.to_string(),
        category,
        icon: None,
        score: Score { whole, frac: 0, den: 1 },
        metadata: None,
    }
}

fn ids(v: &[SearchResult]) -> Vec<String> {
    v.iter().map(|r| r.id.clone()).collect()
}

#[test]
fn applications_best_first_and_non_matches_left_out() {
    let apps = vec![
        app("Google Chrome", "C:\\chrome.lnk"),
        app("Chromium", "C:\\chromium.lnk"),
        app("Notepad", "C:\\notepad.lnk"),
    ];
    let v = search_applications("chr", &apps).unwrap();
    assert_eq!(v.len(), 2);
    // prefix of "chromium": 90 + 10 * 3 / 8
    assert_eq!(v[0].name, "Chromium");
    assert_eq!(v[0].score, Score { whole: 93, frac: 6, den: 8 });
    assert_eq!(v[0].id, "C:\\chromium.lnk");
    assert_eq!(v[0].path, "C:\\chromium.lnk");
    assert_eq!(v[0].category, SearchResultCategory::Application);
    assert_eq!(v[0].icon, None);
    assert_eq!(v[0].metadata, None);
    // substring of "google chrome" at byte 7: 90 - 20 * 7 / 13
    assert_eq!(v[1].name, "Google Chrome");
    assert_eq!(v[1].score, Score { whole: 79, frac: 3, den: 13 });
}

#[test]
fn applications_stop_at_twenty_and_keep_list_order_on_ties() {
    let apps: Vec<AppEntry> =
        (0..25).map(|i| app(&format!("app {}", i), &format!("p{}", i))).collect();
    let v = search_applications("app", &apps).unwrap();
    assert_eq!(v.len(), MAX_APP_RESULTS);
    // "app 0".."app 9" score 96, the longer names 95, each group in list order.
    let expected: Vec<String> = (0..20).map(|i| format!("app {}", i)).collect();
    let names: Vec<String> = v.iter().map(|r| r.name.clone()).collect();
    assert_eq!(names, expected);
    assert_eq!(v[0].score, Score { whole: 96, frac: 0, den: 5 });
    assert_eq!(v[19].score, Score { whole: 95, frac: 0, den: 6 });
}

#[test]
fn applications_with_no_match_give_an_empty_list() {
    let apps = vec![app("Notepad", "n")];
    assert_eq!(search_applications("xyz", &apps).unwrap().len(), 0);
    assert_eq!(search_applications("x", &[]).unwrap().len(), 0);
}

#[test]
fn files_carry_their_extension_and_stop_at_ten() {
    let files = vec![file("report.pdf", "C:\\docs\\report.pdf"), file("notes", "C:\\notes")];
    let v = search_files("rep", &files).unwrap();
    assert_eq!(v.len(), 1);
    assert_eq!(v[0].name, "report.pdf");
    assert_eq!(v[0].id, "C:\\docs\\report.pdf");
    assert_eq!(v[0].category, SearchResultCategory::File);
    assert_eq!(v[0].metadata, Some("file:pdf".to_string()));
    assert_eq!(v[0].score, Score { whole: 93, frac: 0, den: 10 });
    let v = search_files("notes", &files).unwrap();
    assert_eq!(v[0].metadata, Some("file:".to_string()));

    let many: Vec<FileEntry> =
        (0..15).map(|i| file(&format!("doc{}", i), &format!("d{}.txt", i))).collect();
    let v = search_files("doc", &many).unwrap();
    assert_eq!(v.len(), MAX_FILE_RESULTS);
    assert_eq!(v[0].name, "doc0");
    assert_eq!(v[9].name, "doc9");
}

#[test]
fn ranking_orders_by_score_and_keeps_ties_in_order() {
    let list = vec![
        result("a", SearchResultCategory::File, 10),
        result("b", SearchResultCategory::Application, 50),
        result("c", SearchResultCategory::Action, 20),
        result("d", SearchResultCategory::File, 50),
    ];
    let by_score = rank_results(list.clone(), false);
    assert_eq!(ids(&by_score), vec!["b", "d", "c", "a"]);
    let actions_first = rank_results(list, true);
    assert_eq!(ids(&actions_first), vec!["c", "b", "d", "a"]);
    assert_eq!(rank_results(Vec::new(), true).len(), 0);
}

#[test]
fn ranking_compares_fractions_exactly() {
    let mut x = result("x", SearchResultCategory::File, 0);
    x.score = Score { whole: 79, frac: 3, den: 13 };
    let mut y = result("y", SearchResultCategory::File, 0);
    y.score = Score { whole: 79, frac: 1, den: 4 };
    // 3/13 < 1/4
    assert_eq!(ids(&rank_results(vec![x, y], false)), vec!["y", "x"]);
}

#[test]
fn blank_query_gives_no_results() {
    let apps = vec![app("Notepad", "n")];
    assert_eq!(search("   ", Some(&apps), None, None, false).unwrap().len(), 0);
    assert_eq!(search("", None, None, None, true).unwrap().len(), 0);
}

#[test]
fn quick_actions_come_before_equal_or_better_applications() {
    let apps = vec![app("Sleep", "C:\\sleep.lnk"), app("Sleepy Time", "C:\\st.lnk")];
    let v = search("sleep", Some(&apps), None, None, false).unwrap();
    assert_eq!(ids(&v), vec!["action_sleep", "C:\\sleep.lnk", "C:\\st.lnk"]);
    let action = &v[0];
    assert_eq!(action.name, "Sleep");
    assert_eq!(action.path, "Put computer to sleep");
    assert_eq!(action.category, SearchResultCategory::Action);
    assert_eq!(action.icon, Some("moon".to_string()));
    assert_eq!(action.metadata, Some("sleep".to_string()));
    assert_eq!(action.score, Score { whole: 100, frac: 0, den: 5 });
}

#[test]
fn search_merges_every_source() {
    let apps = vec![app("Calculator", "C:\\calc.lnk")];
    let files = vec![file("calc.txt", "C:\\calc.txt")];
    let calc = result("calc_2+2", SearchResultCategory::Calculator, 100);
    let v = search("calc", Some(&apps), Some(&files), Some(calc), false).unwrap();
    // calculator answer 100, "calc.txt" prefix 90 + 40 / 8, "calculator" 90 + 40 / 10
    assert_eq!(ids(&v), vec!["calc_2+2", "C:\\calc.txt", "C:\\calc.lnk"]);
    // without the indexes only the calculator's answer is left
    let calc = result("calc_2+2", SearchResultCategory::Calculator, 100);
    let v = search("calc", None, None, Some(calc), false).unwrap();
    assert_eq!(ids(&v), vec!["calc_2+2"]);
}

#[test]
fn index_keeps_what_was_stored_first() {
    let mut index = SearchIndex::new();
    assert!(index.apps.is_none() && index.files.is_none());
    index.init_cache(vec![app("A", "a")], vec![file("f", "f")]);
    index.init_cache(vec![app("B", "b"), app("C", "c")], Vec::new());
    let apps = index.apps.as_ref().unwrap();
    assert_eq!(apps.len(), 1);
    assert_eq!(apps[0].name, "A");
    assert_eq!(index.files.as_ref().unwrap().len(), 1);
}

#[test]
fn response_counts_its_results() {
    let r = SearchResponse::new(
        vec![result("a", SearchResultCategory::File, 1), result("b", SearchResultCategory::File, 2)],
        7,
    );
    assert_eq!(r.total_results, 2);
    assert_eq!(r.query_time_ms, 7);
    assert_eq!(r.results.len(), 2);
}

#[test]
fn responses_of_blank_and_other_queries() {
    let r = search_response("  ", vec![result("a", SearchResultCategory::File, 1)], 12);
    assert_eq!(r.results.len(), 0);
    assert_eq!(r.total_results, 0);
    assert_eq!(r.query_time_ms, 0);
    let r = search_response("a", vec![result("a", SearchResultCategory::File, 1)], 12);
    assert_eq!(r.results.len(), 1);
    assert_eq!(r.total_results, 1);
    assert_eq!(r.query_time_ms, 12);
}

#[test]
fn file_metadata_holds_the_extension_of_the_file_name() {
    let files = vec![
        file("notes", "/home/me/notes.tar.gz"),
        file("notes2", "/home/me/notes2"),
        file("notes3", "/home/me.d/notes3"),
        file("notes4", "/home/me/.notes4"),
    ];
    let v = search_files("notes", &files).unwrap();
    let meta: Vec<String> = v.iter().map(|r| r.metadata.clone().unwrap()).collect();
    assert_eq!(meta, vec!["file:gz", "file:", "file:", "file:"]);
}
