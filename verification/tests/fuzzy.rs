use spotlight_win::fuzzy::{
    calculate_fuzzy_score, fuzzy_contains_subsequence, fuzzy_contains_token, fuzzy_score_lowered,
};
use spotlight_win::score::Score;

fn value(s: Score) -> f64 {
    s.whole as f64 + s.frac as f64 / s.den as f64
}

fn score(query: &str, target: &str) -> f64 {
    value(calculate_fuzzy_score(query, target).expect("scored"))
}

#[test]
fn test_exact_match() {
    assert!(score("chrome", "chrome") > 95.0);
}

#[test]
fn test_starts_with() {
    assert!(score("chr", "chrome") > 85.0);
}

#[test]
fn test_contains() {
    assert!(score("rom", "chrome") > 60.0);
}

#[test]
fn test_fuzzy_match() {
    assert!(score("cme", "chrome") > 0.0);
}

#[test]
fn test_no_match() {
    assert_eq!(score("xyz", "chrome"), 0.0);
}

#[test]
fn test_token_match() {
    let s = score("my rep", "my_report.pdf");
    assert!(s > 50.0, "Token match should score > 50, got {}", s);
}

#[test]
fn test_path_segments() {
    let s = score("desktop", "C:\\Users\\me\\Desktop\\file.txt");
    assert!(s > 40.0, "Path segment match should score > 40, got {}", s);
}

#[test]
fn exact_values_of_each_rule() {
    // empty query
    assert_eq!(calculate_fuzzy_score("", "chrome"), Some(Score { whole: 1, frac: 0, den: 6 }));
    // exact match, case ignored
    assert_eq!(calculate_fuzzy_score("CHROME", "chrome"), Some(Score { whole: 100, frac: 0, den: 6 }));
    // prefix: 90 + 10 * 3 / 6
    assert_eq!(calculate_fuzzy_score("chr", "chrome"), Some(Score { whole: 95, frac: 0, den: 6 }));
    // substring at byte 2: 90 - 20 * 2 / 6
    assert_eq!(calculate_fuzzy_score("rom", "chrome"), Some(Score { whole: 83, frac: 2, den: 6 }));
    // two words found at bytes 0 and 3 of 13: 50 + 30 + 30 - 10 * 3 / 13
    assert_eq!(
        calculate_fuzzy_score("my rep", "my_report.pdf"),
        Some(Score { whole: 107, frac: 9, den: 13 })
    );
    // subsequence of a path segment
    assert_eq!(calculate_fuzzy_score("cme", "chrome"), Some(Score { whole: 40, frac: 0, den: 6 }));
    // a word of a path is a substring first: 90 - 20 * 6 / 12
    assert_eq!(
        calculate_fuzzy_score("doc", "c:/my docs/a"),
        Some(Score { whole: 80, frac: 0, den: 12 })
    );
    assert_eq!(calculate_fuzzy_score("xyz", "chrome"), Some(Score { whole: 0, frac: 0, den: 6 }));
}

#[test]
fn word_found_only_as_subsequence_scores_fifteen() {
    // "rpt" is not a substring of "my_report" but is a subsequence: 50 + 30 + 15
    assert_eq!(
        calculate_fuzzy_score("my rpt", "my_report"),
        Some(Score { whole: 95, frac: 0, den: 9 })
    );
}

#[test]
fn character_match_across_segments_with_capital_bonus() {
    // "ab" spans two segments: a at 0 (10 + 20), b at 2 after '/' (10 + 20),
    // density 10 * 2 / 3.
    let plain = calculate_fuzzy_score("ab", "a/b").unwrap();
    assert_eq!(plain, Score { whole: 66, frac: 2, den: 3 });
    // The capital in the target as given adds 10.
    let capital = calculate_fuzzy_score("ab", "a/B").unwrap();
    assert_eq!(capital, Score { whole: 76, frac: 2, den: 3 });
}

#[test]
fn adjacent_matches_earn_a_run_bonus() {
    // a at 0, x at 2 (after '/'), y at 3 right after x.
    let s = calculate_fuzzy_score("axy", "a/xy").unwrap();
    // a: 10 + 20, x: 10 + 20, y: 10; run bonus 5, plus 5 for ending in a
    // run; density 10 * 3 / 4.
    assert_eq!(s, Score { whole: 87, frac: 2, den: 4 });
}

#[test]
fn multi_byte_characters_are_scored_like_any_other() {
    // Each word is retried from every character: "ab" starts at the 'a'.
    assert_eq!(calculate_fuzzy_score("ab cd", "é a.b.c.d"), Some(Score { whole: 80, frac: 0, den: 10 }));
    assert_eq!(calculate_fuzzy_score("ab cd", "a.b.c.d é"), Some(Score { whole: 80, frac: 0, den: 10 }));
    // No word occurs: the character stage finds no 'a'.
    assert_eq!(calculate_fuzzy_score("ab cd", "é"), Some(Score { whole: 0, frac: 0, den: 2 }));
    // The in-order search of a path segment answers for every text.
    assert_eq!(calculate_fuzzy_score("éa", "xéya"), Some(Score { whole: 40, frac: 0, den: 5 }));
    // The character stage counts the query's characters, not its bytes:
    // é at 0 (10 + 20) and x after '/' (10 + 20), density 10 * 2 / 4.
    assert_eq!(calculate_fuzzy_score("éx", "é/x"), Some(Score { whole: 65, frac: 0, den: 4 }));
}

#[test]
fn lowered_forms_are_used_as_given() {
    // With the lowercase forms handed in, case differences stay visible.
    let s = fuzzy_score_lowered("ab", "ab", "AB", "AB").unwrap();
    assert_eq!(s, Score { whole: 0, frac: 0, den: 2 });
    let s = fuzzy_score_lowered("ab", "ab", "AB", "ab").unwrap();
    assert_eq!(s, Score { whole: 100, frac: 0, den: 2 });
}

#[test]
fn subsequence_helpers() {
    assert!(fuzzy_contains_token("chrome", "cme"));
    assert!(!fuzzy_contains_token("chrome", "cmz"));
    // the token must start where the text starts
    assert!(!fuzzy_contains_token("xab", "ab"));
    assert!(fuzzy_contains_token("xab", ""));
    assert!(fuzzy_contains_subsequence("chrome", "cme"));
    assert!(!fuzzy_contains_subsequence("chrome", "ce m"));
    assert!(fuzzy_contains_subsequence("xéya", "éa"));
    assert!(fuzzy_contains_subsequence("", ""));
}

#[test]
fn a_missing_character_scores_zero() {
    let s = calculate_fuzzy_score("qz", "C:\\Users\\me\\Desktop").unwrap();
    assert_eq!(s.whole, 0);
    assert_eq!(s.frac, 0);
    // out of order
    assert_eq!(score("emorhc", "chrome"), 0.0);
    // several words may match in any order
    assert!(score("report my", "my_report") > 50.0);
}

#[test]
fn score_tiers() {
    // exact, up to case
    assert_eq!(score("Notepad", "NOTEPAD"), 100.0);
    // a prefix scores above 90, a later substring 70 to 90
    let prefix = score("note", "notepad");
    assert!(prefix > 90.0 && prefix <= 100.0);
    let inner = score("pad", "notepad");
    assert!(inner > 70.0 && inner <= 90.0);
    assert!(prefix > inner);
}

#[test]
fn words_of_a_query_match_a_joined_name() {
    // "my rep" matches "MyReport": "my" at byte 0 and "rep" at byte 2, each
    // 30 points less 10 times its position over the length 8.
    assert_eq!(
        calculate_fuzzy_score("my rep", "MyReport"),
        Some(Score { whole: 107, frac: 4, den: 8 })
    );
}
