use spotlight_win::fuzzy::calculate_fuzzy_score;

/// Whether the characters of `word` appear in `text` in order.
fn in_order(text: &[char], word: &[char]) -> bool {
    let mut k = 0;
    for &c in text {
        if k < word.len() && c == word[k] {
            k += 1;
        }
    }
    k == word.len()
}

/// Byte offset of the first occurrence of `needle` in `hay`.
fn position(hay: &str, needle: &str) -> Option<usize> {
    hay.find(needle)
}

/// The scoring rules, stated directly over floats, for ASCII texts.
fn rules(query: &str, target: &str) -> f64 {
    if query.is_empty() {
        return 1.0;
    }
    let q = query.to_lowercase();
    let t = target.to_lowercase();
    let len = target.len() as f64;
    if q == t {
        return 100.0;
    }
    if t.starts_with(&q) {
        return 90.0 + 10.0 * query.len() as f64 / len;
    }
    if let Some(p) = position(&t, &q) {
        return 90.0 - 20.0 * p as f64 / len;
    }
    let tc: Vec<char> = t.chars().collect();
    let words: Vec<&str> = q.split_whitespace().collect();
    if words.len() >= 2 {
        let mut sum = 0.0;
        let mut all = true;
        for w in &words {
            let wc: Vec<char> = w.chars().collect();
            match position(&t, w) {
                Some(p) => sum += 30.0 - 10.0 * p as f64 / len,
                None if in_order(&tc, &wc) => sum += 15.0,
                None => {
                    all = false;
                    break;
                }
            }
        }
        if all {
            return 50.0 + sum;
        }
    }
    let qc: Vec<char> = q.chars().collect();
    for seg in t.split(|c| c == '/' || c == '\\') {
        if seg.starts_with(&q) {
            return 45.0;
        }
        let sc: Vec<char> = seg.chars().collect();
        if in_order(&sc, &qc) {
            return 40.0;
        }
    }
    // character by character, greedily
    let as_given: Vec<char> = target.chars().collect();
    let mut points = 0.0;
    let mut matched = 0usize;
    let mut previous: Option<usize> = None;
    let mut run = 0.0;
    for (i, &c) in tc.iter().enumerate() {
        if matched >= qc.len() {
            break;
        }
        if c != qc[matched] {
            continue;
        }
        points += 10.0;
        run = if previous == Some(i.wrapping_sub(1)) && i > 0 { run + 5.0 } else { 0.0 };
        let starts_word = i == 0 || " -_/\\.".contains(tc[i - 1]);
        if starts_word {
            points += 20.0;
        }
        if i > 0 && as_given[i].is_uppercase() {
            points += 10.0;
        }
        previous = Some(i);
        matched += 1;
    }
    if matched < qc.len() {
        return 0.0;
    }
    points + run + 10.0 * matched as f64 / len + if run > 0.0 { 5.0 } else { 0.0 }
}

/// A small deterministic generator of texts over `alphabet`.
struct Texts {
    state: u64,
}

impl Texts {
    fn next(&mut self) -> u64 {
        self.state = self.state.wrapping_mul(6364136223846793005).wrapping_add(1442695040888963407);
        self.state >> 33
    }

    fn text(&mut self, alphabet: &[char], max_len: u64) -> String {
        let n = self.next() % (max_len + 1);
        (0..n).map(|_| alphabet[(self.next() % alphabet.len() as u64) as usize]).collect()
    }
}

#[test]
fn scores_follow_the_rules_on_generated_texts() {
    let alphabet = ['a', 'b', 'c', 'A', 'B', ' ', '_', '/', '.', '-', '\\'];
    let mut texts = Texts { state: 7 };
    for _ in 0..20000 {
        let query = texts.text(&alphabet[..6], 4);
        let target = texts.text(&alphabet, 9);
        let s = calculate_fuzzy_score(&query, &target).expect("ASCII texts are scored");
        let got = s.whole as f64 + s.frac as f64 / s.den as f64;
        let want = rules(&query, &target);
        assert!((got - want).abs() < 1e-9, "{:?} against {:?}: {} but the rules give {}", query, target, got, want);
    }
}
