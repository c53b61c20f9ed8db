//! Fuzzy relevance of a query against a name or a path.
//!
//! The score is, by the first rule that applies: 1 for an empty query; 100 for
//! an exact match; 90 plus a length ratio for a prefix; 70 to 90 for a
//! substring, by its position; 50 plus a share per word for a query of several
//! words that all occur; 45 or 40 for a path segment that starts with, or
//! holds in order, the query; otherwise a character-by-character match with
//! bonuses for word starts, capitals and runs, or 0 when some query character
//! is missing.
use vstd::prelude::*;
use crate::text::{
    str_bytes, byte_len, is_subseq, is_prefix, find, split_whitespace,
    path_segments, views, lowercase, uppercase_char, chars_of, text_bytes,
    prefix_bytes, subseq_chars, find_chars, starts_with_chars, chars_equal,
    split_whitespace_chars, path_segments_chars, to_lowercase, is_uppercase, lemma_byte_len_step,
    lemma_byte_len_bounds, lemma_byte_len_prefix, lemma_take_full, lemma_find_from_bounds,
    lemma_ws_split_count, lemma_subseq_refl, lemma_subseq_of_piece, lemma_subseq_push,
    lemma_subseq_suffix_text, is_path_sep, sep_split_state, ws_split_state, is_white_space,
    lemma_subseq_subrange, lemma_subseq_start,
};
use crate::score::{Score, make_score, exact_score, lemma_exact_score, lemma_exact_score_is};

verus! {

/// The several-word rule subtracts ten times the sum of the words' byte
/// positions, over the target's length, from a score whose whole part is a
/// 128-bit integer; the sum must stay below this bound (2^116).
pub const WORD_POSITIONS_LIMIT: u128 = 0x10_0000_0000_0000_0000_0000_0000_0000;

/// `s` can be the text of a string in memory: its byte length fits a `usize`.
pub open spec fn in_memory(s: Seq<char>) -> bool {
    byte_len(s) <= usize::MAX
}

/// The denominator of a score against `target`: its byte length, or 1 for an
/// empty target.
pub open spec fn score_den(target: Seq<char>) -> nat {
    if byte_len(target) == 0 {
        1
    } else {
        byte_len(target)
    }
}

// ---------------------------------------------------------------------------
// Subsequences
// ---------------------------------------------------------------------------

/// `remaining` starts a fuzzy occurrence of `tok`: the token is empty, or its
/// first character is the first of `remaining` and its characters appear in
/// `remaining` in order.
pub open spec fn starts_fuzzy(remaining: Seq<char>, tok: Seq<char>) -> bool {
    tok.len() == 0 || (remaining.len() > 0 && remaining[0] == tok[0] && is_subseq(tok, remaining))
}

/// Whether `target` holds the characters of `token` in order.
pub fn fuzzy_contains_subsequence(target: &str, token: &str) -> (b: bool)
    ensures
        b == is_subseq(token@, target@),
{
    let t = chars_of(target);
    let k = chars_of(token);
    subseq_chars(&k, &t)
}

fn starts_fuzzy_chars(remaining: &Vec<char>, tok: &Vec<char>) -> (b: bool)
    ensures
        b == starts_fuzzy(remaining@, tok@),
{
    if tok.len() == 0 {
        return true;
    }
    if remaining.len() == 0 || remaining[0] != tok[0] {
        return false;
    }
    subseq_chars(tok, remaining)
}

/// Whether `remaining` starts with the fuzzy token `token`: the token is
/// empty, or `remaining` begins with its first character and holds all its
/// characters in order.
pub fn fuzzy_contains_token(remaining: &str, token: &str) -> (b: bool)
    ensures
        b == starts_fuzzy(remaining@, token@),
{
    let r = chars_of(remaining);
    let k = chars_of(token);
    starts_fuzzy_chars(&r, &k)
}

/// Retrying a word from each character of the target, from character `j`
/// on, finds a position that starts a fuzzy occurrence of it.
pub open spec fn retry_from(tok: Seq<char>, tl: Seq<char>, j: int) -> bool
    decreases tl.len() - j,
{
    if j < 0 || j >= tl.len() {
        false
    } else if starts_fuzzy(tl.skip(j), tok) {
        true
    } else {
        retry_from(tok, tl, j + 1)
    }
}

fn tail_from(s: &Vec<char>, j: usize) -> (r: Vec<char>)
    requires
        j <= s@.len(),
    ensures
        r@ == s@.skip(j as int),
{
    let mut r: Vec<char> = Vec::new();
    let mut k: usize = j;
    while k < s.len()
        invariant
            j <= k <= s@.len(),
            r@ == s@.subrange(j as int, k as int),
        decreases s@.len() - k,
    {
        r.push(s[k]);
        assert(r@ =~= s@.subrange(j as int, k + 1));
        k = k + 1;
    }
    assert(r@ =~= s@.skip(j as int));
    r
}

fn retry_chars(tok: &Vec<char>, tl: &Vec<char>) -> (r: bool)
    ensures
        r == retry_from(tok@, tl@, 0),
{
    let mut j: usize = 0;
    while j < tl.len()
        invariant
            j <= tl@.len(),
            retry_from(tok@, tl@, 0) == retry_from(tok@, tl@, j as int),
        decreases tl@.len() - j,
    {
        let rest = tail_from(tl, j);
        if starts_fuzzy_chars(&rest, tok) {
            return true;
        }
        j = j + 1;
    }
    false
}

// ---------------------------------------------------------------------------
// Several words
// ---------------------------------------------------------------------------

/// Progress over the words of a query.
pub enum TokenScan {
    /// All words so far occur; `points` whole points, and `minus` the sum of
    /// the byte positions of the words found as substrings.
    Running { points: int, minus: int },
    /// A word occurs in no form.
    Unmatched,
}

pub open spec fn token_step(acc: TokenScan, tok: Seq<char>, tl: Seq<char>) -> TokenScan {
    match acc {
        TokenScan::Running { points, minus } => match find(tl, tok) {
            Some(p) => TokenScan::Running { points: points + 30, minus: minus + byte_len(tl.take(p)) },
            None => if retry_from(tok, tl, 0) {
                TokenScan::Running { points: points + 15, minus }
            } else {
                TokenScan::Unmatched
            },
        },
        other => other,
    }
}

/// The scan over the first `n` words.
pub open spec fn token_scan(tokens: Seq<Seq<char>>, tl: Seq<char>, n: nat) -> TokenScan
    decreases n,
{
    if n == 0 {
        TokenScan::Running { points: 0, minus: 0 }
    } else {
        token_step(token_scan(tokens, tl, (n - 1) as nat), tokens[n - 1], tl)
    }
}

proof fn lemma_token_scan_sticks(tokens: Seq<Seq<char>>, tl: Seq<char>, i: nat, j: nat)
    requires
        i <= j,
        !(token_scan(tokens, tl, i) is Running),
    ensures
        token_scan(tokens, tl, j) == token_scan(tokens, tl, i),
    decreases j - i,
{
    if i < j {
        lemma_token_scan_sticks(tokens, tl, i, (j - 1) as nat);
    }
}

// ---------------------------------------------------------------------------
// Path segments
// ---------------------------------------------------------------------------

pub enum PathScan {
    NoMatch,
    /// A segment starts with the query.
    Prefix,
    /// A segment holds the query's characters in order.
    Subsequence,
}

pub open spec fn path_step(acc: PathScan, seg: Seq<char>, ql: Seq<char>) -> PathScan {
    match acc {
        PathScan::NoMatch => if is_prefix(ql, seg) {
            PathScan::Prefix
        } else {
            if is_subseq(ql, seg) {
                PathScan::Subsequence
            } else {
                PathScan::NoMatch
            }
        },
        other => other,
    }
}

pub open spec fn path_scan(segs: Seq<Seq<char>>, ql: Seq<char>, n: nat) -> PathScan
    decreases n,
{
    if n == 0 {
        PathScan::NoMatch
    } else {
        path_step(path_scan(segs, ql, (n - 1) as nat), segs[n - 1], ql)
    }
}

proof fn lemma_path_scan_sticks(segs: Seq<Seq<char>>, ql: Seq<char>, i: nat, j: nat)
    requires
        i <= j,
        !(path_scan(segs, ql, i) is NoMatch),
    ensures
        path_scan(segs, ql, j) == path_scan(segs, ql, i),
    decreases j - i,
{
    if i < j {
        lemma_path_scan_sticks(segs, ql, i, (j - 1) as nat);
    }
}

// ---------------------------------------------------------------------------
// Character by character
// ---------------------------------------------------------------------------

/// State of the character-by-character match.
pub struct CharScan {
    /// Query characters matched so far.
    pub qi: int,
    /// Index of the last match, or -1.
    pub last: int,
    /// Bonus of the current run of adjacent matches.
    pub consec: int,
    pub points: int,
    pub count: int,
}

/// The query character awaited after `i` matches; past the end of the query,
/// the NUL character.
pub open spec fn query_char_at(ql: Seq<char>, i: int) -> char {
    if 0 <= i < ql.len() {
        ql[i]
    } else {
        '\0'
    }
}

/// Characters after which a match counts as the start of a word.
pub open spec fn is_word_sep(c: char) -> bool {
    c == ' ' || c == '-' || c == '_' || c == '/' || c == '\\' || c == '.'
}

/// The match over the first `n` characters of `tl`. Matching goes on until
/// every character of the query is matched; capitals are looked up in the
/// target `t` as given (not lowercased) at the same index.
pub open spec fn char_scan(ql: Seq<char>, t: Seq<char>, tl: Seq<char>, n: nat) -> CharScan
    decreases n,
{
    if n == 0 {
        CharScan { qi: 0, last: -1, consec: 0, points: 0, count: 0 }
    } else {
        let s = char_scan(ql, t, tl, (n - 1) as nat);
        let idx = n - 1;
        if s.qi >= ql.len() || tl[idx] != query_char_at(ql, s.qi) {
            s
        } else {
            let consec = if s.last >= 0 && idx == s.last + 1 {
                s.consec + 5
            } else {
                0
            };
            let boundary = if idx == 0 || is_word_sep(tl[idx - 1]) {
                20int
            } else {
                0int
            };
            let camel = if idx > 0 && idx < t.len() && uppercase_char(t[idx]) {
                10int
            } else {
                0int
            };
            CharScan {
                qi: s.qi + 1,
                last: idx,
                consec,
                points: s.points + 10 + boundary + camel,
                count: s.count + 1,
            }
        }
    }
}

/// The character-by-character score, as whole points and the numerator over
/// the target's byte length.
pub open spec fn char_stage(ql: Seq<char>, t: Seq<char>, tl: Seq<char>) -> (int, int) {
    let s = char_scan(ql, t, tl, tl.len());
    if s.qi < ql.len() {
        (0, 0)
    } else {
        (s.points + s.consec + if s.consec > 0 {
            5int
        } else {
            0int
        }, 10 * s.count)
    }
}

proof fn lemma_char_scan_bounds(ql: Seq<char>, t: Seq<char>, tl: Seq<char>, n: nat)
    requires
        n <= tl.len(),
    ensures
        ({
            let s = char_scan(ql, t, tl, n);
            &&& 0 <= s.qi <= n
            &&& s.qi == s.count
            &&& -1 <= s.last < n
            &&& 0 <= s.consec <= 5 * n
            &&& 0 <= s.points <= 40 * n
        }),
    decreases n,
{
    if n > 0 {
        lemma_char_scan_bounds(ql, t, tl, (n - 1) as nat);
    }
}

// ---------------------------------------------------------------------------
// The score
// ---------------------------------------------------------------------------

/// The score of query `q` against target `t`, given their lowercase forms
/// `ql` and `tl`, as `Some((a, b))` for `a + b / score_den(t)`; `None` where
/// the several-word rule's byte positions add up to `WORD_POSITIONS_LIMIT` or
/// more.
pub open spec fn fuzzy_spec(q: Seq<char>, ql: Seq<char>, t: Seq<char>, tl: Seq<char>) -> Option<
    (int, int),
> {
    if q.len() == 0 {
        Some((1, 0))
    } else if tl == ql {
        Some((100, 0))
    } else if is_prefix(ql, tl) {
        Some((90, 10 * byte_len(q) as int))
    } else if find(tl, ql) is Some {
        Some((90, -20 * byte_len(tl.take(find(tl, ql)->0))))
    } else {
        let tokens = split_whitespace(ql);
        let ts = if tokens.len() > 1 {
            token_scan(tokens, tl, tokens.len())
        } else {
            TokenScan::Unmatched
        };
        match ts {
            TokenScan::Running { points, minus } => if minus < WORD_POSITIONS_LIMIT {
                Some((50 + points, -10 * minus))
            } else {
                None
            },
            TokenScan::Unmatched => {
                let segs = path_segments(tl);
                match path_scan(segs, ql, segs.len()) {
                    PathScan::Prefix => Some((45, 0)),
                    PathScan::Subsequence => Some((40, 0)),
                    PathScan::NoMatch => Some(char_stage(ql, t, tl)),
                }
            },
        }
    }
}

/// `r` is the score of `query` against `target` as `Some`, or `None` where
/// `fuzzy_spec` has none.
pub open spec fn score_matches(r: Option<Score>, q: Seq<char>, ql: Seq<char>, t: Seq<char>, tl: Seq<char>) -> bool {
    match fuzzy_spec(q, ql, t, tl) {
        Some((a, b)) => r matches Some(s) && s.is(a, b, score_den(t)),
        None => r is None,
    }
}

/// Scores `query` against `target`, given their lowercase forms.
pub fn fuzzy_score_lowered(query: &str, query_lower: &str, target: &str, target_lower: &str) -> (r:
    Option<Score>)
    ensures
        score_matches(r, query@, query_lower@, target@, target_lower@),
{
    let _ = str_bytes(query);
    let _ = str_bytes(query_lower);
    let _ = str_bytes(target);
    let _ = str_bytes(target_lower);
    let q = chars_of(query);
    let ql = chars_of(query_lower);
    let t = chars_of(target);
    let tl = chars_of(target_lower);
    score_chars(&q, &ql, &t, &tl)
}

fn score_chars(q: &Vec<char>, ql: &Vec<char>, t: &Vec<char>, tl: &Vec<char>) -> (r: Option<Score>)
    requires
        in_memory(q@),
        in_memory(ql@),
        in_memory(t@),
        in_memory(tl@),
    ensures
        score_matches(r, q@, ql@, t@, tl@),
{
    let bt = text_bytes(t);
    let den: u64 = if bt == 0 {
        1
    } else {
        bt
    };
    if q.len() == 0 {
        return Some(make_score(1, 0, 0, den));
    }
    if chars_equal(tl, ql) {
        return Some(make_score(100, 0, 0, den));
    }
    if starts_with_chars(tl, ql) {
        let bq = text_bytes(q);
        return Some(make_score(90, 10 * bq as u128, 0, den));
    }
    match find_chars(tl, ql) {
        Some(p) => {
            proof {
                lemma_find_from_bounds(tl@, ql@, 0);
                lemma_byte_len_prefix(tl@, p as int, tl@.len() as int);
                lemma_take_full(tl@);
            }
            let bp = prefix_bytes(tl, p);
            return Some(make_score(90, 0, 20 * bp as u128, den));
        },
        None => {},
    }
    match token_stage(ql, tl) {
        TokenOutcome::Matched(points, minus) => {
            if minus < WORD_POSITIONS_LIMIT {
                return Some(make_score(50 + points as i128, 0, 10 * minus, den));
            } else {
                return None;
            }
        },
        TokenOutcome::Unmatched => {},
    }
    match path_stage(ql, tl) {
        PathScanExec::Prefix => {
            return Some(make_score(45, 0, 0, den));
        },
        PathScanExec::Subsequence => {
            return Some(make_score(40, 0, 0, den));
        },
        PathScanExec::NoMatch => {},
    }
    let (a, plus) = char_stage_exec(ql, t, tl);
    Some(make_score(a as i128, plus, 0, den))
}

enum TokenOutcome {
    Matched(u128, u128),
    Unmatched,
}

fn token_stage(ql: &Vec<char>, tl: &Vec<char>) -> (r: TokenOutcome)
    requires
        in_memory(tl@),
    ensures
        ({
            let tokens = split_whitespace(ql@);
            let ts = if tokens.len() > 1 {
                token_scan(tokens, tl@, tokens.len())
            } else {
                TokenScan::Unmatched
            };
            match r {
                TokenOutcome::Matched(points, minus) => ts == TokenScan::Running {
                    points: points as int,
                    minus: minus as int,
                } && points < 0x1_0000_0000_0000_0000_0000,
                TokenOutcome::Unmatched => ts is Unmatched,
            }
        }),
{
    let tokens = split_whitespace_chars(ql);
    let n = tokens.len();
    let ghost toks = split_whitespace(ql@);
    proof {
        lemma_ws_split_count(ql@);
        lemma_byte_len_bounds(ql@);
        lemma_byte_len_bounds(tl@);
        lemma_take_full(tl@);
    }
    if n <= 1 {
        return TokenOutcome::Unmatched;
    }
    let mut points: u128 = 0;
    let mut minus: u128 = 0;
    let mut i: usize = 0;
    while i < n
        invariant
            n == tokens@.len() == toks.len(),
            toks == split_whitespace(ql@),
            n > 1,
            in_memory(tl@),
            tl@.take(tl@.len() as int) == tl@,
            views(tokens@) == toks,
            i <= n,
            points <= 30 * i,
            minus <= i * 0x1_0000_0000_0000_0000,
            token_scan(toks, tl@, i as nat) == (TokenScan::Running {
                points: points as int,
                minus: minus as int,
            }),
        decreases n - i,
    {
        let tok = &tokens[i];
        assert(tok@ == toks[i as int]);
        match find_chars(tl, tok) {
            Some(p) => {
                proof {
                    lemma_find_from_bounds(tl@, tok@, 0);
                    lemma_byte_len_prefix(tl@, p as int, tl@.len() as int);
                }
                let bp = prefix_bytes(tl, p);
                assert(minus + bp <= (i + 1) * 0x1_0000_0000_0000_0000) by (nonlinear_arith)
                    requires
                        minus <= i * 0x1_0000_0000_0000_0000,
                        bp < 0x1_0000_0000_0000_0000,
                ;
                assert((i + 1) * 0x1_0000_0000_0000_0000 <= u128::MAX) by (nonlinear_arith)
                    requires
                        i < n,
                        n <= usize::MAX,
                        usize::MAX < 0x1_0000_0000_0000_0000,
                ;
                points = points + 30;
                minus = minus + bp as u128;
            },
            None => {
                if retry_chars(tok, tl) {
                    points = points + 15;
                } else {
                    proof {
                        assert(token_scan(toks, tl@, (i + 1) as nat) is Unmatched);
                        lemma_token_scan_sticks(toks, tl@, (i + 1) as nat, n as nat);
                    }
                    return TokenOutcome::Unmatched;
                }
            },
        }
        i = i + 1;
    }
    TokenOutcome::Matched(points, minus)
}

enum PathScanExec {
    NoMatch,
    Prefix,
    Subsequence,
}

fn path_stage(ql: &Vec<char>, tl: &Vec<char>) -> (r: PathScanExec)
    ensures
        ({
            let segs = path_segments(tl@);
            let ps = path_scan(segs, ql@, segs.len());
            match r {
                PathScanExec::NoMatch => ps is NoMatch,
                PathScanExec::Prefix => ps is Prefix,
                PathScanExec::Subsequence => ps is Subsequence,
            }
        }),
{
    let segs = path_segments_chars(tl);
    let ghost gsegs = path_segments(tl@);
    let n = segs.len();
    let mut i: usize = 0;
    while i < n
        invariant
            n == segs@.len() == gsegs.len(),
            gsegs == path_segments(tl@),
            views(segs@) == gsegs,
            i <= n,
            path_scan(gsegs, ql@, i as nat) is NoMatch,
        decreases n - i,
    {
        let seg = &segs[i];
        assert(seg@ == gsegs[i as int]);
        if starts_with_chars(seg, ql) {
            proof {
                assert(path_scan(gsegs, ql@, (i + 1) as nat) is Prefix);
                lemma_path_scan_sticks(gsegs, ql@, (i + 1) as nat, n as nat);
            }
            return PathScanExec::Prefix;
        }
        if subseq_chars(ql, seg) {
            proof {
                assert(path_scan(gsegs, ql@, (i + 1) as nat) is Subsequence);
                lemma_path_scan_sticks(gsegs, ql@, (i + 1) as nat, n as nat);
            }
            return PathScanExec::Subsequence;
        }
        i = i + 1;
    }
    PathScanExec::NoMatch
}

fn char_stage_exec(ql: &Vec<char>, t: &Vec<char>, tl: &Vec<char>) -> (r: (u128, u128))
    ensures
        char_stage(ql@, t@, tl@) == (r.0 as int, r.1 as int),
        r.0 < 0x1_0000_0000_0000_0000_0000,
        r.1 < 0x1_0000_0000_0000_0000_0000,
{
    let n = tl.len();
    let mut qi: usize = 0;
    let mut last: i128 = -1;
    let mut consec: u128 = 0;
    let mut points: u128 = 0;
    let mut count: u128 = 0;
    let mut idx: usize = 0;
    while idx < n
        invariant
            n == tl@.len(),
            idx <= n,
            char_scan(ql@, t@, tl@, idx as nat) == (CharScan {
                qi: qi as int,
                last: last as int,
                consec: consec as int,
                points: points as int,
                count: count as int,
            }),
        decreases n - idx,
    {
        proof {
            lemma_char_scan_bounds(ql@, t@, tl@, idx as nat);
        }
        if qi < ql.len() && tl[idx] == ql[qi] {
            if last >= 0 && idx as i128 == last + 1 {
                consec = consec + 5;
            } else {
                consec = 0;
            }
            let mut gain: u128 = 10;
            if idx == 0 || {
                let p = tl[idx - 1];
                p == ' ' || p == '-' || p == '_' || p == '/' || p == '\\' || p == '.'
            } {
                gain = gain + 20;
            }
            if idx > 0 && idx < t.len() && is_uppercase(t[idx]) {
                gain = gain + 10;
            }
            points = points + gain;
            last = idx as i128;
            qi = qi + 1;
            count = count + 1;
        }
        idx = idx + 1;
    }
    proof {
        lemma_char_scan_bounds(ql@, t@, tl@, n as nat);
    }
    if qi < ql.len() {
        (0, 0)
    } else {
        let bonus: u128 = if consec > 0 {
            5
        } else {
            0
        };
        (points + consec + bonus, 10 * count)
    }
}

/// The score that `calculate_fuzzy_score` gives `query` against `target`.
pub open spec fn fuzzy_outcome(query: Seq<char>, target: Seq<char>) -> Option<Score> {
    match fuzzy_spec(query, lowercase(query), target, lowercase(target)) {
        Some((a, b)) => Some(exact_score(a, b, score_den(target))),
        None => None,
    }
}

/// Scores `query` against `target`, both lowercased first. `None` only where
/// the several-word rule's byte positions add up to `WORD_POSITIONS_LIMIT`
/// or more.
pub fn calculate_fuzzy_score(query: &str, target: &str) -> (r: Option<Score>)
    ensures
        score_matches(r, query@, lowercase(query@), target@, lowercase(target@)),
        r == fuzzy_outcome(query@, target@),
        r matches Some(s) ==> s.wf(),
{
    let query_lower = to_lowercase(query);
    let target_lower = to_lowercase(target);
    let _ = str_bytes(query);
    let _ = str_bytes(query_lower.as_str());
    let _ = str_bytes(target);
    let _ = str_bytes(target_lower.as_str());
    let q = chars_of(query);
    let ql = chars_of(query_lower.as_str());
    let t = chars_of(target);
    let tl = chars_of(target_lower.as_str());
    let r = score_chars(&q, &ql, &t, &tl);
    proof {
        if let Some((a, b)) = fuzzy_spec(q@, ql@, t@, tl@) {
            lemma_exact_score(r->0, a, b, score_den(t@));
        }
    }
    r
}

// ---------------------------------------------------------------------------
// Laws of the score
// ---------------------------------------------------------------------------

/// `query`, `target` and their lowercase forms can all be texts in memory.
pub open spec fn scorable(query: Seq<char>, target: Seq<char>) -> bool {
    in_memory(query) && in_memory(lowercase(query)) && in_memory(target) && in_memory(
        lowercase(target),
    )
}

/// An empty query scores 1 against every target.
pub proof fn law_empty_query_scores_one(target: Seq<char>)
    ensures
        fuzzy_outcome(Seq::empty(), target) == Some(exact_score(1, 0, score_den(target))),
{
}

/// A query equal to the target, up to case, scores 100.
pub proof fn law_exact_match_scores_hundred(query: Seq<char>, target: Seq<char>)
    requires
        query.len() > 0,
        lowercase(query) == lowercase(target),
    ensures
        fuzzy_outcome(query, target) == Some(exact_score(100, 0, score_den(target))),
{
}

/// A query that starts the target, up to case, without being all of it scores
/// above 90; at most 100 where the query is not longer than the target.
pub proof fn law_prefix_scores_above_ninety(query: Seq<char>, target: Seq<char>)
    requires
        query.len() > 0,
        lowercase(query) != lowercase(target),
        is_prefix(lowercase(query), lowercase(target)),
        scorable(query, target),
    ensures
        fuzzy_outcome(query, target) matches Some(s) && s.wf() && s.scaled() > 90 * s.den,
        byte_len(query) <= byte_len(target) ==> (fuzzy_outcome(query, target) matches Some(s)
            && s.scaled() <= 100 * s.den),
{
    let den = score_den(target);
    lemma_byte_len_bounds(query);
    lemma_exact_score_is(90, 10 * byte_len(query) as int, den);
}

/// A query that stands inside the target, up to case, but does not start it
/// scores at most 90; above 70 where lowercasing does not lengthen the target.
pub proof fn law_substring_scores_seventy_to_ninety(query: Seq<char>, target: Seq<char>)
    requires
        query.len() > 0,
        !is_prefix(lowercase(query), lowercase(target)),
        find(lowercase(target), lowercase(query)) is Some,
        scorable(query, target),
    ensures
        fuzzy_outcome(query, target) matches Some(s) && s.wf() && s.scaled() <= 90 * s.den,
        byte_len(lowercase(target)) <= byte_len(target) ==> (fuzzy_outcome(query, target) matches Some(
            s,
        ) && s.scaled() > 70 * s.den),
{
    let ql = lowercase(query);
    let tl = lowercase(target);
    let pos = find(tl, ql)->0;
    let den = score_den(target);
    lemma_find_from_bounds(tl, ql, 0);
    assert(ql != tl) by {
        if ql == tl {
            assert(tl.take(ql.len() as int) =~= tl);
        }
    }
    lemma_byte_len_prefix(tl, pos, tl.len() as int);
    lemma_take_full(tl);
    let bl = byte_len(tl.take(pos)) as int;
    lemma_exact_score_is(90, -20 * bl, den);
    if byte_len(tl) <= byte_len(target) {
        assert(ql.len() > 0) by {
            if ql.len() == 0 {
                assert(tl.take(0) =~= ql);
            }
        }
        assert(pos < tl.len());
        lemma_byte_len_step(tl, pos);
        lemma_byte_len_prefix(tl, pos + 1, tl.len() as int);
        assert(bl < byte_len(target));
    }
}

// A single-word query whose characters do not all appear, in order, in the
// target matches no rule but the character-by-character one, and scores 0
// there. The lemmas below show that every other rule implies a subsequence.

proof fn lemma_prefix_subseq(p: Seq<char>, s: Seq<char>)
    requires
        is_prefix(p, s),
    ensures
        is_subseq(p, s),
{
    lemma_subseq_refl(p);
    lemma_subseq_of_piece(p, s, 0, p.len() as int);
    assert(s.subrange(0, p.len() as int) =~= s.take(p.len() as int));
}

/// `p` is a contiguous piece of `s`.
spec fn is_piece(p: Seq<char>, s: Seq<char>) -> bool {
    exists|a: int, b: int| 0 <= a <= b <= s.len() && #[trigger] s.subrange(a, b) == p
}

proof fn lemma_piece_subseq(x: Seq<char>, p: Seq<char>, s: Seq<char>)
    requires
        is_piece(p, s),
        is_subseq(x, p),
    ensures
        is_subseq(x, s),
{
    let (a, b) = choose|a: int, b: int| 0 <= a <= b <= s.len() && #[trigger] s.subrange(a, b) == p;
    lemma_subseq_of_piece(x, s, a, b);
}

proof fn lemma_split_pieces(s: Seq<char>)
    ensures
        ({
            let (done, cur) = sep_split_state(s);
            &&& forall|k: int| 0 <= k < done.len() ==> is_piece(#[trigger] done[k], s)
            &&& cur.len() <= s.len()
            &&& cur == s.subrange(s.len() - cur.len(), s.len() as int)
        }),
    decreases s.len(),
{
    if s.len() > 0 {
        let d = s.drop_last();
        lemma_split_pieces(d);
        let (done0, cur0) = sep_split_state(d);
        let (done, cur) = sep_split_state(s);
        assert forall|k: int| 0 <= k < done0.len() implies is_piece(#[trigger] done0[k], s) by {
            let (a, b) = choose|a: int, b: int|
                0 <= a <= b <= d.len() && #[trigger] d.subrange(a, b) == done0[k];
            assert(s.subrange(a, b) =~= d.subrange(a, b));
        }
        if is_path_sep(s.last()) {
            let a = d.len() - cur0.len();
            assert(s.subrange(a, d.len() as int) =~= cur0);
            assert forall|k: int| 0 <= k < done.len() implies is_piece(#[trigger] done[k], s) by {
                if k == done0.len() {
                    assert(done[k] == cur0);
                    assert(s.subrange(a, d.len() as int) == done[k]);
                } else {
                    assert(done[k] == done0[k]);
                }
            }
            assert(s.subrange(s.len() as int, s.len() as int) =~= cur);
        } else {
            assert(cur =~= s.subrange(s.len() - cur.len(), s.len() as int));
        }
    }
}

proof fn lemma_segment_subseq(x: Seq<char>, s: Seq<char>, k: int)
    requires
        0 <= k < path_segments(s).len(),
        is_subseq(x, path_segments(s)[k]),
    ensures
        is_subseq(x, s),
{
    lemma_split_pieces(s);
    let (done, cur) = sep_split_state(s);
    if k < done.len() {
        assert(is_piece(done[k], s));
        lemma_piece_subseq(x, done[k], s);
    } else {
        lemma_subseq_of_piece(x, s, s.len() - cur.len(), s.len() as int);
    }
}

proof fn lemma_path_scan_found(segs: Seq<Seq<char>>, ql: Seq<char>, n: nat)
    requires
        n <= segs.len(),
        path_scan(segs, ql, n) is Prefix || path_scan(segs, ql, n) is Subsequence,
    ensures
        exists|k: int|
            0 <= k < n && (is_prefix(ql, #[trigger] segs[k]) || is_subseq(ql, segs[k])),
    decreases n,
{
    let prev = path_scan(segs, ql, (n - 1) as nat);
    if prev is NoMatch {
        let k = n - 1;
        assert(is_prefix(ql, segs[k]) || is_subseq(ql, segs[k]));
    } else {
        lemma_path_scan_found(segs, ql, (n - 1) as nat);
    }
}

proof fn lemma_char_scan_subseq(ql: Seq<char>, t: Seq<char>, tl: Seq<char>, n: nat)
    requires
        n <= tl.len(),
    ensures
        ({
            let s = char_scan(ql, t, tl, n);
            let m = if s.qi <= ql.len() {
                s.qi
            } else {
                ql.len() as int
            };
            is_subseq(ql.take(m), tl.take(n as int))
        }),
    decreases n,
{
    lemma_char_scan_bounds(ql, t, tl, n);
    if n == 0 {
        assert(ql.take(0) =~= Seq::<char>::empty());
    } else {
        let p = (n - 1) as nat;
        lemma_char_scan_subseq(ql, t, tl, p);
        lemma_char_scan_bounds(ql, t, tl, p);
        let s0 = char_scan(ql, t, tl, p);
        let s = char_scan(ql, t, tl, n);
        let m0 = if s0.qi <= ql.len() {
            s0.qi
        } else {
            ql.len() as int
        };
        let c = tl[p as int];
        assert(tl.take(n as int) =~= tl.take(p as int).push(c));
        if s.qi == s0.qi + 1 && s0.qi < ql.len() {
            assert(ql.take(m0 + 1) =~= ql.take(m0).push(c));
            lemma_subseq_push(ql.take(m0), tl.take(p as int), c);
        } else {
            lemma_subseq_suffix_text(ql.take(m0), tl.take(p as int), seq![c]);
            assert(tl.take(p as int) + seq![c] =~= tl.take(n as int));
        }
    }
}

/// A query whose characters do not all appear, in order, in the target (up
/// to case), and which the several-word rule passes over, scores 0.
proof fn lemma_unmatched_query_scores_zero(query: Seq<char>, target: Seq<char>)
    requires
        query.len() > 0,
        !is_subseq(lowercase(query), lowercase(target)),
        ({
            let tokens = split_whitespace(lowercase(query));
            tokens.len() <= 1 || token_scan(tokens, lowercase(target), tokens.len()) is Unmatched
        }),
    ensures
        fuzzy_outcome(query, target) == Some(exact_score(0, 0, score_den(target))),
{
    let ql = lowercase(query);
    let tl = lowercase(target);
    if tl == ql {
        lemma_subseq_refl(ql);
    }
    if is_prefix(ql, tl) {
        lemma_prefix_subseq(ql, tl);
    }
    if find(tl, ql) is Some {
        lemma_find_from_bounds(tl, ql, 0);
        let p = find(tl, ql)->0;
        lemma_subseq_refl(ql);
        lemma_subseq_of_piece(ql, tl, p, p + ql.len());
    }
    let segs = path_segments(tl);
    let ps = path_scan(segs, ql, segs.len());
    if ps is Prefix || ps is Subsequence {
        lemma_path_scan_found(segs, ql, segs.len());
        let k = choose|k: int|
            0 <= k < segs.len() && (is_prefix(ql, #[trigger] segs[k]) || is_subseq(ql, segs[k]));
        if is_prefix(ql, segs[k]) {
            lemma_prefix_subseq(ql, segs[k]);
        }
        lemma_segment_subseq(ql, tl, k);
    }
    let cs = char_scan(ql, target, tl, tl.len());
    if cs.qi >= ql.len() {
        lemma_char_scan_subseq(ql, target, tl, tl.len());
        lemma_take_full(ql);
        lemma_take_full(tl);
    }
}

/// A query of one word whose characters do not all appear, in order, in the
/// target (up to case) scores 0.
pub proof fn law_missing_character_scores_zero(query: Seq<char>, target: Seq<char>)
    requires
        query.len() > 0,
        split_whitespace(lowercase(query)).len() <= 1,
        !is_subseq(lowercase(query), lowercase(target)),
    ensures
        fuzzy_outcome(query, target) == Some(exact_score(0, 0, score_den(target))),
{
    lemma_unmatched_query_scores_zero(query, target);
}

proof fn lemma_find_subseq(w: Seq<char>, tl: Seq<char>)
    requires
        find(tl, w) is Some,
    ensures
        is_subseq(w, tl),
{
    lemma_find_from_bounds(tl, w, 0);
    let p = find(tl, w)->0;
    lemma_subseq_refl(w);
    lemma_subseq_of_piece(w, tl, p, p + w.len());
}

proof fn lemma_retry_subseq(w: Seq<char>, tl: Seq<char>, j: int)
    requires
        retry_from(w, tl, j),
    ensures
        is_subseq(w, tl),
    decreases tl.len() - j,
{
    if starts_fuzzy(tl.skip(j), w) {
        if w.len() > 0 {
            assert(tl.skip(j) =~= tl.subrange(j, tl.len() as int));
            lemma_subseq_of_piece(w, tl, j, tl.len() as int);
        }
    } else {
        lemma_retry_subseq(w, tl, j + 1);
    }
}

proof fn lemma_retry_reaches(w: Seq<char>, tl: Seq<char>, i: int, j: int)
    requires
        0 <= i <= j < tl.len(),
        starts_fuzzy(tl.skip(j), w),
    ensures
        retry_from(w, tl, i),
    decreases j - i,
{
    if i < j && !starts_fuzzy(tl.skip(i), w) {
        lemma_retry_reaches(w, tl, i + 1, j);
    }
}

/// A word occurs in the target as a substring or as a fuzzy token exactly
/// when its characters appear there in order.
proof fn lemma_word_occurs(w: Seq<char>, tl: Seq<char>)
    ensures
        (find(tl, w) is Some || retry_from(w, tl, 0)) <==> is_subseq(w, tl),
{
    if find(tl, w) is Some {
        lemma_find_subseq(w, tl);
    }
    if retry_from(w, tl, 0) {
        lemma_retry_subseq(w, tl, 0);
    }
    if is_subseq(w, tl) && w.len() > 0 {
        lemma_subseq_start(w, tl);
        let j = choose|j: int| 0 <= j < tl.len() && tl[j] == w[0] && is_subseq(w, #[trigger] tl.skip(j));
        lemma_retry_reaches(w, tl, 0, j);
    }
    if w.len() == 0 {
        assert(tl.subrange(0, 0) =~= w);
    }
}

/// The several-word rule goes on over the words of a query exactly while
/// every word seen so far occurs in the target, as a substring or as a fuzzy
/// token: that is, while the characters of each appear in the target in
/// order. A word that occurs in no form ends the rule, whichever word it is.
pub proof fn law_every_word_must_occur(tokens: Seq<Seq<char>>, tl: Seq<char>, n: nat)
    requires
        n <= tokens.len(),
    ensures
        token_scan(tokens, tl, n) is Running <==> forall|k: int| 0 <= k < n ==> is_subseq(#[trigger] tokens[k], tl),
    decreases n,
{
    if n > 0 {
        law_every_word_must_occur(tokens, tl, (n - 1) as nat);
        lemma_word_occurs(tokens[n - 1], tl);
        if !(token_scan(tokens, tl, n) is Running) {
            if token_scan(tokens, tl, (n - 1) as nat) is Running {
                assert(!is_subseq(tokens[n - 1], tl));
            }
        }
    }
}

proof fn lemma_words_pieces(s: Seq<char>)
    ensures
        ({
            let (done, cur) = ws_split_state(s);
            &&& forall|k: int| 0 <= k < done.len() ==> is_piece(#[trigger] done[k], s)
            &&& cur.len() <= s.len()
            &&& cur == s.subrange(s.len() - cur.len(), s.len() as int)
        }),
        forall|k: int| 0 <= k < split_whitespace(s).len() ==> is_piece(#[trigger] split_whitespace(s)[k], s),
    decreases s.len(),
{
    if s.len() > 0 {
        let d = s.drop_last();
        lemma_words_pieces(d);
        let (done0, cur0) = ws_split_state(d);
        let (done, cur) = ws_split_state(s);
        assert forall|k: int| 0 <= k < done0.len() implies is_piece(#[trigger] done0[k], s) by {
            let (a, b) = choose|a: int, b: int|
                0 <= a <= b <= d.len() && #[trigger] d.subrange(a, b) == done0[k];
            assert(s.subrange(a, b) =~= d.subrange(a, b));
        }
        if is_white_space(s.last()) {
            let a = d.len() - cur0.len();
            assert(s.subrange(a, d.len() as int) =~= cur0);
            assert forall|k: int| 0 <= k < done.len() implies is_piece(#[trigger] done[k], s) by {
                if k == done0.len() {
                    assert(s.subrange(a, d.len() as int) == done[k]);
                } else {
                    assert(done[k] == done0[k]);
                }
            }
            assert(s.subrange(s.len() as int, s.len() as int) =~= cur);
        } else {
            assert(cur =~= s.subrange(s.len() - cur.len(), s.len() as int));
        }
    }
    let (done, cur) = ws_split_state(s);
    let words = split_whitespace(s);
    assert forall|k: int| 0 <= k < words.len() implies is_piece(#[trigger] words[k], s) by {
        if k < done.len() {
            assert(words[k] == done[k]);
        } else {
            assert(s.subrange(s.len() - cur.len(), s.len() as int) == words[k]);
        }
    }
}

/// A query, of one word or several, with a word whose characters do not all
/// appear, in order, in the target (up to case) scores 0: the several-word
/// rule needs every word, and no other rule but the character-by-character
/// one applies, which misses that word's characters.
pub proof fn law_absent_word_scores_zero(query: Seq<char>, target: Seq<char>, k: int)
    requires
        query.len() > 0,
        0 <= k < split_whitespace(lowercase(query)).len(),
        !is_subseq(split_whitespace(lowercase(query))[k], lowercase(target)),
    ensures
        fuzzy_outcome(query, target) == Some(exact_score(0, 0, score_den(target))),
{
    let ql = lowercase(query);
    let tl = lowercase(target);
    let words = split_whitespace(ql);
    law_every_word_must_occur(words, tl, words.len());
    lemma_words_pieces(ql);
    if is_subseq(ql, tl) {
        assert(is_piece(words[k], ql));
        let (a, b) = choose|a: int, b: int| 0 <= a <= b <= ql.len() && #[trigger] ql.subrange(a, b) == words[k];
        lemma_subseq_subrange(ql, tl, a, b);
    }
    lemma_unmatched_query_scores_zero(query, target);
}

/// Every query scores against every target, except a query of several words
/// whose byte positions in the target add up to `WORD_POSITIONS_LIMIT` or
/// more; in particular a query of one word always scores.
pub proof fn law_scored_unless_word_positions_overflow(query: Seq<char>, target: Seq<char>)
    ensures
        fuzzy_outcome(query, target) is None ==> {
            let tokens = split_whitespace(lowercase(query));
            &&& tokens.len() > 1
            &&& token_scan(tokens, lowercase(target), tokens.len()) matches TokenScan::Running {
                minus,
                ..
            } && minus >= WORD_POSITIONS_LIMIT
        },
{
}

} // verus!
