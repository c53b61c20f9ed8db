//! Recognising temperature, distance and weight conversion queries, the
//! conversion factors of the units, and the results that show a conversion.
//!
//! A query is read as `number [spaces] unit spaces link spaces unit`, the way
//! a leftmost-first regular expression of that shape reads it: the match
//! starts at the first position where one exists, `\d` is `[0-9]`, a space is
//! one of `\t \n \x0B \x0C \r` and the blank, and of the alternatives for a
//! word the first one in order with which the rest matches is taken.
use vstd::prelude::*;
use crate::score::Score;
use crate::text::{
    chars_of, concat, lowercase, occurs_at, matches_at, string_of, to_lowercase, views,
    chars_equal,
};
use crate::results::{SearchResult, SearchResultCategory, ResultView};

verus! {

pub open spec fn is_regex_space(c: char) -> bool {
    c == '\t' || c == '\n' || c == '\x0B' || c == '\x0C' || c == '\r' || c == ' '
}

pub open spec fn is_digit(c: char) -> bool {
    '0' <= c && c <= '9'
}

/// Length of the run of spaces in `s` starting at `p`.
pub open spec fn space_run(s: Seq<char>, p: int) -> nat
    decreases s.len() - p,
{
    if 0 <= p < s.len() && is_regex_space(s[p]) {
        1 + space_run(s, p + 1)
    } else {
        0
    }
}

/// Length of the run of digits in `s` starting at `p`.
pub open spec fn digit_run(s: Seq<char>, p: int) -> nat
    decreases s.len() - p,
{
    if 0 <= p < s.len() && is_digit(s[p]) {
        1 + digit_run(s, p + 1)
    } else {
        0
    }
}

/// End of the number `\d+(\.\d+)?` starting at `p`: all the digits, and a
/// point with all the digits after it when there is at least one.
pub open spec fn number_end(s: Seq<char>, p: int) -> Option<int> {
    let d = digit_run(s, p);
    if d == 0 {
        None
    } else {
        let e = p + d;
        if e < s.len() && s[e] == '.' && digit_run(s, e + 1) > 0 {
            Some(e + 1 + digit_run(s, e + 1))
        } else {
            Some(e)
        }
    }
}

/// The words of a conversion query: the first unit, the linking word and the
/// second unit, each a list of alternatives in order of preference.
pub struct Grammar {
    pub first: Seq<Seq<char>>,
    pub links: Seq<Seq<char>>,
    pub second: Seq<Seq<char>>,
}

/// First alternative from index `k` on that stands at `p`.
pub open spec fn second_from(s: Seq<char>, p: int, alts: Seq<Seq<char>>, k: int) -> Option<int>
    decreases alts.len() - k,
{
    if k < 0 || k >= alts.len() {
        None
    } else if occurs_at(s, alts[k], p) {
        Some(k)
    } else {
        second_from(s, p, alts, k + 1)
    }
}

/// After the linking word, ending at `p`: spaces, then the second unit.
pub open spec fn after_link(s: Seq<char>, p: int, g: Grammar) -> Option<int> {
    let w = space_run(s, p);
    if w == 0 {
        None
    } else {
        second_from(s, p + w, g.second, 0)
    }
}

/// First linking word from index `k` on that stands at `q` and is followed by
/// the rest; the index of the second unit chosen.
pub open spec fn link_from(s: Seq<char>, q: int, g: Grammar, k: int) -> Option<int>
    decreases g.links.len() - k,
{
    if k < 0 || k >= g.links.len() {
        None
    } else if occurs_at(s, g.links[k], q) && after_link(s, q + g.links[k].len(), g) is Some {
        after_link(s, q + g.links[k].len(), g)
    } else {
        link_from(s, q, g, k + 1)
    }
}

/// After the first unit, ending at `p`: spaces, a linking word and the rest.
pub open spec fn after_first(s: Seq<char>, p: int, g: Grammar) -> Option<int> {
    let w = space_run(s, p);
    if w == 0 {
        None
    } else {
        link_from(s, p + w, g, 0)
    }
}

/// First unit alternative from index `k` on that stands at `p` and is followed
/// by the rest; the indices of both units chosen.
pub open spec fn first_from(s: Seq<char>, p: int, g: Grammar, k: int) -> Option<(int, int)>
    decreases g.first.len() - k,
{
    if k < 0 || k >= g.first.len() {
        None
    } else if occurs_at(s, g.first[k], p) && after_first(s, p + g.first[k].len(), g) is Some {
        Some((k, after_first(s, p + g.first[k].len(), g)->0))
    } else {
        first_from(s, p, g, k + 1)
    }
}

/// A match starting at `start`: the end of the number and the two unit indices.
pub open spec fn match_at(s: Seq<char>, start: int, g: Grammar) -> Option<(int, int, int)> {
    match number_end(s, start) {
        None => None,
        Some(e) => match first_from(s, e + space_run(s, e), g, 0) {
            Some((i1, i2)) => Some((e, i1, i2)),
            None => None,
        },
    }
}

/// The leftmost match at or after `start`: its start, the end of the number,
/// and the two unit indices.
pub open spec fn search_from(s: Seq<char>, start: int, g: Grammar) -> Option<(int, int, int, int)>
    decreases s.len() - start,
{
    if start < 0 || start >= s.len() {
        None
    } else {
        match match_at(s, start, g) {
            Some((e, i1, i2)) => Some((start, e, i1, i2)),
            None => search_from(s, start + 1, g),
        }
    }
}

// ---------------------------------------------------------------------------
// Executable matcher
// ---------------------------------------------------------------------------

struct GrammarExec {
    first: Vec<Vec<char>>,
    links: Vec<Vec<char>>,
    second: Vec<Vec<char>>,
}

impl GrammarExec {
    spec fn matches_spec(&self, g: Grammar) -> bool {
        &&& views(self.first@) == g.first
        &&& views(self.links@) == g.links
        &&& views(self.second@) == g.second
    }
}

fn regex_space(c: char) -> (b: bool)
    ensures
        b == is_regex_space(c),
{
    c == '\t' || c == '\n' || c == '\x0B' || c == '\x0C' || c == '\r' || c == ' '
}

fn space_run_exec(s: &Vec<char>, p: usize) -> (r: usize)
    requires
        p <= s@.len(),
    ensures
        r == space_run(s@, p as int),
        p + r <= s@.len(),
{
    let mut i = p;
    while i < s.len() && regex_space(s[i])
        invariant
            p <= i <= s@.len(),
            space_run(s@, p as int) == (i - p) + space_run(s@, i as int),
        decreases s@.len() - i,
    {
        i = i + 1;
    }
    i - p
}

fn digit_run_exec(s: &Vec<char>, p: usize) -> (r: usize)
    requires
        p <= s@.len(),
    ensures
        r == digit_run(s@, p as int),
        p + r <= s@.len(),
{
    let mut i = p;
    while i < s.len() && '0' <= s[i] && s[i] <= '9'
        invariant
            p <= i <= s@.len(),
            digit_run(s@, p as int) == (i - p) + digit_run(s@, i as int),
        decreases s@.len() - i,
    {
        i = i + 1;
    }
    i - p
}

fn number_end_exec(s: &Vec<char>, p: usize) -> (r: Option<usize>)
    requires
        p <= s@.len(),
    ensures
        match r {
            Some(e) => number_end(s@, p as int) == Some(e as int) && e <= s@.len(),
            None => number_end(s@, p as int) is None,
        },
{
    let _len = s.len();
    let d = digit_run_exec(s, p);
    if d == 0 {
        return None;
    }
    let e = p + d;
    if e < s.len() && s[e] == '.' {
        let d2 = digit_run_exec(s, e + 1);
        if d2 > 0 {
            return Some(e + 1 + d2);
        }
    }
    Some(e)
}

fn stands_at(s: &Vec<char>, w: &Vec<char>, p: usize) -> (b: bool)
    ensures
        b == occurs_at(s@, w@, p as int),
{
    if w.len() > s.len() || p > s.len() - w.len() {
        return false;
    }
    matches_at(s, w, p)
}

fn second_exec(s: &Vec<char>, p: usize, alts: &Vec<Vec<char>>) -> (r: Option<usize>)
    ensures
        match r {
            Some(k) => second_from(s@, p as int, views(alts@), 0) == Some(k as int),
            None => second_from(s@, p as int, views(alts@), 0) is None,
        },
{
    let mut k: usize = 0;
    while k < alts.len()
        invariant
            k <= alts@.len(),
            second_from(s@, p as int, views(alts@), 0) == second_from(
                s@,
                p as int,
                views(alts@),
                k as int,
            ),
        decreases alts@.len() - k,
    {
        assert(alts@[k as int]@ == views(alts@)[k as int]);
        if stands_at(s, &alts[k], p) {
            return Some(k);
        }
        k = k + 1;
    }
    None
}

fn after_link_exec(s: &Vec<char>, p: usize, g: &GrammarExec, Ghost(gs): Ghost<Grammar>) -> (r:
    Option<usize>)
    requires
        p <= s@.len(),
        g.matches_spec(gs),
    ensures
        match r {
            Some(k) => after_link(s@, p as int, gs) == Some(k as int),
            None => after_link(s@, p as int, gs) is None,
        },
{
    let _len = s.len();
    let w = space_run_exec(s, p);
    if w == 0 {
        return None;
    }
    second_exec(s, p + w, &g.second)
}

fn link_exec(s: &Vec<char>, q: usize, g: &GrammarExec, Ghost(gs): Ghost<Grammar>) -> (r: Option<
    usize,
>)
    requires
        q <= s@.len(),
        g.matches_spec(gs),
    ensures
        match r {
            Some(k) => link_from(s@, q as int, gs, 0) == Some(k as int),
            None => link_from(s@, q as int, gs, 0) is None,
        },
{
    let _len = s.len();
    let mut k: usize = 0;
    while k < g.links.len()
        invariant
            q <= s@.len(),
            _len == s@.len(),
            g.matches_spec(gs),
            k <= g.links@.len(),
            link_from(s@, q as int, gs, 0) == link_from(s@, q as int, gs, k as int),
        decreases g.links@.len() - k,
    {
        let w = &g.links[k];
        assert(w@ == gs.links[k as int]);
        if stands_at(s, w, q) {
            match after_link_exec(s, q + w.len(), g, Ghost(gs)) {
                Some(i2) => {
                    return Some(i2);
                },
                None => {},
            }
        }
        k = k + 1;
    }
    None
}

fn after_first_exec(s: &Vec<char>, p: usize, g: &GrammarExec, Ghost(gs): Ghost<Grammar>) -> (r:
    Option<usize>)
    requires
        p <= s@.len(),
        g.matches_spec(gs),
    ensures
        match r {
            Some(k) => after_first(s@, p as int, gs) == Some(k as int),
            None => after_first(s@, p as int, gs) is None,
        },
{
    let _len = s.len();
    let w = space_run_exec(s, p);
    if w == 0 {
        return None;
    }
    link_exec(s, p + w, g, Ghost(gs))
}

fn first_exec(s: &Vec<char>, p: usize, g: &GrammarExec, Ghost(gs): Ghost<Grammar>) -> (r: Option<
    (usize, usize),
>)
    requires
        p <= s@.len(),
        g.matches_spec(gs),
    ensures
        match r {
            Some((i1, i2)) => first_from(s@, p as int, gs, 0) == Some((i1 as int, i2 as int)),
            None => first_from(s@, p as int, gs, 0) is None,
        },
{
    let _len = s.len();
    let mut k: usize = 0;
    while k < g.first.len()
        invariant
            p <= s@.len(),
            _len == s@.len(),
            g.matches_spec(gs),
            k <= g.first@.len(),
            first_from(s@, p as int, gs, 0) == first_from(s@, p as int, gs, k as int),
        decreases g.first@.len() - k,
    {
        let w = &g.first[k];
        assert(w@ == gs.first[k as int]);
        if stands_at(s, w, p) {
            match after_first_exec(s, p + w.len(), g, Ghost(gs)) {
                Some(i2) => {
                    return Some((k, i2));
                },
                None => {},
            }
        }
        k = k + 1;
    }
    None
}

fn search_exec(s: &Vec<char>, g: &GrammarExec, Ghost(gs): Ghost<Grammar>) -> (r: Option<
    (usize, usize, usize, usize),
>)
    requires
        g.matches_spec(gs),
    ensures
        match r {
            Some((st, e, i1, i2)) => search_from(s@, 0, gs) == Some(
                (st as int, e as int, i1 as int, i2 as int),
            ) && st <= e <= s@.len(),
            None => search_from(s@, 0, gs) is None,
        },
{
    let mut start: usize = 0;
    while start < s.len()
        invariant
            g.matches_spec(gs),
            start <= s@.len(),
            search_from(s@, 0, gs) == search_from(s@, start as int, gs),
        decreases s@.len() - start,
    {
        match number_end_exec(s, start) {
            Some(e) => {
                let sp = space_run_exec(s, e);
                match first_exec(s, e + sp, g, Ghost(gs)) {
                    Some((i1, i2)) => {
                        assert(digit_run(s@, start as int) > 0);
                        return Some((start, e, i1, i2));
                    },
                    None => {},
                }
            },
            None => {},
        }
        start = start + 1;
    }
    None
}

// ---------------------------------------------------------------------------
// The four kinds of conversion
// ---------------------------------------------------------------------------

/// Which conversion a query asks for.
#[derive(Clone, Copy, Debug, PartialEq, Eq, Structural)]
pub enum ConversionKind {
    CelsiusToFahrenheit,
    FahrenheitToCelsius,
    Distance,
    Weight,
}

pub open spec fn celsius_words() -> Seq<Seq<char>> {
    seq!["c"@, "celsius"@, "°c"@]
}

pub open spec fn fahrenheit_words() -> Seq<Seq<char>> {
    seq!["f"@, "fahrenheit"@, "°f"@]
}

/// The words of each kind of query, in the order they are tried.
pub open spec fn grammar_of(kind: ConversionKind) -> Grammar {
    match kind {
        ConversionKind::CelsiusToFahrenheit => Grammar {
            first: celsius_words(),
            links: seq!["in"@, "to"@, "is"@],
            second: fahrenheit_words(),
        },
        ConversionKind::FahrenheitToCelsius => Grammar {
            first: fahrenheit_words(),
            links: seq!["in"@, "to"@, "is"@],
            second: celsius_words(),
        },
        ConversionKind::Distance => Grammar {
            first: seq!["km"@, "kilometers"@, "kilometer"@],
            links: seq!["in"@, "to"@],
            second: seq![
                "mi"@,
                "miles"@,
                "mile"@,
                "m"@,
                "meters"@,
                "meter"@,
                "ft"@,
                "feet"@,
                "yds"@,
                "yd"@,
                "yards"@,
                "yard"@,
            ],
        },
        ConversionKind::Weight => Grammar {
            first: seq!["kg"@, "kilograms"@, "kilogram"@],
            links: seq!["in"@, "to"@],
            second: seq![
                "lb"@,
                "lbs"@,
                "lb"@,
                "pounds"@,
                "pound"@,
                "oz"@,
                "ounces"@,
                "ounce"@,
            ],
        },
    }
}

/// The kinds in the order a query is tried against them.
pub open spec fn kind_order() -> Seq<ConversionKind> {
    seq![
        ConversionKind::CelsiusToFahrenheit,
        ConversionKind::FahrenheitToCelsius,
        ConversionKind::Distance,
        ConversionKind::Weight,
    ]
}

fn word_list(words: &[&'static str]) -> (v: Vec<Vec<char>>)
    ensures
        views(v@) == words@.map_values(|w: &'static str| w@),
{
    let mut v: Vec<Vec<char>> = Vec::new();
    let mut i: usize = 0;
    while i < words.len()
        invariant
            i <= words@.len(),
            v@.len() == i,
            forall|j: int| 0 <= j < i ==> #[trigger] v@[j]@ == words@[j]@,
        decreases words@.len() - i,
    {
        v.push(chars_of(words[i]));
        i = i + 1;
    }
    assert(views(v@) =~= words@.map_values(|w: &'static str| w@));
    v
}

fn grammar_from(first: &[&'static str], links: &[&'static str], second: &[&'static str]) -> (g:
    GrammarExec)
    ensures
        g.matches_spec(
            Grammar {
                first: first@.map_values(|w: &'static str| w@),
                links: links@.map_values(|w: &'static str| w@),
                second: second@.map_values(|w: &'static str| w@),
            },
        ),
{
    GrammarExec { first: word_list(first), links: word_list(links), second: word_list(second) }
}

fn grammar_exec(kind: ConversionKind) -> (g: GrammarExec)
    ensures
        g.matches_spec(grammar_of(kind)),
{
    match kind {
        ConversionKind::CelsiusToFahrenheit => {
            let a: &[&'static str] = &["c", "celsius", "°c"];
            let b: &[&'static str] = &["in", "to", "is"];
            let c: &[&'static str] = &["f", "fahrenheit", "°f"];
            assert(a@.map_values(|w: &'static str| w@) =~= grammar_of(kind).first);
            assert(b@.map_values(|w: &'static str| w@) =~= grammar_of(kind).links);
            assert(c@.map_values(|w: &'static str| w@) =~= grammar_of(kind).second);
            grammar_from(a, b, c)
        },
        ConversionKind::FahrenheitToCelsius => {
            let a: &[&'static str] = &["f", "fahrenheit", "°f"];
            let b: &[&'static str] = &["in", "to", "is"];
            let c: &[&'static str] = &["c", "celsius", "°c"];
            assert(a@.map_values(|w: &'static str| w@) =~= grammar_of(kind).first);
            assert(b@.map_values(|w: &'static str| w@) =~= grammar_of(kind).links);
            assert(c@.map_values(|w: &'static str| w@) =~= grammar_of(kind).second);
            grammar_from(a, b, c)
        },
        ConversionKind::Distance => {
            let a: &[&'static str] = &["km", "kilometers", "kilometer"];
            let b: &[&'static str] = &["in", "to"];
            let c: &[&'static str] = &[
                "mi",
                "miles",
                "mile",
                "m",
                "meters",
                "meter",
                "ft",
                "feet",
                "yds",
                "yd",
                "yards",
                "yard",
            ];
            assert(a@.map_values(|w: &'static str| w@) =~= grammar_of(kind).first);
            assert(b@.map_values(|w: &'static str| w@) =~= grammar_of(kind).links);
            assert(c@.map_values(|w: &'static str| w@) =~= grammar_of(kind).second);
            grammar_from(a, b, c)
        },
        ConversionKind::Weight => {
            let a: &[&'static str] = &["kg", "kilograms", "kilogram"];
            let b: &[&'static str] = &["in", "to"];
            let c: &[&'static str] = &["lb", "lbs", "lb", "pounds", "pound", "oz", "ounces", "ounce"];
            assert(a@.map_values(|w: &'static str| w@) =~= grammar_of(kind).first);
            assert(b@.map_values(|w: &'static str| w@) =~= grammar_of(kind).links);
            assert(c@.map_values(|w: &'static str| w@) =~= grammar_of(kind).second);
            grammar_from(a, b, c)
        },
    }
}

/// A conversion query as read from the text: the kind, the number as written,
/// and the two unit words as matched.
#[derive(Clone, Debug)]
pub struct ConversionQuery {
    pub kind: ConversionKind,
    pub number: String,
    pub from_unit: String,
    pub to_unit: String,
}

/// The reading of the lowercased text `lower` as a query of kind `kind`.
pub open spec fn reading(lower: Seq<char>, kind: ConversionKind) -> Option<(Seq<char>, Seq<char>, Seq<char>)> {
    match search_from(lower, 0, grammar_of(kind)) {
        Some((st, e, i1, i2)) => Some(
            (lower.subrange(st, e), grammar_of(kind).first[i1], grammar_of(kind).second[i2]),
        ),
        None => None,
    }
}

/// The conversion that the lowercased `input` asks for: the first kind, in
/// `kind_order`, that reads somewhere in it.
pub fn conversion_query(input: &str) -> (r: Option<ConversionQuery>)
    ensures
        match r {
            Some(q) => exists|k: int|
                0 <= k < 4 && kind_order()[k] == q.kind && reading(
                    lowercase(input@),
                    q.kind,
                ) == Some((q.number@, q.from_unit@, q.to_unit@)) && forall|j: int|
                    0 <= j < k ==> reading(lowercase(input@), #[trigger] kind_order()[j]) is None,
            None => forall|k: int| 0 <= k < 4 ==> reading(lowercase(input@), #[trigger] kind_order()[k]) is None,
        },
{
    let lower_s = to_lowercase(input);
    let lower = chars_of(lower_s.as_str());
    let kinds = [
        ConversionKind::CelsiusToFahrenheit,
        ConversionKind::FahrenheitToCelsius,
        ConversionKind::Distance,
        ConversionKind::Weight,
    ];
    assert(kinds@ =~= kind_order());
    let mut k: usize = 0;
    while k < 4
        invariant
            kinds@ == kind_order(),
            lower@ == lowercase(input@),
            k <= 4,
            forall|j: int| 0 <= j < k ==> reading(lowercase(input@), #[trigger] kind_order()[j]) is None,
        decreases 4 - k,
    {
        let kind = kinds[k];
        let g = grammar_exec(kind);
        match search_exec(&lower, &g, Ghost(grammar_of(kind))) {
            Some((st, e, i1, i2)) => {
                proof {
                    lemma_search_indices(lower@, 0, grammar_of(kind));
                }
                let mut num: Vec<char> = Vec::new();
                let mut i: usize = st;
                while i < e
                    invariant
                        st <= i <= e <= lower@.len(),
                        num@ == lower@.subrange(st as int, i as int),
                    decreases e - i,
                {
                    num.push(lower[i]);
                    assert(num@ =~= lower@.subrange(st as int, i + 1));
                    i = i + 1;
                }
                let from = string_of(g.first[i1].as_slice());
                let to = string_of(g.second[i2].as_slice());
                assert(g.first@[i1 as int]@ == grammar_of(kind).first[i1 as int]);
                assert(g.second@[i2 as int]@ == grammar_of(kind).second[i2 as int]);
                return Some(
                    ConversionQuery { kind, number: string_of(num.as_slice()), from_unit: from, to_unit: to },
                );
            },
            None => {},
        }
        k = k + 1;
    }
    None
}

proof fn lemma_second_bounds(s: Seq<char>, p: int, alts: Seq<Seq<char>>, k: int)
    ensures
        second_from(s, p, alts, k) matches Some(i) ==> 0 <= i < alts.len(),
    decreases alts.len() - k,
{
    if !(k < 0 || k >= alts.len()) && !occurs_at(s, alts[k], p) {
        lemma_second_bounds(s, p, alts, k + 1);
    }
}

proof fn lemma_link_bounds(s: Seq<char>, q: int, g: Grammar, k: int)
    ensures
        link_from(s, q, g, k) matches Some(i) ==> 0 <= i < g.second.len(),
    decreases g.links.len() - k,
{
    if !(k < 0 || k >= g.links.len()) {
        if occurs_at(s, g.links[k], q) && after_link(s, q + g.links[k].len(), g) is Some {
            let p = q + g.links[k].len();
            lemma_second_bounds(s, p + space_run(s, p), g.second, 0);
        } else {
            lemma_link_bounds(s, q, g, k + 1);
        }
    }
}

proof fn lemma_first_bounds(s: Seq<char>, p: int, g: Grammar, k: int)
    ensures
        first_from(s, p, g, k) matches Some((i1, i2)) ==> 0 <= i1 < g.first.len() && 0 <= i2
            < g.second.len(),
    decreases g.first.len() - k,
{
    if !(k < 0 || k >= g.first.len()) {
        if occurs_at(s, g.first[k], p) && after_first(s, p + g.first[k].len(), g) is Some {
            let e = p + g.first[k].len();
            lemma_link_bounds(s, e + space_run(s, e), g, 0);
        } else {
            lemma_first_bounds(s, p, g, k + 1);
        }
    }
}

proof fn lemma_search_indices(s: Seq<char>, start: int, g: Grammar)
    ensures
        search_from(s, start, g) matches Some((st, e, i1, i2)) ==> 0 <= i1 < g.first.len() && 0
            <= i2 < g.second.len(),
    decreases s.len() - start,
{
    if !(start < 0 || start >= s.len()) {
        match number_end(s, start) {
            Some(e) => {
                lemma_first_bounds(s, e + space_run(s, e), g, 0);
            },
            None => {},
        }
        lemma_search_indices(s, start + 1, g);
    }
}

// ---------------------------------------------------------------------------
// Conversion factors
// ---------------------------------------------------------------------------

/// A conversion factor `num / den`: metres per unit of distance, kilograms per
/// unit of weight.
#[derive(Clone, Copy, Debug, PartialEq, Eq, Structural)]
pub struct Factor {
    pub num: u64,
    pub den: u64,
}

/// The units that conversions know, each with its factor as `(num, den)`.
pub open spec fn unit_table() -> Seq<(&'static str, u64, u64)> {
    seq![
        ("km", 1000u64, 1u64),
        ("kilometer", 1000u64, 1u64),
        ("kilometers", 1000u64, 1u64),
        ("mi", 1609344u64, 1000u64),
        ("mile", 1609344u64, 1000u64),
        ("miles", 1609344u64, 1000u64),
        ("m", 1u64, 1u64),
        ("meter", 1u64, 1u64),
        ("meters", 1u64, 1u64),
        ("ft", 3048u64, 10000u64),
        ("feet", 3048u64, 10000u64),
        ("yd", 9144u64, 10000u64),
        ("yard", 9144u64, 10000u64),
        ("yards", 9144u64, 10000u64),
        ("in", 254u64, 10000u64),
        ("inch", 254u64, 10000u64),
        ("inches", 254u64, 10000u64),
        ("kg", 1u64, 1u64),
        ("kilogram", 1u64, 1u64),
        ("kilograms", 1u64, 1u64),
        ("lb", 453592u64, 1000000u64),
        ("lbs", 453592u64, 1000000u64),
        ("pound", 453592u64, 1000000u64),
        ("pounds", 453592u64, 1000000u64),
        ("oz", 283495u64, 10000000u64),
        ("ounce", 283495u64, 10000000u64),
        ("ounces", 283495u64, 10000000u64),
        ("g", 1u64, 1000u64),
        ("gram", 1u64, 1000u64),
        ("grams", 1u64, 1000u64),
    ]
}

fn unit_table_exec() -> (v: Vec<(&'static str, u64, u64)>)
    ensures
        v@ == unit_table(),
{
    let v = vec![
        ("km", 1000u64, 1u64),
        ("kilometer", 1000u64, 1u64),
        ("kilometers", 1000u64, 1u64),
        ("mi", 1609344u64, 1000u64),
        ("mile", 1609344u64, 1000u64),
        ("miles", 1609344u64, 1000u64),
        ("m", 1u64, 1u64),
        ("meter", 1u64, 1u64),
        ("meters", 1u64, 1u64),
        ("ft", 3048u64, 10000u64),
        ("feet", 3048u64, 10000u64),
        ("yd", 9144u64, 10000u64),
        ("yard", 9144u64, 10000u64),
        ("yards", 9144u64, 10000u64),
        ("in", 254u64, 10000u64),
        ("inch", 254u64, 10000u64),
        ("inches", 254u64, 10000u64),
        ("kg", 1u64, 1u64),
        ("kilogram", 1u64, 1u64),
        ("kilograms", 1u64, 1u64),
        ("lb", 453592u64, 1000000u64),
        ("lbs", 453592u64, 1000000u64),
        ("pound", 453592u64, 1000000u64),
        ("pounds", 453592u64, 1000000u64),
        ("oz", 283495u64, 10000000u64),
        ("ounce", 283495u64, 10000000u64),
        ("ounces", 283495u64, 10000000u64),
        ("g", 1u64, 1000u64),
        ("gram", 1u64, 1000u64),
        ("grams", 1u64, 1000u64),
    ];
    assert(v@ =~= unit_table());
    v
}

/// The factor of the first entry of the table from index `k` on named `unit`.
pub open spec fn factor_from(unit: Seq<char>, k: int) -> Option<Factor>
    decreases unit_table().len() - k,
{
    if k < 0 || k >= unit_table().len() {
        None
    } else if unit_table()[k].0@ == unit {
        Some(Factor { num: unit_table()[k].1, den: unit_table()[k].2 })
    } else {
        factor_from(unit, k + 1)
    }
}

/// The names in the table, character by character.
proof fn lemma_unit_names()
    ensures
        unit_table().len() == 30,
        unit_table()[0].0@ == seq!['k', 'm'],
        unit_table()[0].0@.len() == 2,
        unit_table()[1].0@ == seq!['k', 'i', 'l', 'o', 'm', 'e', 't', 'e', 'r'],
        unit_table()[1].0@.len() == 9,
        unit_table()[2].0@ == seq!['k', 'i', 'l', 'o', 'm', 'e', 't', 'e', 'r', 's'],
        unit_table()[2].0@.len() == 10,
        unit_table()[3].0@ == seq!['m', 'i'],
        unit_table()[3].0@.len() == 2,
        unit_table()[4].0@ == seq!['m', 'i', 'l', 'e'],
        unit_table()[4].0@.len() == 4,
        unit_table()[5].0@ == seq!['m', 'i', 'l', 'e', 's'],
        unit_table()[5].0@.len() == 5,
        unit_table()[6].0@ == seq!['m'],
        unit_table()[6].0@.len() == 1,
        unit_table()[7].0@ == seq!['m', 'e', 't', 'e', 'r'],
        unit_table()[7].0@.len() == 5,
        unit_table()[8].0@ == seq!['m', 'e', 't', 'e', 'r', 's'],
        unit_table()[8].0@.len() == 6,
        unit_table()[9].0@ == seq!['f', 't'],
        unit_table()[9].0@.len() == 2,
        unit_table()[10].0@ == seq!['f', 'e', 'e', 't'],
        unit_table()[10].0@.len() == 4,
        unit_table()[11].0@ == seq!['y', 'd'],
        unit_table()[11].0@.len() == 2,
        unit_table()[12].0@ == seq!['y', 'a', 'r', 'd'],
        unit_table()[12].0@.len() == 4,
        unit_table()[13].0@ == seq!['y', 'a', 'r', 'd', 's'],
        unit_table()[13].0@.len() == 5,
        unit_table()[14].0@ == seq!['i', 'n'],
        unit_table()[14].0@.len() == 2,
        unit_table()[15].0@ == seq!['i', 'n', 'c', 'h'],
        unit_table()[15].0@.len() == 4,
        unit_table()[16].0@ == seq!['i', 'n', 'c', 'h', 'e', 's'],
        unit_table()[16].0@.len() == 6,
        unit_table()[17].0@ == seq!['k', 'g'],
        unit_table()[17].0@.len() == 2,
        unit_table()[18].0@ == seq!['k', 'i', 'l', 'o', 'g', 'r', 'a', 'm'],
        unit_table()[18].0@.len() == 8,
        unit_table()[19].0@ == seq!['k', 'i', 'l', 'o', 'g', 'r', 'a', 'm', 's'],
        unit_table()[19].0@.len() == 9,
        unit_table()[20].0@ == seq!['l', 'b'],
        unit_table()[20].0@.len() == 2,
        unit_table()[21].0@ == seq!['l', 'b', 's'],
        unit_table()[21].0@.len() == 3,
        unit_table()[22].0@ == seq!['p', 'o', 'u', 'n', 'd'],
        unit_table()[22].0@.len() == 5,
        unit_table()[23].0@ == seq!['p', 'o', 'u', 'n', 'd', 's'],
        unit_table()[23].0@.len() == 6,
        unit_table()[24].0@ == seq!['o', 'z'],
        unit_table()[24].0@.len() == 2,
        unit_table()[25].0@ == seq!['o', 'u', 'n', 'c', 'e'],
        unit_table()[25].0@.len() == 5,
        unit_table()[26].0@ == seq!['o', 'u', 'n', 'c', 'e', 's'],
        unit_table()[26].0@.len() == 6,
        unit_table()[27].0@ == seq!['g'],
        unit_table()[27].0@.len() == 1,
        unit_table()[28].0@ == seq!['g', 'r', 'a', 'm'],
        unit_table()[28].0@.len() == 4,
        unit_table()[29].0@ == seq!['g', 'r', 'a', 'm', 's'],
        unit_table()[29].0@.len() == 5,
{
    reveal_strlit("km");
    reveal_strlit("kilometer");
    reveal_strlit("kilometers");
    reveal_strlit("mi");
    reveal_strlit("mile");
    reveal_strlit("miles");
    reveal_strlit("m");
    reveal_strlit("meter");
    reveal_strlit("meters");
    reveal_strlit("ft");
    reveal_strlit("feet");
    reveal_strlit("yd");
    reveal_strlit("yard");
    reveal_strlit("yards");
    reveal_strlit("in");
    reveal_strlit("inch");
    reveal_strlit("inches");
    reveal_strlit("kg");
    reveal_strlit("kilogram");
    reveal_strlit("kilograms");
    reveal_strlit("lb");
    reveal_strlit("lbs");
    reveal_strlit("pound");
    reveal_strlit("pounds");
    reveal_strlit("oz");
    reveal_strlit("ounce");
    reveal_strlit("ounces");
    reveal_strlit("g");
    reveal_strlit("gram");
    reveal_strlit("grams");
}

/// `f` is the factor `num / den`.
pub open spec fn factor_is(f: Option<Factor>, num: int, den: int) -> bool {
    f matches Some(x) && x.den > 0 && x.num * den == num * x.den
}

/// Unit `a` is `k` times unit `b`.
pub open spec fn scaled(a: Option<Factor>, k: int, b: Option<Factor>) -> bool {
    a matches Some(x) && b matches Some(y) && x.den > 0 && y.den > 0 && x.num * y.den == k * y.num * x.den
}

/// Lengths are measured in metres, each unit by its definition: a kilometre
/// is 1000 metres, an inch 0.0254 m, a foot 12 inches (0.3048 m), a yard 3
/// feet, a mile 1760 yards. The short name, the singular and the plural of a
/// unit have the same factor.
pub proof fn law_length_factors()
    ensures
        factor_is(factor_from(seq!['m'], 0), 1, 1),
        scaled(factor_from(seq!['k', 'm'], 0), 1000, factor_from(seq!['m'], 0)),
        factor_is(factor_from(seq!['i', 'n'], 0), 254, 10000),
        scaled(factor_from(seq!['f', 't'], 0), 12, factor_from(seq!['i', 'n'], 0)),
        factor_is(factor_from(seq!['f', 't'], 0), 3048, 10000),
        scaled(factor_from(seq!['y', 'd'], 0), 3, factor_from(seq!['f', 't'], 0)),
        scaled(factor_from(seq!['m', 'i'], 0), 1760, factor_from(seq!['y', 'd'], 0)),
        factor_from(seq!['m', 'e', 't', 'e', 'r'], 0) == factor_from(seq!['m'], 0),
        factor_from(seq!['m', 'e', 't', 'e', 'r', 's'], 0) == factor_from(seq!['m'], 0),
        factor_from(seq!['k', 'i', 'l', 'o', 'm', 'e', 't', 'e', 'r'], 0) == factor_from(seq!['k', 'm'], 0),
        factor_from(seq!['k', 'i', 'l', 'o', 'm', 'e', 't', 'e', 'r', 's'], 0) == factor_from(seq!['k', 'm'], 0),
        factor_from(seq!['i', 'n', 'c', 'h'], 0) == factor_from(seq!['i', 'n'], 0),
        factor_from(seq!['i', 'n', 'c', 'h', 'e', 's'], 0) == factor_from(seq!['i', 'n'], 0),
        factor_from(seq!['f', 'e', 'e', 't'], 0) == factor_from(seq!['f', 't'], 0),
        factor_from(seq!['y', 'a', 'r', 'd'], 0) == factor_from(seq!['y', 'd'], 0),
        factor_from(seq!['y', 'a', 'r', 'd', 's'], 0) == factor_from(seq!['y', 'd'], 0),
        factor_from(seq!['m', 'i', 'l', 'e'], 0) == factor_from(seq!['m', 'i'], 0),
        factor_from(seq!['m', 'i', 'l', 'e', 's'], 0) == factor_from(seq!['m', 'i'], 0),
{
    lemma_unit_names();
    assert(seq!['k', 'm'].len() == 2);
    assert(seq!['k', 'i', 'l', 'o', 'm', 'e', 't', 'e', 'r'].len() == 9);
    assert(seq!['k', 'i', 'l', 'o', 'm', 'e', 't', 'e', 'r', 's'].len() == 10);
    assert(seq!['m', 'i'].len() == 2);
    assert(seq!['m', 'i', 'l', 'e'].len() == 4);
    assert(seq!['m', 'i', 'l', 'e', 's'].len() == 5);
    assert(seq!['m'].len() == 1);
    assert(seq!['m', 'e', 't', 'e', 'r'].len() == 5);
    assert(seq!['m', 'e', 't', 'e', 'r', 's'].len() == 6);
    assert(seq!['f', 't'].len() == 2);
    assert(seq!['f', 'e', 'e', 't'].len() == 4);
    assert(seq!['y', 'd'].len() == 2);
    assert(seq!['y', 'a', 'r', 'd'].len() == 4);
    assert(seq!['y', 'a', 'r', 'd', 's'].len() == 5);
    assert(seq!['i', 'n'].len() == 2);
    assert(seq!['i', 'n', 'c', 'h'].len() == 4);
    assert(seq!['i', 'n', 'c', 'h', 'e', 's'].len() == 6);
    reveal_with_fuel(factor_from, 31);
}

/// Masses are measured in kilograms, each unit by its definition: a kilogram
/// is 1000 grams, a pound 0.453592 kg and 16 ounces. The short name, the
/// singular and the plural of a unit have the same factor.
pub proof fn law_mass_factors()
    ensures
        factor_is(factor_from(seq!['k', 'g'], 0), 1, 1),
        scaled(factor_from(seq!['k', 'g'], 0), 1000, factor_from(seq!['g'], 0)),
        factor_is(factor_from(seq!['l', 'b'], 0), 453592, 1000000),
        scaled(factor_from(seq!['l', 'b'], 0), 16, factor_from(seq!['o', 'z'], 0)),
        factor_from(seq!['k', 'i', 'l', 'o', 'g', 'r', 'a', 'm'], 0) == factor_from(seq!['k', 'g'], 0),
        factor_from(seq!['k', 'i', 'l', 'o', 'g', 'r', 'a', 'm', 's'], 0) == factor_from(seq!['k', 'g'], 0),
        factor_from(seq!['g', 'r', 'a', 'm'], 0) == factor_from(seq!['g'], 0),
        factor_from(seq!['g', 'r', 'a', 'm', 's'], 0) == factor_from(seq!['g'], 0),
        factor_from(seq!['l', 'b', 's'], 0) == factor_from(seq!['l', 'b'], 0),
        factor_from(seq!['p', 'o', 'u', 'n', 'd'], 0) == factor_from(seq!['l', 'b'], 0),
        factor_from(seq!['p', 'o', 'u', 'n', 'd', 's'], 0) == factor_from(seq!['l', 'b'], 0),
        factor_from(seq!['o', 'u', 'n', 'c', 'e'], 0) == factor_from(seq!['o', 'z'], 0),
        factor_from(seq!['o', 'u', 'n', 'c', 'e', 's'], 0) == factor_from(seq!['o', 'z'], 0),
{
    lemma_unit_names();
    assert(unit_table()[6].0@[0] != seq!['g'][0]);
    assert(seq!['k', 'g'].len() == 2);
    assert(seq!['k', 'i', 'l', 'o', 'g', 'r', 'a', 'm'].len() == 8);
    assert(seq!['k', 'i', 'l', 'o', 'g', 'r', 'a', 'm', 's'].len() == 9);
    assert(seq!['l', 'b'].len() == 2);
    assert(seq!['l', 'b', 's'].len() == 3);
    assert(seq!['p', 'o', 'u', 'n', 'd'].len() == 5);
    assert(seq!['p', 'o', 'u', 'n', 'd', 's'].len() == 6);
    assert(seq!['o', 'z'].len() == 2);
    assert(seq!['o', 'u', 'n', 'c', 'e'].len() == 5);
    assert(seq!['o', 'u', 'n', 'c', 'e', 's'].len() == 6);
    assert(seq!['g'].len() == 1);
    assert(seq!['g', 'r', 'a', 'm'].len() == 4);
    assert(seq!['g', 'r', 'a', 'm', 's'].len() == 5);
    reveal_with_fuel(factor_from, 31);
}

/// The factor of `unit`, looked up by its lowercase form; `None` for a unit
/// the table does not hold.
pub fn unit_factor(unit: &str) -> (r: Option<Factor>)
    ensures
        r == factor_from(lowercase(unit@), 0),
{
    let lower_s = to_lowercase(unit);
    let lower = chars_of(lower_s.as_str());
    let table = unit_table_exec();
    let mut k: usize = 0;
    while k < table.len()
        invariant
            table@ == unit_table(),
            lower@ == lowercase(unit@),
            k <= table@.len(),
            factor_from(lowercase(unit@), 0) == factor_from(lowercase(unit@), k as int),
        decreases table@.len() - k,
    {
        let (name, num, den) = table[k];
        let c = chars_of(name);
        if chars_equal(&c, &lower) {
            return Some(Factor { num, den });
        }
        k = k + 1;
    }
    None
}

// ---------------------------------------------------------------------------
// Results
// ---------------------------------------------------------------------------

pub open spec fn is_temperature(kind: ConversionKind) -> bool {
    kind == ConversionKind::CelsiusToFahrenheit || kind == ConversionKind::FahrenheitToCelsius
}

/// The result that shows a conversion of the (trimmed) query `input`:
/// `display` is the sentence shown, `result_text` the converted number.
pub open spec fn conversion_result_view(
    input: Seq<char>,
    kind: ConversionKind,
    display: Seq<char>,
    result_text: Seq<char>,
) -> ResultView {
    let temperature = is_temperature(kind);
    ResultView {
        id: (if temperature {
            "temp_"@
        } else {
            "unit_"@
        }) + input + "_"@ + result_text,
        name: display,
        path: display,
        category: SearchResultCategory::Conversion,
        icon: Some(
            if temperature {
                "thermometer"@
            } else {
                "ruler"@
            },
        ),
        score: Score { whole: 80, frac: 0, den: 1 },
        metadata: Some(
            if temperature {
                "Temperature conversion"@
            } else {
                "Unit conversion"@
            },
        ),
    }
}

/// The result that shows a conversion.
pub fn conversion_result(input: &str, kind: ConversionKind, display: &str, result_text: &str) -> (r:
    SearchResult)
    ensures
        r@ == conversion_result_view(input@, kind, display@, result_text@),
{
    let temperature = kind == ConversionKind::CelsiusToFahrenheit || kind
        == ConversionKind::FahrenheitToCelsius;
    let head = if temperature {
        "temp_"
    } else {
        "unit_"
    };
    let id1 = concat(head, input);
    let id2 = concat(id1.as_str(), "_");
    let id = concat(id2.as_str(), result_text);
    SearchResult {
        id,
        name: String::from_str(display),
        path: String::from_str(display),
        category: SearchResultCategory::Conversion,
        icon: Some(
            String::from_str(
                if temperature {
                    "thermometer"
                } else {
                    "ruler"
                },
            ),
        ),
        score: Score::whole_number(80),
        metadata: Some(
            String::from_str(
                if temperature {
                    "Temperature conversion"
                } else {
                    "Unit conversion"
                },
            ),
        ),
    }
}

} // verus!
