//! Calculator and time-zone answers to a query.
use vstd::prelude::*;
use crate::score::Score;
use crate::text::{
    after_last, after_last_chars, chars_equal, chars_of, concat, is_prefix, lowercase,
    starts_with_chars, string_of, to_lowercase, trim, trim_chars,
};
use crate::results::{SearchResult, SearchResultCategory, ResultView};

verus! {

// ---------------------------------------------------------------------------
// Decimal text of integers
// ---------------------------------------------------------------------------

pub open spec fn digit_char(d: nat) -> char {
    seq!['0', '1', '2', '3', '4', '5', '6', '7', '8', '9'][d as int]
}

/// Decimal digits of `n`, most significant first, without leading zeros.
pub open spec fn digits_of(n: nat) -> Seq<char>
    decreases n,
{
    if n < 10 {
        seq![digit_char(n)]
    } else {
        digits_of(n / 10).push(digit_char(n % 10))
    }
}

/// `n` in decimal, with a leading `-` when negative (integer `Display`).
pub open spec fn decimal(n: int) -> Seq<char> {
    if n < 0 {
        seq!['-'] + digits_of((-n) as nat)
    } else {
        digits_of(n as nat)
    }
}

fn push_digits(m: u64, out: &mut Vec<char>)
    ensures
        final(out)@ == old(out)@ + digits_of(m as nat),
    decreases m,
{
    if m >= 10 {
        push_digits(m / 10, out);
    }
    let d = m % 10;
    let c = if d == 0 {
        '0'
    } else if d == 1 {
        '1'
    } else if d == 2 {
        '2'
    } else if d == 3 {
        '3'
    } else if d == 4 {
        '4'
    } else if d == 5 {
        '5'
    } else if d == 6 {
        '6'
    } else if d == 7 {
        '7'
    } else if d == 8 {
        '8'
    } else {
        '9'
    };
    assert(c == digit_char(d as nat));
    let ghost before = out@;
    out.push(c);
    proof {
        if m >= 10 {
            assert(out@ =~= old(out)@ + digits_of(m as nat));
        } else {
            assert(out@ =~= old(out)@ + digits_of(m as nat));
        }
    }
}

/// The decimal text of `n`.
pub fn decimal_text(n: i64) -> (s: String)
    ensures
        s@ == decimal(n as int),
{
    let mut out: Vec<char> = Vec::new();
    if n < 0 {
        out.push('-');
        let m: u64 = (-(n as i128)) as u64;
        push_digits(m, &mut out);
    } else {
        push_digits(n as u64, &mut out);
    }
    string_of(out.as_slice())
}

/// `s` with every trailing `c` removed (`str::trim_end_matches` with a character).
pub open spec fn trim_end_char(s: Seq<char>, c: char) -> Seq<char>
    decreases s.len(),
{
    if s.len() > 0 && s.last() == c {
        trim_end_char(s.drop_last(), c)
    } else {
        s
    }
}

fn trim_end_char_exec(s: &Vec<char>, c: char) -> (r: Vec<char>)
    ensures
        r@ == trim_end_char(s@, c),
{
    let mut j: usize = s.len();
    assert(s@.subrange(0, j as int) =~= s@);
    while j > 0 && s[j - 1] == c
        invariant
            j <= s@.len(),
            trim_end_char(s@, c) == trim_end_char(s@.subrange(0, j as int), c),
        decreases j,
    {
        assert(s@.subrange(0, j as int).drop_last() =~= s@.subrange(0, j - 1));
        j = j - 1;
    }
    let mut r: Vec<char> = Vec::new();
    let mut k: usize = 0;
    while k < j
        invariant
            k <= j <= s@.len(),
            r@ == s@.subrange(0, k as int),
        decreases j - k,
    {
        r.push(s[k]);
        assert(r@ =~= s@.subrange(0, k + 1));
        k = k + 1;
    }
    r
}

// ---------------------------------------------------------------------------
// Calculator
// ---------------------------------------------------------------------------

/// Characters that mark a query as arithmetic.
pub open spec fn is_math_char(c: char) -> bool {
    c == '+' || c == '-' || c == '*' || c == '/' || c == '^' || c == '%' || c == '(' || c == ')'
        || ('0' <= c && c <= '9')
}

/// The query holds an operator, a parenthesis or an ASCII digit, so it is
/// handed to the expression evaluator.
pub open spec fn looks_like_math_spec(s: Seq<char>) -> bool {
    exists|i: int| 0 <= i < s.len() && is_math_char(#[trigger] s[i])
}

/// Whether `input` is worth handing to the expression evaluator.
pub fn looks_like_math(input: &str) -> (b: bool)
    ensures
        b == looks_like_math_spec(input@),
{
    let s = chars_of(input);
    let mut i: usize = 0;
    while i < s.len()
        invariant
            s@ == input@,
            i <= s@.len(),
            forall|j: int| 0 <= j < i ==> !is_math_char(#[trigger] s@[j]),
        decreases s@.len() - i,
    {
        let c = s[i];
        if c == '+' || c == '-' || c == '*' || c == '/' || c == '^' || c == '%' || c == '(' || c
            == ')' || ('0' <= c && c <= '9') {
            return true;
        }
        i = i + 1;
    }
    false
}

/// What the expression evaluator produced, as the calculator shows it.
#[derive(Clone, Debug)]
pub enum MathValue {
    /// An integer.
    Int(i64),
    /// A float with no fractional part and below `i64::MAX` in magnitude,
    /// converted to an integer.
    WholeFloat(i64),
    /// Another float, written with six decimals.
    FixedFloat(String),
    /// A truth value.
    Boolean(bool),
    /// Any other kind of value (text, tuple, empty).
    Unsupported,
}

/// The text the calculator shows for `v`, if it shows one.
pub open spec fn math_text(v: MathValue) -> Option<Seq<char>> {
    match v {
        MathValue::Int(i) => Some(decimal(i as int)),
        MathValue::WholeFloat(i) => Some(decimal(i as int)),
        MathValue::FixedFloat(s) => Some(trim_end_char(trim_end_char(s@, '0'), '.')),
        MathValue::Boolean(b) => Some(
            if b {
                "true"@
            } else {
                "false"@
            },
        ),
        MathValue::Unsupported => None,
    }
}

/// A truth value is shown as Rust writes it: `true` when it holds and `false`
/// when it does not, so the text that is shown tells the two apart.
pub proof fn law_truth_value_text(b: bool, c: bool)
    ensures
        math_text(MathValue::Boolean(b)) == Some(
            if b {
                seq!['t', 'r', 'u', 'e']
            } else {
                seq!['f', 'a', 'l', 's', 'e']
            },
        ),
        math_text(MathValue::Boolean(b)) == math_text(MathValue::Boolean(c)) ==> b == c,
{
    reveal_strlit("true");
    reveal_strlit("false");
    assert("true"@ =~= seq!['t', 'r', 'u', 'e']);
    assert("false"@ =~= seq!['f', 'a', 'l', 's', 'e']);
    assert("true"@.len() != "false"@.len());
}

/// The calculator result for `input` whose value reads `text`.
pub open spec fn math_result_view(input: Seq<char>, text: Seq<char>) -> ResultView {
    ResultView {
        id: "calc_"@ + input,
        name: text,
        path: text,
        category: SearchResultCategory::Calculator,
        icon: Some("calculator"@),
        score: Score { whole: 100, frac: 0, den: 1 },
        metadata: Some(input + " = "@ + text),
    }
}

/// The calculator's answer to `input`, given what the evaluator made of it
/// (`None` for an evaluation error). Nothing is shown unless the input looks
/// arithmetic and the value is a number or a truth value.
pub fn evaluate_math(input: &str, value: &Option<MathValue>) -> (r: Option<SearchResult>)
    ensures
        match r {
            Some(res) => {
                &&& looks_like_math_spec(input@)
                &&& value matches Some(v)
                &&& math_text(value->0) matches Some(t)
                &&& res@ == math_result_view(input@, math_text(value->0)->0)
            },
            None => !looks_like_math_spec(input@) || value is None || math_text(value->0) is None,
        },
{
    if !looks_like_math(input) {
        return None;
    }
    let text: String = match value {
        None => {
            return None;
        },
        Some(MathValue::Int(i)) => decimal_text(*i),
        Some(MathValue::WholeFloat(i)) => decimal_text(*i),
        Some(MathValue::FixedFloat(s)) => {
            let c = chars_of(s.as_str());
            let t1 = trim_end_char_exec(&c, '0');
            let t2 = trim_end_char_exec(&t1, '.');
            string_of(t2.as_slice())
        },
        Some(MathValue::Boolean(b)) => String::from_str(
            if *b {
                "true"
            } else {
                "false"
            },
        ),
        Some(MathValue::Unsupported) => {
            return None;
        },
    };
    let id = concat("calc_", input);
    let head = concat(input, " = ");
    let meta = concat(head.as_str(), text.as_str());
    Some(
        SearchResult {
            id,
            name: text.clone(),
            path: text,
            category: SearchResultCategory::Calculator,
            icon: Some(String::from_str("calculator")),
            score: Score::whole_number(100),
            metadata: Some(meta),
        },
    )
}

// ---------------------------------------------------------------------------
// Time zones
// ---------------------------------------------------------------------------

/// Name for the name of the `i`-th zone of `chrono_tz::TZ_VARIANTS`, the zones
/// of the time-zone database that the crate embeds, in the crate's order;
/// `None` past the last.
pub uninterp spec fn tz_name_at(i: int) -> Option<Seq<char>>;

/// Reads the length of `chrono_tz::TZ_VARIANTS`: exactly the indices below
/// it hold a zone.
#[verifier::external_body]
fn zone_count() -> (n: usize)
    ensures
        forall|i: int| 0 <= i ==> (tz_name_at(i) is Some <==> i < n),
{
    chrono_tz::TZ_VARIANTS.len()
}

/// Reads the name (`Tz::name`) of entry `i` of `chrono_tz::TZ_VARIANTS`.
#[verifier::external_body]
fn zone_name_at(i: usize) -> (r: Option<String>)
    ensures
        match r {
            Some(name) => tz_name_at(i as int) == Some(name@),
            None => tz_name_at(i as int) is None,
        },
{
    match chrono_tz::TZ_VARIANTS.get(i) {
        Some(tz) => Some(tz.name().to_string()),
        None => None,
    }
}

/// Name for the clock of zone `i` of `chrono_tz::TZ_VARIANTS` at `secs`
/// seconds after the Unix epoch, as chrono formats it: the time as
/// `%I:%M:%S %p %Z` and the date as `%A, %B %d, %Y`; `None` where chrono
/// cannot represent the instant.
pub uninterp spec fn zone_clock(i: int, secs: int) -> Option<(Seq<char>, Seq<char>)>;

/// Formats the instant `secs` (`DateTime::from_timestamp`) in zone `i` of
/// `chrono_tz::TZ_VARIANTS` (`with_timezone`, then `format` twice). The
/// result is the one that `zone_clock` names; the zone must exist, as
/// indexing the table past its end panics.
#[verifier::external_body]
fn zone_clock_at(i: usize, secs: i64) -> (r: Option<(String, String)>)
    requires
        tz_name_at(i as int) is Some,
    ensures
        match r {
            Some((time, date)) => zone_clock(i as int, secs as int) == Some((time@, date@)),
            None => zone_clock(i as int, secs as int) is None,
        },
{
    match chrono::DateTime::from_timestamp(secs, 0) {
        Some(utc) => {
            let local = utc.with_timezone(&chrono_tz::TZ_VARIANTS[i]);
            Some((local.format("%I:%M:%S %p %Z").to_string(), local.format("%A, %B %d, %Y").to_string()))
        },
        None => None,
    }
}

/// The place a zone name ends with, as a query writes it: what follows its
/// last `/`, lowercased, with `_` read as a space (`America/New_York` gives
/// `new york`).
pub open spec fn place_of(name: Seq<char>) -> Seq<char> {
    after_last(lowercase(name), '/').map_values(|c: char| if c == '_' { ' ' } else { c })
}

/// Zone `i` is called `cand`, up to case.
pub open spec fn names_zone(cand: Seq<char>, i: int) -> bool {
    tz_name_at(i) matches Some(n) && lowercase(n) == cand
}

/// Zone `i` lies in the place `cand`.
pub open spec fn places_zone(cand: Seq<char>, i: int) -> bool {
    tz_name_at(i) matches Some(n) && place_of(n) == cand
}

/// `cand` names some zone, by its whole name or by its place.
pub open spec fn some_zone(cand: Seq<char>) -> bool {
    exists|i: int| 0 <= i && (names_zone(cand, i) || places_zone(cand, i))
}

/// Zone `i` is the one `cand` stands for: the first called `cand`; where
/// none is, the first that lies in the place `cand`.
pub open spec fn first_zone(cand: Seq<char>, i: int) -> bool {
    ||| (names_zone(cand, i) && forall|j: int| 0 <= j < i ==> !names_zone(cand, j))
    ||| ((forall|j: int| 0 <= j ==> !names_zone(cand, j)) && places_zone(cand, i) && forall|j: int|
        0 <= j < i ==> !places_zone(cand, j))
}

fn place_chars(name: &str) -> (r: Vec<char>)
    ensures
        r@ == place_of(name@),
{
    let lower = to_lowercase(name);
    let lc = chars_of(lower.as_str());
    let tail = after_last_chars(&lc, '/');
    let mut r: Vec<char> = Vec::new();
    let mut k: usize = 0;
    while k < tail.len()
        invariant
            k <= tail@.len(),
            r@ == tail@.take(k as int).map_values(|c: char| if c == '_' { ' ' } else { c }),
        decreases tail@.len() - k,
    {
        let c = tail[k];
        r.push(if c == '_' { ' ' } else { c });
        assert(tail@.take(k + 1) =~= tail@.take(k as int).push(c));
        assert(r@ =~= tail@.take(k + 1).map_values(|c: char| if c == '_' { ' ' } else { c }));
        k = k + 1;
    }
    assert(tail@.take(tail@.len() as int) =~= tail@);
    r
}

/// The zone that `cand` stands for, with its index and name.
fn find_zone(cand: &Vec<char>) -> (r: Option<(usize, String)>)
    ensures
        match r {
            Some((i, name)) => tz_name_at(i as int) == Some(name@) && first_zone(cand@, i as int),
            None => !some_zone(cand@),
        },
{
    let n = zone_count();
    let mut i: usize = 0;
    while i < n
        invariant
            i <= n,
            forall|j: int| 0 <= j ==> (tz_name_at(j) is Some <==> j < n),
            forall|j: int| 0 <= j < i ==> !names_zone(cand@, j),
        decreases n - i,
    {
        if let Some(name) = zone_name_at(i) {
            let lower = to_lowercase(name.as_str());
            let lc = chars_of(lower.as_str());
            if chars_equal(&lc, cand) {
                return Some((i, name));
            }
        }
        i = i + 1;
    }
    assert(forall|j: int| 0 <= j ==> !names_zone(cand@, j)) by {
        assert forall|j: int| 0 <= j implies !names_zone(cand@, j) by {
            if j >= n {
                assert(tz_name_at(j) is None);
            }
        }
    }
    let mut i: usize = 0;
    while i < n
        invariant
            i <= n,
            forall|j: int| 0 <= j ==> (tz_name_at(j) is Some <==> j < n),
            forall|j: int| 0 <= j ==> !names_zone(cand@, j),
            forall|j: int| 0 <= j < i ==> !places_zone(cand@, j),
        decreases n - i,
    {
        if let Some(name) = zone_name_at(i) {
            let place = place_chars(name.as_str());
            if chars_equal(&place, cand) {
                return Some((i, name));
            }
        }
        i = i + 1;
    }
    assert(!some_zone(cand@)) by {
        assert forall|j: int| 0 <= j implies !(names_zone(cand@, j) || places_zone(cand@, j)) by {
            if j >= n {
                assert(tz_name_at(j) is None);
            }
        }
    }
    None
}

/// The phrasings of a time query, tried in this order.
pub open spec fn tz_patterns() -> Seq<Seq<char>> {
    seq!["time in "@, "time "@, "what time is it in "@, "current time "@]
}

fn tz_pattern_list() -> (v: Vec<&'static str>)
    ensures
        v@.map_values(|s: &'static str| s@) == tz_patterns(),
{
    let v = vec!["time in ", "time ", "what time is it in ", "current time "];
    assert(v@.map_values(|s: &'static str| s@) =~= tz_patterns());
    v
}

/// The zone name that pattern `k` leaves of the lowercased query `lower`.
pub open spec fn tz_candidate(lower: Seq<char>, k: int) -> Seq<char> {
    trim(lower.skip(tz_patterns()[k].len() as int))
}

/// Pattern `k` fits the lowercased query and leaves the name of a zone or of
/// its place.
pub open spec fn tz_pattern_hits(lower: Seq<char>, k: int) -> bool {
    is_prefix(tz_patterns()[k], lower) && some_zone(tz_candidate(lower, k))
}

/// The lowercased query `lower` asks for the time in the zone with index `i`,
/// naming it `name`: pattern `k` is the first that fits and leaves a zone
/// name or place, `name` is what it leaves, and zone `i` is the one `name`
/// stands for.
pub open spec fn tz_match(lower: Seq<char>, name: Seq<char>, i: int) -> bool {
    exists|k: int|
        0 <= k < 4 && tz_pattern_hits(lower, k) && (forall|j: int|
            0 <= j < k ==> !tz_pattern_hits(lower, j)) && name == tz_candidate(lower, k) && 0 <= i
            && first_zone(name, i)
}

/// What a time query asks for: the name as the query wrote it (lowercased),
/// and the index and name of the zone it stands for.
pub struct TimezoneMatch {
    pub query_name: String,
    pub zone_index: usize,
    pub zone_name: String,
}

/// The zone asked for by a time query: the first pattern that fits the
/// lowercased query and leaves, trimmed, the name of a zone (`asia/tokyo`)
/// or of its place (`tokyo`, `new york`).
pub fn timezone_query(input: &str) -> (r: Option<TimezoneMatch>)
    ensures
        match r {
            Some(m) => tz_match(lowercase(input@), m.query_name@, m.zone_index as int) && tz_name_at(
                m.zone_index as int,
            ) == Some(m.zone_name@),
            None => forall|k: int| 0 <= k < 4 ==> !tz_pattern_hits(lowercase(input@), k),
        },
{
    let lower_s = to_lowercase(input);
    let lower = chars_of(lower_s.as_str());
    let pats = tz_pattern_list();
    assert(pats@.len() == 4) by {
        assert(pats@.map_values(|s: &'static str| s@).len() == 4);
    }
    let mut k: usize = 0;
    while k < pats.len()
        invariant
            lower@ == lowercase(input@),
            pats@.map_values(|s: &'static str| s@) == tz_patterns(),
            pats@.len() == 4,
            k <= 4,
            forall|j: int| 0 <= j < k ==> !tz_pattern_hits(lowercase(input@), j),
        decreases 4 - k,
    {
        let pat = chars_of(pats[k]);
        assert(pat@ == tz_patterns()[k as int]);
        if starts_with_chars(&lower, &pat) {
            let mut rest: Vec<char> = Vec::new();
            let mut i: usize = pat.len();
            while i < lower.len()
                invariant
                    pat@.len() <= i <= lower@.len(),
                    rest@ == lower@.subrange(pat@.len() as int, i as int),
                decreases lower@.len() - i,
            {
                rest.push(lower[i]);
                assert(rest@ =~= lower@.subrange(pat@.len() as int, i + 1));
                i = i + 1;
            }
            assert(rest@ =~= lower@.skip(pat@.len() as int));
            let name = trim_chars(&rest);
            match find_zone(&name) {
                Some((zi, zone_name)) => {
                    assert(names_zone(name@, zi as int) || places_zone(name@, zi as int));
                    assert(tz_pattern_hits(lowercase(input@), k as int));
                    let query_name = string_of(name.as_slice());
                    assert(tz_match(lowercase(input@), query_name@, zi as int));
                    return Some(TimezoneMatch { query_name, zone_index: zi, zone_name });
                },
                None => {},
            }
        }
        k = k + 1;
    }
    None
}

/// The answer to a time query about zone `tz_name`, given the current time
/// there as `time_str` (clock) and `date_str` (calendar date).
pub open spec fn timezone_result_view(tz_name: Seq<char>, time_str: Seq<char>, date_str: Seq<char>) -> ResultView {
    ResultView {
        id: "tz_"@ + tz_name,
        name: time_str,
        path: time_str + ", "@ + date_str,
        category: SearchResultCategory::Timezone,
        icon: Some("clock"@),
        score: Score { whole: 80, frac: 0, den: 1 },
        metadata: Some("Current time in "@ + tz_name + ": "@ + time_str),
    }
}

/// The result that shows the current time in a zone.
pub fn timezone_result(tz_name: &str, time_str: &str, date_str: &str) -> (r: SearchResult)
    ensures
        r@ == timezone_result_view(tz_name@, time_str@, date_str@),
{
    let path_head = concat(time_str, ", ");
    let path = concat(path_head.as_str(), date_str);
    let m1 = concat("Current time in ", tz_name);
    let m2 = concat(m1.as_str(), ": ");
    let meta = concat(m2.as_str(), time_str);
    SearchResult {
        id: concat("tz_", tz_name),
        name: String::from_str(time_str),
        path,
        category: SearchResultCategory::Timezone,
        icon: Some(String::from_str("clock")),
        score: Score::whole_number(80),
        metadata: Some(meta),
    }
}

/// The answer to a time query `input` at `unix_secs` seconds after the Unix
/// epoch: the clock of the zone the query stands for, shown under the name
/// the query wrote. `None` where the query names no zone, or where the
/// instant cannot be represented.
pub fn timezone_answer(input: &str, unix_secs: i64) -> (r: Option<SearchResult>)
    ensures
        match r {
            Some(res) => exists|name: Seq<char>, i: int|
                #[trigger] tz_match(lowercase(input@), name, i) && (zone_clock(i, unix_secs as int) matches Some(
                    (time, date),
                ) && res@ == timezone_result_view(name, time, date)),
            None => forall|name: Seq<char>, i: int|
                #[trigger] tz_match(lowercase(input@), name, i) ==> zone_clock(i, unix_secs as int) is None,
        },
{
    let m = match timezone_query(input) {
        Some(m) => m,
        None => {
            proof {
                assert forall|name: Seq<char>, i: int| #[trigger]
                    tz_match(lowercase(input@), name, i) implies zone_clock(i, unix_secs as int) is None by {
                    let k = choose|k: int|
                        0 <= k < 4 && tz_pattern_hits(lowercase(input@), k) && (forall|j: int|
                            0 <= j < k ==> !tz_pattern_hits(lowercase(input@), j)) && name
                            == tz_candidate(lowercase(input@), k) && 0 <= i && first_zone(name, i);
                }
            }
            return None;
        },
    };
    proof {
        lemma_time_query_unique(lowercase(input@), m.query_name@, m.zone_index as int);
    }
    match zone_clock_at(m.zone_index, unix_secs) {
        Some((time, date)) => Some(timezone_result(m.query_name.as_str(), time.as_str(), date.as_str())),
        None => None,
    }
}

/// A time query stands for one name and one zone at most: the first pattern
/// that fits, and the first zone of that name or place.
pub proof fn lemma_time_query_unique(lower: Seq<char>, name: Seq<char>, i: int)
    requires
        tz_match(lower, name, i),
    ensures
        forall|n2: Seq<char>, i2: int| #[trigger] tz_match(lower, n2, i2) ==> n2 == name && i2 == i,
{
    assert forall|n2: Seq<char>, i2: int| #[trigger] tz_match(lower, n2, i2) implies n2 == name && i2
        == i by {
        let k = choose|k: int|
            0 <= k < 4 && tz_pattern_hits(lower, k) && (forall|j: int|
                0 <= j < k ==> !tz_pattern_hits(lower, j)) && name == tz_candidate(lower, k) && 0 <= i
                && first_zone(name, i);
        let k2 = choose|k: int|
            0 <= k < 4 && tz_pattern_hits(lower, k) && (forall|j: int|
                0 <= j < k ==> !tz_pattern_hits(lower, j)) && n2 == tz_candidate(lower, k) && 0 <= i2
                && first_zone(n2, i2);
        if k < k2 {
            assert(!tz_pattern_hits(lower, k));
        } else if k2 < k {
            assert(!tz_pattern_hits(lower, k2));
        }
        assert(n2 == name);
        if names_zone(name, i) {
            if names_zone(name, i2) {
                if i < i2 {
                    assert(!names_zone(name, i));
                } else if i2 < i {
                    assert(!names_zone(name, i2));
                }
            } else {
                assert(!names_zone(name, i));
            }
        } else {
            if names_zone(name, i2) {
                assert(!names_zone(name, i2));
            } else {
                if i < i2 {
                    assert(!places_zone(name, i));
                } else if i2 < i {
                    assert(!places_zone(name, i2));
                }
            }
        }
    }
}

} // verus!
