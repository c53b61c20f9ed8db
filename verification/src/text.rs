//! Character-level text model: UTF-8 widths, whitespace, trimming, splitting,
//! searching, and the few string operations of std that the library calls.
use vstd::prelude::*;

verus! {

// ---------------------------------------------------------------------------
// UTF-8 widths and byte lengths
// ---------------------------------------------------------------------------

/// Number of bytes that `c` occupies in UTF-8.
pub open spec fn utf8_width(c: char) -> nat {
    if (c as u32) < 0x80 {
        1
    } else if (c as u32) < 0x800 {
        2
    } else if (c as u32) < 0x10000 {
        3
    } else {
        4
    }
}

/// Number of bytes of the UTF-8 encoding of `s` (what `str::len` returns).
pub open spec fn byte_len(s: Seq<char>) -> nat
    decreases s.len(),
{
    if s.len() == 0 {
        0
    } else {
        byte_len(s.drop_last()) + utf8_width(s.last())
    }
}

pub proof fn lemma_byte_len_step(s: Seq<char>, i: int)
    requires
        0 <= i < s.len(),
    ensures
        byte_len(s.take(i + 1)) == byte_len(s.take(i)) + utf8_width(s[i]),
{
    assert(s.take(i + 1).drop_last() =~= s.take(i));
}

pub proof fn lemma_byte_len_bounds(s: Seq<char>)
    ensures
        s.len() <= byte_len(s),
        byte_len(s) <= 4 * s.len(),
    decreases s.len(),
{
    if s.len() > 0 {
        lemma_byte_len_bounds(s.drop_last());
    }
}

/// Byte length grows with the prefix taken.
pub proof fn lemma_byte_len_prefix(s: Seq<char>, i: int, j: int)
    requires
        0 <= i <= j <= s.len(),
    ensures
        byte_len(s.take(i)) <= byte_len(s.take(j)),
        i <= byte_len(s.take(i)),
    decreases j - i,
{
    lemma_byte_len_bounds(s.take(i));
    if i < j {
        lemma_byte_len_step(s, j - 1);
        lemma_byte_len_prefix(s, i, j - 1);
    }
}

pub proof fn lemma_take_full(s: Seq<char>)
    ensures
        s.take(s.len() as int) == s,
{
    assert(s.take(s.len() as int) =~= s);
}

/// The byte length also counts from the front.
pub proof fn lemma_byte_len_front(s: Seq<char>)
    requires
        s.len() > 0,
    ensures
        byte_len(s) == utf8_width(s[0]) + byte_len(s.drop_first()),
    decreases s.len(),
{
    let d = s.drop_first();
    if s.len() > 1 {
        lemma_byte_len_front(s.drop_last());
        assert(s.drop_last().drop_first() =~= d.drop_last());
        assert(d.last() == s.last());
        assert(s.drop_last()[0] == s[0]);
        assert(byte_len(d) == byte_len(d.drop_last()) + utf8_width(d.last()));
    } else {
        assert(s.drop_last().len() == 0);
        assert(d.len() == 0);
        assert(byte_len(s.drop_last()) == 0);
        assert(byte_len(d) == 0);
    }
}

/// `byte_len` is the length of vstd's UTF-8 encoding.
pub proof fn lemma_encode_len(s: Seq<char>)
    ensures
        vstd::utf8::encode_utf8(s).len() == byte_len(s),
    decreases s.len(),
{
    if s.len() > 0 {
        lemma_encode_len(s.drop_first());
        lemma_byte_len_front(s);
        let c = s[0] as u32;
        vstd::utf8::char_is_scalar(s[0]);
        if c < 0x80 {
            assert(vstd::utf8::has_width_1_encoding(c));
        } else if c < 0x800 {
            assert(vstd::utf8::has_width_2_encoding(c));
        } else if c < 0x10000 {
            assert(vstd::utf8::has_width_3_encoding(c));
        }
        assert(vstd::utf8::encode_scalar(c).len() == utf8_width(s[0]));
    }
}

/// Number of bytes of `s` (`str::len`, read off `str::as_bytes`); every text
/// in memory has a byte length that fits a `usize`.
pub fn str_bytes(s: &str) -> (n: usize)
    ensures
        n == byte_len(s@),
{
    let b = s.as_bytes();
    proof {
        lemma_encode_len(s@);
    }
    b.len()
}

/// Bytes that `c` takes in UTF-8 (`char::len_utf8`).
pub fn char_width(c: char) -> (w: usize)
    ensures
        w == utf8_width(c),
{
    let u = c as u32;
    if u < 0x80 {
        1
    } else if u < 0x800 {
        2
    } else if u < 0x10000 {
        3
    } else {
        4
    }
}

/// Byte offset of the character at index `n` of `s`.
pub fn prefix_bytes(s: &Vec<char>, n: usize) -> (r: u64)
    requires
        n <= s@.len(),
        byte_len(s@) <= u64::MAX,
    ensures
        r == byte_len(s@.take(n as int)),
{
    let mut r: u64 = 0;
    let mut i: usize = 0;
    proof {
        lemma_take_full(s@);
    }
    while i < n
        invariant
            i <= n <= s@.len(),
            byte_len(s@) <= u64::MAX,
            s@.take(s@.len() as int) == s@,
            r == byte_len(s@.take(i as int)),
        decreases n - i,
    {
        proof {
            lemma_byte_len_step(s@, i as int);
            lemma_byte_len_prefix(s@, i as int + 1, s@.len() as int);
        }
        r = r + char_width(s[i]) as u64;
        i = i + 1;
    }
    r
}

/// Number of bytes of `s` in UTF-8.
pub fn text_bytes(s: &Vec<char>) -> (r: u64)
    requires
        byte_len(s@) <= u64::MAX,
    ensures
        r == byte_len(s@),
{
    proof {
        lemma_take_full(s@);
    }
    prefix_bytes(s, s.len())
}

// ---------------------------------------------------------------------------
// Conversions between `str` and characters
// ---------------------------------------------------------------------------

/// The characters of `s`.
pub fn chars_of(s: &str) -> (v: Vec<char>)
    ensures
        v@ == s@,
{
    let mut v: Vec<char> = Vec::new();
    for c in it: s.chars()
        invariant
            v@ == it.seq().take(it.index() as int),
            it.seq() == s@,
    {
        v.push(c);
    }
    v
}

/// The string made of the characters of `chars`: `String`'s `FromIterator<&char>`,
/// which std documents as concatenating the characters in order.
#[verifier::external_body]
pub(crate) fn string_of(chars: &[char]) -> (res: String)
    ensures
        res@ == chars@,
{
    chars.iter().collect()
}

/// The string `a` followed by `b`.
pub fn concat(a: &str, b: &str) -> (res: String)
    ensures
        res@ == a@ + b@,
{
    let mut r = String::from_str(a);
    r.append(b);
    r
}

/// Name for what `str::to_lowercase` returns: the lowercase mapping of every
/// character, as the Unicode tables define it.
pub uninterp spec fn lowercase(s: Seq<char>) -> Seq<char>;

/// The lowercase form of an ASCII character: `A` to `Z` become `a` to `z`.
pub open spec fn ascii_lower(c: char) -> char {
    if 'A' <= c && c <= 'Z' {
        ((c as u32) + 32) as char
    } else {
        c
    }
}

/// Calls `str::to_lowercase`. Its documentation maps every character to one or
/// more characters, so the result is empty exactly when the argument is; on
/// ASCII text the Unicode mapping only turns `A` to `Z` into `a` to `z`.
/// What the mapping does to other characters is left to the name `lowercase`.
#[verifier::external_body]
pub(crate) fn to_lowercase(s: &str) -> (res: String)
    ensures
        res@ == lowercase(s@),
        (res@.len() == 0) == (s@.len() == 0),
        (forall|i: int| 0 <= i < s@.len() ==> (s@[i] as u32) < 128) ==> res@ == s@.map_values(
            |c: char| ascii_lower(c),
        ),
{
    s.to_lowercase()
}

/// Name for what `char::is_uppercase` returns: the Unicode `Uppercase` property.
pub uninterp spec fn uppercase_char(c: char) -> bool;

/// Calls `char::is_uppercase`; the property itself is left to `uppercase_char`.
#[verifier::external_body]
pub(crate) fn is_uppercase(c: char) -> (b: bool)
    ensures
        b == uppercase_char(c),
{
    c.is_uppercase()
}

// ---------------------------------------------------------------------------
// Whitespace, trimming and splitting
// ---------------------------------------------------------------------------

/// The Unicode `White_Space` property, which `char::is_whitespace`, `str::trim`
/// and `str::split_whitespace` go by.
pub open spec fn is_white_space(c: char) -> bool {
    let u = c as u32;
    (0x09 <= u && u <= 0x0D) || u == 0x20 || u == 0x85 || u == 0xA0 || u == 0x1680 || (0x2000
        <= u && u <= 0x200A) || u == 0x2028 || u == 0x2029 || u == 0x202F || u == 0x205F || u
        == 0x3000
}

pub fn white_space(c: char) -> (b: bool)
    ensures
        b == is_white_space(c),
{
    let u = c as u32;
    (0x09 <= u && u <= 0x0D) || u == 0x20 || u == 0x85 || u == 0xA0 || u == 0x1680 || (0x2000
        <= u && u <= 0x200A) || u == 0x2028 || u == 0x2029 || u == 0x202F || u == 0x205F || u
        == 0x3000
}

pub open spec fn trim_start(s: Seq<char>) -> Seq<char>
    decreases s.len(),
{
    if s.len() > 0 && is_white_space(s[0]) {
        trim_start(s.drop_first())
    } else {
        s
    }
}

pub open spec fn trim_end(s: Seq<char>) -> Seq<char>
    decreases s.len(),
{
    if s.len() > 0 && is_white_space(s.last()) {
        trim_end(s.drop_last())
    } else {
        s
    }
}

/// `str::trim`: whitespace removed from both ends.
pub open spec fn trim(s: Seq<char>) -> Seq<char> {
    trim_end(trim_start(s))
}

/// The characters of `s` without leading and trailing whitespace.
pub fn trim_chars(s: &Vec<char>) -> (r: Vec<char>)
    ensures
        r@ == trim(s@),
{
    let n = s.len();
    let mut i: usize = 0;
    assert(s@.subrange(0, n as int) =~= s@);
    while i < n && white_space(s[i])
        invariant
            i <= n == s@.len(),
            trim_start(s@) == trim_start(s@.subrange(i as int, n as int)),
        decreases n - i,
    {
        assert(s@.subrange(i as int, n as int).drop_first() =~= s@.subrange(i + 1, n as int));
        i = i + 1;
    }
    assert(trim_start(s@.subrange(i as int, n as int)) == s@.subrange(i as int, n as int));
    let mut j: usize = n;
    while j > i && white_space(s[j - 1])
        invariant
            i <= j <= n == s@.len(),
            trim(s@) == trim_end(s@.subrange(i as int, j as int)),
        decreases j - i,
    {
        assert(s@.subrange(i as int, j as int).drop_last() =~= s@.subrange(i as int, j - 1));
        j = j - 1;
    }
    let mut r: Vec<char> = Vec::new();
    let mut k: usize = i;
    while k < j
        invariant
            i <= k <= j <= n == s@.len(),
            r@ == s@.subrange(i as int, k as int),
        decreases j - k,
    {
        r.push(s[k]);
        assert(r@ =~= s@.subrange(i as int, k + 1));
        k = k + 1;
    }
    r
}

/// `s` without leading and trailing whitespace (`str::trim`).
pub fn trim_text(s: &str) -> (r: String)
    ensures
        r@ == trim(s@),
{
    let c = chars_of(s);
    let t = trim_chars(&c);
    string_of(t.as_slice())
}

/// Splitting by whitespace, as a state over a prefix: the finished pieces and
/// the piece being read.
pub open spec fn ws_split_state(s: Seq<char>) -> (Seq<Seq<char>>, Seq<char>)
    decreases s.len(),
{
    if s.len() == 0 {
        (seq![], seq![])
    } else {
        let (done, cur) = ws_split_state(s.drop_last());
        if is_white_space(s.last()) {
            if cur.len() > 0 {
                (done.push(cur), seq![])
            } else {
                (done, cur)
            }
        } else {
            (done, cur.push(s.last()))
        }
    }
}

/// `str::split_whitespace`: the maximal runs of non-whitespace characters.
pub open spec fn split_whitespace(s: Seq<char>) -> Seq<Seq<char>> {
    let (done, cur) = ws_split_state(s);
    if cur.len() > 0 {
        done.push(cur)
    } else {
        done
    }
}

pub proof fn lemma_ws_split_count(s: Seq<char>)
    ensures
        ws_split_state(s).0.len() + ws_split_state(s).1.len() <= s.len(),
        split_whitespace(s).len() <= s.len(),
    decreases s.len(),
{
    if s.len() > 0 {
        lemma_ws_split_count(s.drop_last());
    }
}

pub open spec fn views(v: Seq<Vec<char>>) -> Seq<Seq<char>> {
    v.map_values(|x: Vec<char>| x@)
}

/// The whitespace-separated words of `s`.
pub fn split_whitespace_chars(s: &Vec<char>) -> (r: Vec<Vec<char>>)
    ensures
        views(r@) == split_whitespace(s@),
{
    let mut done: Vec<Vec<char>> = Vec::new();
    let mut cur: Vec<char> = Vec::new();
    let mut i: usize = 0;
    while i < s.len()
        invariant
            i <= s@.len(),
            (views(done@), cur@) == ws_split_state(s@.take(i as int)),
        decreases s@.len() - i,
    {
        let c = s[i];
        assert(s@.take(i + 1).drop_last() =~= s@.take(i as int));
        if white_space(c) {
            if cur.len() > 0 {
                let piece = cur;
                done.push(piece);
                cur = Vec::new();
                assert(views(done@) =~= ws_split_state(s@.take(i as int)).0.push(piece@));
            }
        } else {
            cur.push(c);
        }
        i = i + 1;
    }
    proof {
        lemma_take_full(s@);
    }
    if cur.len() > 0 {
        let piece = cur;
        done.push(piece);
        assert(views(done@) =~= ws_split_state(s@).0.push(piece@));
    }
    done
}

/// The path separators that the search splits on.
pub open spec fn is_path_sep(c: char) -> bool {
    c == '\\' || c == '/'
}

pub open spec fn sep_split_state(s: Seq<char>) -> (Seq<Seq<char>>, Seq<char>)
    decreases s.len(),
{
    if s.len() == 0 {
        (seq![], seq![])
    } else {
        let (done, cur) = sep_split_state(s.drop_last());
        if is_path_sep(s.last()) {
            (done.push(cur), seq![])
        } else {
            (done, cur.push(s.last()))
        }
    }
}

/// `str::split(&['\\', '/'])`: the pieces between separators, empty ones
/// included; there is always at least one.
pub open spec fn path_segments(s: Seq<char>) -> Seq<Seq<char>> {
    sep_split_state(s).0.push(sep_split_state(s).1)
}

/// The pieces of `s` between `\` and `/` separators.
pub fn path_segments_chars(s: &Vec<char>) -> (r: Vec<Vec<char>>)
    ensures
        views(r@) == path_segments(s@),
{
    let mut done: Vec<Vec<char>> = Vec::new();
    let mut cur: Vec<char> = Vec::new();
    let mut i: usize = 0;
    while i < s.len()
        invariant
            i <= s@.len(),
            (views(done@), cur@) == sep_split_state(s@.take(i as int)),
        decreases s@.len() - i,
    {
        let c = s[i];
        assert(s@.take(i + 1).drop_last() =~= s@.take(i as int));
        if c == '\\' || c == '/' {
            let piece = cur;
            done.push(piece);
            cur = Vec::new();
            assert(views(done@) =~= sep_split_state(s@.take(i as int)).0.push(piece@));
        } else {
            cur.push(c);
        }
        i = i + 1;
    }
    proof {
        lemma_take_full(s@);
    }
    let piece = cur;
    done.push(piece);
    assert(views(done@) =~= sep_split_state(s@).0.push(piece@));
    done
}

// ---------------------------------------------------------------------------
// Prefixes, occurrences, subsequences
// ---------------------------------------------------------------------------

/// `s` starts with `p` (`str::starts_with`).
pub open spec fn is_prefix(p: Seq<char>, s: Seq<char>) -> bool {
    p.len() <= s.len() && s.take(p.len() as int) == p
}

/// `needle` stands in `hay` at character index `i`.
pub open spec fn occurs_at(hay: Seq<char>, needle: Seq<char>, i: int) -> bool {
    0 <= i && i + needle.len() <= hay.len() && hay.subrange(i, i + needle.len()) == needle
}

/// First index at or after `i` where `needle` stands in `hay`.
pub open spec fn find_from(hay: Seq<char>, needle: Seq<char>, i: int) -> Option<int>
    decreases hay.len() + 1 - i,
{
    if i < 0 || i + needle.len() > hay.len() {
        None
    } else if occurs_at(hay, needle, i) {
        Some(i)
    } else {
        find_from(hay, needle, i + 1)
    }
}

/// `str::find` with a string pattern, counted in characters: UTF-8 is
/// self-synchronising, so a match of valid text within valid text starts on a
/// character boundary, and the first byte match is the first character match.
pub open spec fn find(hay: Seq<char>, needle: Seq<char>) -> Option<int> {
    find_from(hay, needle, 0)
}

pub proof fn lemma_find_from_bounds(hay: Seq<char>, needle: Seq<char>, i: int)
    ensures
        find_from(hay, needle, i) matches Some(p) ==> i <= p && occurs_at(hay, needle, p),
    decreases hay.len() + 1 - i,
{
    if !(i < 0 || i + needle.len() > hay.len()) && !occurs_at(hay, needle, i) {
        lemma_find_from_bounds(hay, needle, i + 1);
    }
}

/// Whether `needle` stands in `hay` at index `i`.
pub fn matches_at(hay: &Vec<char>, needle: &Vec<char>, i: usize) -> (b: bool)
    requires
        i + needle@.len() <= hay@.len(),
    ensures
        b == occurs_at(hay@, needle@, i as int),
{
    let mut k: usize = 0;
    let hay_len = hay.len();
    while k < needle.len()
        invariant
            k <= needle@.len(),
            i + needle@.len() <= hay@.len(),
            hay@.len() <= usize::MAX,
            forall|j: int| 0 <= j < k ==> hay@[i + j] == needle@[j],
        decreases needle@.len() - k,
    {
        if hay[i + k] != needle[k] {
            assert(hay@.subrange(i as int, i + needle@.len())[k as int] != needle@[k as int]);
            return false;
        }
        k = k + 1;
    }
    assert(hay@.subrange(i as int, i + needle@.len()) =~= needle@);
    true
}

/// First character index where `needle` stands in `hay`.
pub fn find_chars(hay: &Vec<char>, needle: &Vec<char>) -> (r: Option<usize>)
    ensures
        r matches Some(p) ==> find(hay@, needle@) == Some(p as int),
        r is None ==> find(hay@, needle@) is None,
{
    if needle.len() > hay.len() {
        return None;
    }
    let mut i: usize = 0;
    let last = hay.len() - needle.len();
    while i < last
        invariant
            last + needle@.len() == hay@.len(),
            i <= last,
            find(hay@, needle@) == find_from(hay@, needle@, i as int),
        decreases last - i,
    {
        if matches_at(hay, needle, i) {
            return Some(i);
        }
        i = i + 1;
    }
    if matches_at(hay, needle, last) {
        Some(last)
    } else {
        assert(find_from(hay@, needle@, last + 1) is None);
        None
    }
}

/// Whether `hay` starts with `p`.
pub fn starts_with_chars(hay: &Vec<char>, p: &Vec<char>) -> (b: bool)
    ensures
        b == is_prefix(p@, hay@),
{
    if p.len() > hay.len() {
        return false;
    }
    let b = matches_at(hay, p, 0);
    assert(hay@.subrange(0, p@.len() as int) =~= hay@.take(p@.len() as int));
    b
}

/// Whether the two character sequences are equal.
pub fn chars_equal(a: &Vec<char>, b: &Vec<char>) -> (r: bool)
    ensures
        r == (a@ == b@),
{
    if a.len() != b.len() {
        return false;
    }
    let r = starts_with_chars(a, b);
    assert(a@.take(b@.len() as int) =~= a@);
    r
}

/// `tok` is a subsequence of `s`: its characters appear in `s` in order.
pub open spec fn is_subseq(tok: Seq<char>, s: Seq<char>) -> bool
    decreases s.len(),
{
    if tok.len() == 0 {
        true
    } else if s.len() == 0 {
        false
    } else if tok[0] == s[0] {
        is_subseq(tok.drop_first(), s.drop_first())
    } else {
        is_subseq(tok, s.drop_first())
    }
}

/// Every text is a subsequence of itself.
pub proof fn lemma_subseq_refl(x: Seq<char>)
    ensures
        is_subseq(x, x),
    decreases x.len(),
{
    if x.len() > 0 {
        lemma_subseq_refl(x.drop_first());
    }
}

/// Dropping the first character of a subsequence keeps it a subsequence.
pub proof fn lemma_subseq_drop_first(x: Seq<char>, s: Seq<char>)
    requires
        x.len() > 0,
        is_subseq(x, s),
    ensures
        is_subseq(x.drop_first(), s),
    decreases s.len(), 1int,
{
    if x.len() > 1 && x[0] != s[0] {
        lemma_subseq_drop_first(x, s.drop_first());
        lemma_subseq_prepend(x.drop_first(), s.drop_first(), s[0]);
        assert(seq![s[0]] + s.drop_first() =~= s);
    } else if x.len() > 1 {
        lemma_subseq_prepend(x.drop_first(), s.drop_first(), s[0]);
        assert(seq![s[0]] + s.drop_first() =~= s);
    }
}

/// A subsequence stays one when a character is put in front of the text.
pub proof fn lemma_subseq_prepend(x: Seq<char>, s: Seq<char>, c: char)
    requires
        is_subseq(x, s),
    ensures
        is_subseq(x, seq![c] + s),
    decreases s.len() + 1, 0int,
{
    let cs = seq![c] + s;
    assert(cs.drop_first() =~= s);
    if x.len() > 0 && x[0] == c {
        lemma_subseq_drop_first(x, s);
    }
}

/// Dropping the last character of a subsequence keeps it a subsequence.
pub proof fn lemma_subseq_drop_last(x: Seq<char>, s: Seq<char>)
    requires
        x.len() > 0,
        is_subseq(x, s),
    ensures
        is_subseq(x.drop_last(), s),
    decreases s.len(),
{
    if x.len() == 1 {
        assert(x.drop_last().len() == 0);
    } else if x[0] == s[0] {
        lemma_subseq_drop_last(x.drop_first(), s.drop_first());
        assert(x.drop_last().drop_first() =~= x.drop_first().drop_last());
    } else {
        lemma_subseq_drop_last(x, s.drop_first());
        lemma_subseq_prepend(x.drop_last(), s.drop_first(), s[0]);
        assert(seq![s[0]] + s.drop_first() =~= s);
    }
}

/// Every piece of a subsequence is a subsequence too.
pub proof fn lemma_subseq_subrange(x: Seq<char>, s: Seq<char>, a: int, b: int)
    requires
        0 <= a <= b <= x.len(),
        is_subseq(x, s),
    ensures
        is_subseq(x.subrange(a, b), s),
    decreases x.len(),
{
    if a > 0 {
        lemma_subseq_drop_first(x, s);
        lemma_subseq_subrange(x.drop_first(), s, a - 1, b - 1);
        assert(x.drop_first().subrange(a - 1, b - 1) =~= x.subrange(a, b));
    } else if b < x.len() {
        lemma_subseq_drop_last(x, s);
        lemma_subseq_subrange(x.drop_last(), s, a, b);
        assert(x.drop_last().subrange(a, b) =~= x.subrange(a, b));
    } else {
        assert(x.subrange(a, b) =~= x);
    }
}

/// A non-empty subsequence can be matched from a position of the text that
/// holds its first character.
pub proof fn lemma_subseq_start(x: Seq<char>, s: Seq<char>)
    requires
        x.len() > 0,
        is_subseq(x, s),
    ensures
        exists|j: int| 0 <= j < s.len() && s[j] == x[0] && is_subseq(x, #[trigger] s.skip(j)),
    decreases s.len(),
{
    if x[0] == s[0] {
        assert(s.skip(0) =~= s);
    } else {
        lemma_subseq_start(x, s.drop_first());
        let j = choose|j: int|
            0 <= j < s.drop_first().len() && s.drop_first()[j] == x[0] && is_subseq(
                x,
                #[trigger] s.drop_first().skip(j),
            );
        assert(s.skip(j + 1) =~= s.drop_first().skip(j));
    }
}

/// A subsequence stays one when text is put in front of it.
pub proof fn lemma_subseq_prefix_text(x: Seq<char>, s: Seq<char>, u: Seq<char>)
    requires
        is_subseq(x, s),
    ensures
        is_subseq(x, u + s),
    decreases u.len(),
{
    if u.len() > 0 {
        lemma_subseq_prefix_text(x, s, u.drop_first());
        lemma_subseq_prepend(x, u.drop_first() + s, u[0]);
        assert(seq![u[0]] + (u.drop_first() + s) =~= u + s);
    }
}

/// A subsequence stays one when text is added after it.
pub proof fn lemma_subseq_suffix_text(x: Seq<char>, s: Seq<char>, u: Seq<char>)
    requires
        is_subseq(x, s),
    ensures
        is_subseq(x, s + u),
    decreases s.len(),
{
    if x.len() > 0 {
        assert((s + u).drop_first() =~= s.drop_first() + u);
        if x[0] == s[0] {
            lemma_subseq_suffix_text(x.drop_first(), s.drop_first(), u);
        } else {
            lemma_subseq_suffix_text(x, s.drop_first(), u);
        }
    }
}

/// A subsequence of a piece of a text is a subsequence of the text.
pub proof fn lemma_subseq_of_piece(x: Seq<char>, s: Seq<char>, a: int, b: int)
    requires
        0 <= a <= b <= s.len(),
        is_subseq(x, s.subrange(a, b)),
    ensures
        is_subseq(x, s),
{
    lemma_subseq_suffix_text(x, s.subrange(a, b), s.subrange(b, s.len() as int));
    lemma_subseq_prefix_text(x, s.subrange(a, b) + s.subrange(b, s.len() as int), s.subrange(0, a));
    assert(s.subrange(0, a) + (s.subrange(a, b) + s.subrange(b, s.len() as int)) =~= s);
}

/// Matching one more character at the end of both keeps a subsequence.
pub proof fn lemma_subseq_push(x: Seq<char>, s: Seq<char>, c: char)
    requires
        is_subseq(x, s),
    ensures
        is_subseq(x.push(c), s.push(c)),
    decreases s.len(),
{
    if x.len() == 0 {
        assert(seq![c] =~= x.push(c));
        lemma_subseq_refl(seq![c]);
        lemma_subseq_prefix_text(seq![c], seq![c], s);
        assert(s + seq![c] =~= s.push(c));
    } else {
        assert(s.push(c).drop_first() =~= s.drop_first().push(c));
        assert(x.push(c).drop_first() =~= x.drop_first().push(c));
        if x[0] == s[0] {
            lemma_subseq_push(x.drop_first(), s.drop_first(), c);
        } else {
            lemma_subseq_push(x, s.drop_first(), c);
        }
    }
}

/// Whether the characters of `tok` appear in `s` in order.
pub fn subseq_chars(tok: &Vec<char>, s: &Vec<char>) -> (b: bool)
    ensures
        b == is_subseq(tok@, s@),
{
    let mut k: usize = 0;
    let mut j: usize = 0;
    assert(tok@.skip(0) =~= tok@);
    assert(s@.skip(0) =~= s@);
    while j < s.len()
        invariant
            k <= tok@.len(),
            j <= s@.len(),
            is_subseq(tok@, s@) == is_subseq(tok@.skip(k as int), s@.skip(j as int)),
        decreases s@.len() - j,
    {
        if k == tok.len() {
            return true;
        }
        assert(s@.skip(j as int).drop_first() =~= s@.skip(j + 1));
        if tok[k] == s[j] {
            assert(tok@.skip(k as int).drop_first() =~= tok@.skip(k + 1));
            k = k + 1;
        }
        j = j + 1;
    }
    k == tok.len()
}

/// What follows the last `c` of `s` (all of `s` when it has none).
pub open spec fn after_last(s: Seq<char>, c: char) -> Seq<char>
    decreases s.len(),
{
    if s.len() == 0 {
        s
    } else if s.last() == c {
        seq![]
    } else {
        after_last(s.drop_last(), c).push(s.last())
    }
}

/// What follows the last `c` of `s`.
pub fn after_last_chars(s: &Vec<char>, c: char) -> (r: Vec<char>)
    ensures
        r@ == after_last(s@, c),
{
    let mut j: usize = s.len();
    assert(s@.take(j as int) =~= s@);
    assert(after_last(s@, c) + s@.subrange(j as int, j as int) =~= after_last(s@, c));
    while j > 0 && s[j - 1] != c
        invariant
            j <= s@.len(),
            after_last(s@, c) == after_last(s@.take(j as int), c) + s@.subrange(
                j as int,
                s@.len() as int,
            ),
        decreases j,
    {
        assert(s@.take(j as int).drop_last() =~= s@.take(j - 1));
        assert(s@.subrange(j - 1, s@.len() as int) =~= seq![s@[j - 1]] + s@.subrange(
            j as int,
            s@.len() as int,
        ));
        assert(after_last(s@.take(j - 1), c).push(s@[j - 1]) + s@.subrange(
            j as int,
            s@.len() as int,
        ) =~= after_last(s@.take(j - 1), c) + s@.subrange(j - 1, s@.len() as int));
        j = j - 1;
    }
    proof {
        if j > 0 {
            assert(s@.take(j as int).last() == c);
        }
        assert(after_last(s@.take(j as int), c) =~= seq![]);
    }
    let mut r: Vec<char> = Vec::new();
    let mut k: usize = j;
    while k < s.len()
        invariant
            j <= k <= s@.len(),
            r@ == s@.subrange(j as int, k as int),
        decreases s@.len() - k,
    {
        r.push(s[k]);
        assert(r@ =~= s@.subrange(j as int, k + 1));
        k = k + 1;
    }
    assert(r@ =~= after_last(s@, c));
    r
}

} // verus!
