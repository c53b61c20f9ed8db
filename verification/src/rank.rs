//! Stable ranking of results: entries marked "front" first, then by score from
//! high to low, equal ones in the order they were given.
use vstd::prelude::*;
use crate::score::{Score, lemma_below_order};

verus! {

/// What an entry is ranked by.
#[derive(Clone, Copy, Debug)]
pub struct RankKey {
    /// Entries with this flag come before all others.
    pub front: bool,
    pub score: Score,
}

/// Every score in `keys` is well formed.
pub open spec fn keys_wf(keys: Seq<RankKey>) -> bool {
    forall|i: int| 0 <= i < keys.len() ==> (#[trigger] keys[i]).score.wf()
}

/// Entry `i` ranks before entry `j`.
pub open spec fn key_before(keys: Seq<RankKey>, i: int, j: int) -> bool {
    let a = keys[i];
    let b = keys[j];
    ||| (a.front && !b.front)
    ||| (a.front == b.front && b.score.below(a.score))
    ||| (a.front == b.front && !b.score.below(a.score) && !a.score.below(b.score) && i < j)
}

/// Number of marked entries among the first `n`.
pub open spec fn count_marked(mask: Seq<bool>, n: int) -> nat
    decreases n,
{
    if n <= 0 {
        0
    } else {
        count_marked(mask, n - 1) + if mask[n - 1] {
            1nat
        } else {
            0nat
        }
    }
}

/// The entries of `sel` are marked and strictly in ranking order.
pub open spec fn ranked(keys: Seq<RankKey>, mask: Seq<bool>, sel: Seq<usize>) -> bool {
    &&& forall|k: int| 0 <= k < sel.len() ==> #[trigger] sel[k] < keys.len() && mask[sel[k] as int]
    &&& forall|j: int, k: int|
        0 <= j < k < sel.len() ==> key_before(keys, #[trigger] sel[j] as int, #[trigger] sel[k] as int)
}

/// `sel` is the ranking of all marked entries.
pub open spec fn is_ranking(keys: Seq<RankKey>, mask: Seq<bool>, sel: Seq<usize>) -> bool {
    &&& ranked(keys, mask, sel)
    &&& sel.len() == count_marked(mask, mask.len() as int)
    &&& forall|i: int| 0 <= i < mask.len() && mask[i] ==> sel.contains(i as usize)
}

pub open spec fn min_nat(a: nat, b: nat) -> nat {
    if a <= b {
        a
    } else {
        b
    }
}

/// `sel` holds the first `limit` entries of the ranking of the marked entries:
/// it is ranked, as long as `limit` allows, and every marked entry left out
/// ranks after every entry kept.
pub open spec fn is_top(keys: Seq<RankKey>, mask: Seq<bool>, limit: nat, sel: Seq<usize>) -> bool {
    &&& ranked(keys, mask, sel)
    &&& sel.len() == min_nat(limit, count_marked(mask, mask.len() as int))
    &&& forall|i: int, k: int|
        #![trigger mask[i], sel[k]]
        0 <= i < mask.len() && mask[i] && !sel.contains(i as usize) && 0 <= k < sel.len()
            ==> key_before(keys, sel[k] as int, i)
}

/// `key_before` is a strict total order on distinct entries.
pub proof fn lemma_key_order(keys: Seq<RankKey>, i: int, j: int, k: int)
    requires
        keys_wf(keys),
        0 <= i < keys.len(),
        0 <= j < keys.len(),
        0 <= k < keys.len(),
    ensures
        !key_before(keys, i, i),
        key_before(keys, i, j) ==> !key_before(keys, j, i),
        i != j ==> key_before(keys, i, j) || key_before(keys, j, i),
        key_before(keys, i, j) && key_before(keys, j, k) ==> key_before(keys, i, k),
{
    let (a, b, c) = (keys[i].score, keys[j].score, keys[k].score);
    assert(keys[i].score.wf() && keys[j].score.wf() && keys[k].score.wf());
    lemma_below_order(a, b, c);
    lemma_below_order(c, b, a);
    lemma_below_order(b, a, c);
    lemma_below_order(a, c, b);
    lemma_below_order(b, c, a);
    lemma_below_order(c, a, b);
}

proof fn lemma_insert_index(s: Seq<usize>, p: int, x: usize, k: int)
    requires
        0 <= p <= s.len(),
        0 <= k <= s.len(),
    ensures
        s.insert(p, x)[k] == if k < p {
            s[k]
        } else if k == p {
            x
        } else {
            s[k - 1]
        },
{
    s.insert_ensures(p, x);
    if k > p {
        assert(s.insert(p, x)[(k - 1) + 1] == s[k - 1]);
    }
}

/// Ranks the marked entries, stably.
pub fn rank_marked(keys: &Vec<RankKey>, mask: &Vec<bool>) -> (sel: Vec<usize>)
    requires
        keys@.len() == mask@.len(),
        keys_wf(keys@),
    ensures
        is_ranking(keys@, mask@, sel@),
{
    let n = keys.len();
    let mut out: Vec<usize> = Vec::new();
    let mut i: usize = 0;
    while i < n
        invariant
            n == keys@.len() == mask@.len(),
            keys_wf(keys@),
            i <= n,
            ranked(keys@, mask@, out@),
            out@.len() == count_marked(mask@, i as int),
            forall|k: int| 0 <= k < out@.len() ==> #[trigger] out@[k] < i,
            forall|m: int| 0 <= m < i && mask@[m] ==> out@.contains(m as usize),
        decreases n - i,
    {
        if mask[i] {
            let mut p: usize = 0;
            while p < out.len() && before(keys, out[p], i)
                invariant
                    n == keys@.len() == mask@.len(),
                    keys_wf(keys@),
                    i < n,
                    p <= out@.len(),
                    ranked(keys@, mask@, out@),
                    forall|k: int| 0 <= k < out@.len() ==> #[trigger] out@[k] < i,
                    forall|k: int| 0 <= k < p ==> key_before(keys@, #[trigger] out@[k] as int, i as int),
                decreases out@.len() - p,
            {
                p = p + 1;
            }
            let ghost old_out = out@;
            out.insert(p, i);
            proof {
                old_out.insert_ensures(p as int, i);
                if p < old_out.len() {
                    lemma_key_order(keys@, old_out[p as int] as int, i as int, i as int);
                }
                assert forall|j: int, k: int| 0 <= j < k < out@.len() implies key_before(
                    keys@,
                    #[trigger] out@[j] as int,
                    #[trigger] out@[k] as int,
                ) by {
                    if k < p {
                        lemma_insert_index(old_out, p as int, i, k);
                        lemma_insert_index(old_out, p as int, i, j);
                    } else if j < p && k == p {
                    } else if j < p && k > p {
                        assert(out@[k] == old_out[k - 1]);
                    } else if j == p {
                        assert(out@[k] == old_out[k - 1]);
                        if k - 1 > p {
                            lemma_key_order(
                                keys@,
                                i as int,
                                old_out[p as int] as int,
                                old_out[k - 1] as int,
                            );
                        }
                    } else {
                        lemma_insert_index(old_out, p as int, i, k);
                        lemma_insert_index(old_out, p as int, i, j);
                        assert(key_before(keys@, old_out[j - 1] as int, old_out[k - 1] as int));
                    }
                }
                assert forall|m: int| 0 <= m < i + 1 && mask@[m] implies out@.contains(
                    m as usize,
                ) by {
                    if m < i {
                        let q = choose|q: int| 0 <= q < old_out.len() && old_out[q] == m as usize;
                        if q < p {
                            assert(out@[q] == m as usize);
                        } else {
                            assert(out@[q + 1] == m as usize);
                        }
                    } else {
                        assert(out@[p as int] == i);
                    }
                }
            }
        }
        i = i + 1;
    }
    out
}

/// Whether entry `i` ranks before entry `j`.
fn before(keys: &Vec<RankKey>, i: usize, j: usize) -> (b: bool)
    requires
        i < keys@.len(),
        j < keys@.len(),
        keys_wf(keys@),
    ensures
        b == key_before(keys@, i as int, j as int),
{
    let a = &keys[i];
    let c = &keys[j];
    assert(keys@[i as int].score.wf() && keys@[j as int].score.wf());
    if a.front != c.front {
        a.front
    } else if c.score.less_than(&a.score) {
        true
    } else if a.score.less_than(&c.score) {
        false
    } else {
        i < j
    }
}

/// The first `limit` entries of the ranking of the marked entries.
pub fn top_marked(keys: &Vec<RankKey>, mask: &Vec<bool>, limit: usize) -> (sel: Vec<usize>)
    requires
        keys@.len() == mask@.len(),
        keys_wf(keys@),
    ensures
        is_top(keys@, mask@, limit as nat, sel@),
{
    let all = rank_marked(keys, mask);
    let n = mask.len();
    let mut sel: Vec<usize> = Vec::new();
    let mut k: usize = 0;
    while k < all.len() && k < limit
        invariant
            k <= all@.len(),
            k <= limit,
            sel@ == all@.take(k as int),
        decreases all@.len() - k,
    {
        sel.push(all[k]);
        assert(sel@ =~= all@.take(k + 1));
        k = k + 1;
    }
    proof {
        assert forall|j: int, q: int| 0 <= j < q < sel@.len() implies key_before(
            keys@,
            #[trigger] sel@[j] as int,
            #[trigger] sel@[q] as int,
        ) by {
            assert(sel@[j] == all@[j] && sel@[q] == all@[q]);
        }
        assert forall|q: int| 0 <= q < sel@.len() implies #[trigger] sel@[q] < keys@.len()
            && mask@[sel@[q] as int] by {
            assert(sel@[q] == all@[q]);
        }
        assert forall|i: int, q: int|
            #![trigger mask@[i], sel@[q]]
            0 <= i < mask@.len() && mask@[i] && !sel@.contains(i as usize) && 0 <= q < sel@.len()
                implies key_before(keys@, sel@[q] as int, i) by {
            assert(i as usize as int == i);
            assert(all@.contains(i as usize));
            let r = choose|r: int| 0 <= r < all@.len() && all@[r] == i as usize;
            if r < k {
                assert(sel@[r] == i as usize);
                assert(sel@.contains(i as usize));
            }
            assert(sel@[q] == all@[q]);
            assert(key_before(keys@, all@[q] as int, all@[r] as int));
        }
    }
    sel
}

/// The first `limit` entries of the ranking of the marked entries.
pub open spec fn top_of(keys: Seq<RankKey>, mask: Seq<bool>, limit: nat) -> Seq<usize> {
    choose|sel: Seq<usize>| is_top(keys, mask, limit, sel)
}

/// A stable ranking is unique: two selections that both hold the first
/// `limit` marked entries in ranking order are the same sequence.
pub proof fn lemma_top_unique(
    keys: Seq<RankKey>,
    mask: Seq<bool>,
    limit: nat,
    s1: Seq<usize>,
    s2: Seq<usize>,
)
    requires
        keys_wf(keys),
        keys.len() == mask.len(),
        is_top(keys, mask, limit, s1),
        is_top(keys, mask, limit, s2),
    ensures
        s1 == s2,
{
    if s1 != s2 {
        assert(s1.len() == s2.len());
        let k = choose|k: int| 0 <= k < s1.len() && s1[k] != s2[k] && forall|j: int|
            0 <= j < k ==> s1[j] == s2[j];
        assert(exists|k: int| 0 <= k < s1.len() && s1[k] != s2[k]) by {
            if forall|k: int| 0 <= k < s1.len() ==> s1[k] == s2[k] {
                assert(s1 =~= s2);
            }
        }
        lemma_first_difference(s1, s2);
        let x = s1[k] as int;
        let y = s2[k] as int;
        lemma_key_order(keys, x, y, x);
        lemma_not_in_other(keys, mask, limit, s1, s2, k);
        lemma_not_in_other(keys, mask, limit, s2, s1, k);
    }
}

proof fn lemma_first_difference(s1: Seq<usize>, s2: Seq<usize>)
    requires
        s1.len() == s2.len(),
        exists|k: int| 0 <= k < s1.len() && s1[k] != s2[k],
    ensures
        exists|k: int|
            0 <= k < s1.len() && s1[k] != s2[k] && forall|j: int| 0 <= j < k ==> s1[j] == s2[j],
    decreases s1.len(),
{
    if s1[0] != s2[0] {
        assert(0 < s1.len() && s1[0] != s2[0] && forall|j: int| 0 <= j < 0 ==> s1[j] == s2[j]);
    } else {
        let k0 = choose|k: int| 0 <= k < s1.len() && s1[k] != s2[k];
        assert(s1.drop_first()[k0 - 1] != s2.drop_first()[k0 - 1]);
        lemma_first_difference(s1.drop_first(), s2.drop_first());
        let k = choose|k: int|
            0 <= k < s1.drop_first().len() && s1.drop_first()[k] != s2.drop_first()[k] && forall|
                j: int,
            | 0 <= j < k ==> s1.drop_first()[j] == s2.drop_first()[j];
        assert forall|j: int| 0 <= j < k + 1 implies s1[j] == s2[j] by {
            if j > 0 {
                assert(s1.drop_first()[j - 1] == s2.drop_first()[j - 1]);
            }
        }
    }
}

/// At the first position where two top selections differ, the entry of the
/// first cannot rank before the entry of the second.
proof fn lemma_not_in_other(
    keys: Seq<RankKey>,
    mask: Seq<bool>,
    limit: nat,
    s1: Seq<usize>,
    s2: Seq<usize>,
    k: int,
)
    requires
        keys_wf(keys),
        keys.len() == mask.len(),
        is_top(keys, mask, limit, s1),
        is_top(keys, mask, limit, s2),
        0 <= k < s1.len(),
        s1[k] != s2[k],
        forall|j: int| 0 <= j < k ==> s1[j] == s2[j],
    ensures
        !key_before(keys, s1[k] as int, s2[k] as int),
{
    let x = s1[k];
    let y = s2[k];
    assert(x < keys.len() && mask[x as int]);
    assert(y < keys.len() && mask[y as int]);
    if key_before(keys, x as int, y as int) {
        lemma_key_order(keys, x as int, y as int, x as int);
        if s2.contains(x) {
            let m = choose|m: int| 0 <= m < s2.len() && s2[m] == x;
            if m < k {
                assert(s1[m] == x);
                assert(key_before(keys, s1[m] as int, s1[k] as int));
                lemma_key_order(keys, x as int, x as int, x as int);
            } else {
                assert(m != k);
                assert(key_before(keys, s2[k] as int, s2[m] as int));
            }
        } else {
            assert(x as int as usize == x);
            assert(mask[x as int]);
            assert(key_before(keys, s2[k] as int, x as int));
        }
    }
}

/// A selection that holds the first `limit` ranked entries is `top_of`.
pub proof fn lemma_top_of(keys: Seq<RankKey>, mask: Seq<bool>, limit: nat, sel: Seq<usize>)
    requires
        keys_wf(keys),
        keys.len() == mask.len(),
        is_top(keys, mask, limit, sel),
    ensures
        sel == top_of(keys, mask, limit),
{
    lemma_top_unique(keys, mask, limit, sel, top_of(keys, mask, limit));
}

/// The indices of the marked entries among the first `n`, in order.
pub open spec fn marked_indices(mask: Seq<bool>, n: int) -> Seq<usize>
    decreases n,
{
    if n <= 0 {
        seq![]
    } else if mask[n - 1] {
        marked_indices(mask, n - 1).push((n - 1) as usize)
    } else {
        marked_indices(mask, n - 1)
    }
}

/// Key `a` ranks before key `b` whatever their places in the list: it is
/// marked "front" and `b` is not, or both are alike and `a` scores higher.
pub open spec fn precedes(a: RankKey, b: RankKey) -> bool {
    ||| (a.front && !b.front)
    ||| (a.front == b.front && b.score.below(a.score))
}

/// What a top selection looks like: no longer than the limit, made of
/// distinct marked entries, none of them preceded by a later one.
pub proof fn lemma_top_shape(keys: Seq<RankKey>, mask: Seq<bool>, limit: nat, sel: Seq<usize>)
    requires
        keys_wf(keys),
        keys.len() == mask.len(),
        is_top(keys, mask, limit, sel),
    ensures
        sel.len() <= limit,
        forall|k: int| 0 <= k < sel.len() ==> #[trigger] sel[k] < keys.len() && mask[sel[k] as int],
        forall|j: int, k: int| 0 <= j < k < sel.len() ==> #[trigger] sel[j] != #[trigger] sel[k],
        forall|j: int, k: int|
            0 <= j < k < sel.len() ==> !precedes(keys[#[trigger] sel[k] as int], keys[#[trigger] sel[j] as int]),
{
    assert forall|j: int, k: int| 0 <= j < k < sel.len() implies #[trigger] sel[j] != #[trigger] sel[k]
        && !precedes(keys[sel[k] as int], keys[sel[j] as int]) by {
        let x = sel[j] as int;
        let y = sel[k] as int;
        assert(key_before(keys, x, y));
        lemma_key_order(keys, x, y, x);
        assert(keys[x].score.wf() && keys[y].score.wf());
        lemma_below_order(keys[x].score, keys[y].score, keys[y].score);
    }
}

/// Where every one of the first `n` entries is marked, all `n` count.
pub proof fn lemma_count_all_marked(mask: Seq<bool>, n: int)
    requires
        0 <= n <= mask.len(),
        forall|i: int| 0 <= i < n ==> #[trigger] mask[i],
    ensures
        count_marked(mask, n) == n,
    decreases n,
{
    if n > 0 {
        lemma_count_all_marked(mask, n - 1);
    }
}

} // verus!
