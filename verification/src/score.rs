//! Exact relevance scores: a whole part and a fraction over the target's byte length.
use vstd::prelude::*;

verus! {

/// A relevance score `whole + frac / den`, with `0 <= frac < den`.
///
/// Scores are rationals whose denominator is the byte length of the text that
/// was scored, so they are held exactly rather than rounded.
#[derive(Clone, Copy, Debug, PartialEq, Eq)]
pub struct Score {
    pub whole: i128,
    pub frac: u64,
    pub den: u64,
}

impl Score {
    /// The fraction is proper and the denominator positive.
    pub open spec fn wf(self) -> bool {
        self.den > 0 && self.frac < self.den
    }

    /// The score multiplied by its denominator.
    pub open spec fn scaled(self) -> int {
        self.whole * self.den + self.frac
    }

    /// The score is `a + b / den`, written over `den`.
    pub open spec fn is(self, a: int, b: int, den: nat) -> bool {
        &&& self.wf()
        &&& self.den == den
        &&& self.scaled() == a * den + b
    }

    /// The score is above zero.
    pub open spec fn positive(self) -> bool {
        self.scaled() > 0
    }

    /// This score is below `other`.
    pub open spec fn below(self, other: Score) -> bool {
        self.scaled() * other.den < other.scaled() * self.den
    }

    /// A whole-numbered score.
    pub fn whole_number(n: i64) -> (s: Score)
        ensures
            s.is(n as int, 0, 1),
    {
        Score { whole: n as i128, frac: 0, den: 1 }
    }

    /// Whether the score is above zero.
    pub fn is_positive(&self) -> (b: bool)
        requires
            self.wf(),
        ensures
            b == self.positive(),
    {
        proof {
            lemma_sign(*self);
        }
        self.whole > 0 || (self.whole == 0 && self.frac > 0)
    }

    /// Whether this score is below `other`.
    pub fn less_than(&self, other: &Score) -> (b: bool)
        requires
            self.wf(),
            other.wf(),
        ensures
            b == self.below(*other),
    {
        proof {
            lemma_compare(*self, *other);
        }
        if self.whole != other.whole {
            self.whole < other.whole
        } else {
            (self.frac as u128) * (other.den as u128) < (other.frac as u128) * (self.den as u128)
        }
    }
}

proof fn lemma_sign(s: Score)
    requires
        s.wf(),
    ensures
        s.positive() == (s.whole > 0 || (s.whole == 0 && s.frac > 0)),
{
    let d = s.den as int;
    let w = s.whole as int;
    let f = s.frac as int;
    if w > 0 {
        assert(w * d >= d) by (nonlinear_arith)
            requires
                w >= 1,
                d > 0,
        ;
    } else if w < 0 {
        assert(w * d <= -d) by (nonlinear_arith)
            requires
                w <= -1,
                d > 0,
        ;
    } else {
        assert(w * d == 0) by (nonlinear_arith)
            requires
                w == 0,
        ;
    }
    assert(s.scaled() == w * d + f);
}

proof fn lemma_compare(a: Score, b: Score)
    requires
        a.wf(),
        b.wf(),
    ensures
        a.whole < b.whole ==> a.below(b),
        b.whole < a.whole ==> !a.below(b),
        a.whole == b.whole ==> (a.below(b) == (a.frac * b.den < b.frac * a.den)),
        a.frac * b.den < 0x1_0000_0000_0000_0000_0000_0000_0000_0000,
        b.frac * a.den < 0x1_0000_0000_0000_0000_0000_0000_0000_0000,
{
    let (wa, fa, da) = (a.whole as int, a.frac as int, a.den as int);
    let (wb, fb, db) = (b.whole as int, b.frac as int, b.den as int);
    assert((wa * da + fa) * db == wa * da * db + fa * db) by (nonlinear_arith);
    assert((wb * db + fb) * da == wb * da * db + fb * da) by (nonlinear_arith);
    assert(0 <= fa * db < da * db) by (nonlinear_arith)
        requires
            0 <= fa < da,
            db > 0,
    ;
    assert(0 <= fb * da < da * db) by (nonlinear_arith)
        requires
            0 <= fb < db,
            da > 0,
    ;
    if wa < wb {
        assert(wa * da * db + da * db <= wb * da * db) by (nonlinear_arith)
            requires
                wa + 1 <= wb,
                da > 0,
                db > 0,
        ;
    }
    if wb < wa {
        assert(wb * da * db + da * db <= wa * da * db) by (nonlinear_arith)
            requires
                wb + 1 <= wa,
                da > 0,
                db > 0,
        ;
    }
    assert(fa * db < 0x1_0000_0000_0000_0000_0000_0000_0000_0000) by (nonlinear_arith)
        requires
            0 <= fa < 0x1_0000_0000_0000_0000,
            0 < db < 0x1_0000_0000_0000_0000,
    ;
    assert(fb * da < 0x1_0000_0000_0000_0000_0000_0000_0000_0000) by (nonlinear_arith)
        requires
            0 <= fb < 0x1_0000_0000_0000_0000,
            0 < da < 0x1_0000_0000_0000_0000,
    ;
}

proof fn lemma_cross_trans(xa: int, da: int, xb: int, db: int, xc: int, dc: int)
    requires
        da > 0,
        db > 0,
        dc > 0,
    ensures
        xa * db < xb * da && xb * dc <= xc * db ==> xa * dc < xc * da,
        xa * db <= xb * da && xb * dc < xc * db ==> xa * dc < xc * da,
        xa * db <= xb * da && xb * dc <= xc * db ==> xa * dc <= xc * da,
{
    assert(xa * db * dc <= xb * da * dc <==> xa * db <= xb * da) by (nonlinear_arith)
        requires
            dc > 0,
    ;
    assert(xa * db * dc < xb * da * dc <==> xa * db < xb * da) by (nonlinear_arith)
        requires
            dc > 0,
    ;
    assert(xb * dc * da <= xc * db * da <==> xb * dc <= xc * db) by (nonlinear_arith)
        requires
            da > 0,
    ;
    assert(xb * dc * da < xc * db * da <==> xb * dc < xc * db) by (nonlinear_arith)
        requires
            da > 0,
    ;
    assert(xa * dc * db <= xc * da * db <==> xa * dc <= xc * da) by (nonlinear_arith)
        requires
            db > 0,
    ;
    assert(xa * dc * db < xc * da * db <==> xa * dc < xc * da) by (nonlinear_arith)
        requires
            db > 0,
    ;
    assert(xa * db * dc == xa * dc * db) by (nonlinear_arith);
    assert(xb * da * dc == xb * dc * da) by (nonlinear_arith);
    assert(xc * db * da == xc * da * db) by (nonlinear_arith);
}

/// `below` is a strict order on well-formed scores, and "neither below the
/// other" is an equivalence compatible with it.
pub proof fn lemma_below_order(a: Score, b: Score, c: Score)
    requires
        a.wf(),
        b.wf(),
        c.wf(),
    ensures
        a.below(b) ==> !b.below(a),
        !a.below(a),
        a.below(b) && b.below(c) ==> a.below(c),
        a.below(b) && !c.below(b) ==> a.below(c),
        !b.below(a) && b.below(c) ==> a.below(c),
        !b.below(a) && !c.below(b) ==> !c.below(a),
{
    lemma_cross_trans(a.scaled(), a.den as int, b.scaled(), b.den as int, c.scaled(), c.den as int);
}

/// The score `a + b / den` in its one well-formed representation over `den`.
pub open spec fn exact_score(a: int, b: int, den: nat) -> Score {
    Score {
        whole: ((a * den + b) / (den as int)) as i128,
        frac: ((a * den + b) % (den as int)) as u64,
        den: den as u64,
    }
}

/// A score is determined by its value and denominator.
pub proof fn lemma_exact_score(s: Score, a: int, b: int, den: nat)
    requires
        s.is(a, b, den),
    ensures
        s == exact_score(a, b, den),
{
    vstd::arithmetic::div_mod::lemma_fundamental_div_mod_converse(
        a * den + b,
        den as int,
        s.whole as int,
        s.frac as int,
    );
}

/// `exact_score` holds the value it is given, whenever that value and its
/// denominator fit the fields.
pub proof fn lemma_exact_score_is(a: int, b: int, den: nat)
    requires
        0 < den < 0x1_0000_0000_0000_0000,
        -0x1_0000_0000_0000_0000_0000_0000 < a * den + b < 0x1_0000_0000_0000_0000_0000_0000,
    ensures
        exact_score(a, b, den).is(a, b, den),
{
    let v = a * den + b;
    let d = den as int;
    vstd::arithmetic::div_mod::lemma_fundamental_div_mod(v, d);
    vstd::arithmetic::div_mod::lemma_mod_bound(v, d);
    assert(-0x1_0000_0000_0000_0000_0000_0000 <= v / d < 0x1_0000_0000_0000_0000_0000_0000) by (
    nonlinear_arith)
        requires
            v == d * (v / d) + v % d,
            0 <= v % d < d,
            d >= 1,
            -0x1_0000_0000_0000_0000_0000_0000 < v < 0x1_0000_0000_0000_0000_0000_0000,
    ;
    let s = exact_score(a, b, den);
    assert(s.whole == v / d);
    assert(s.frac == v % d);
    assert(s.den == den);
    assert(s.whole * s.den + s.frac == v) by (nonlinear_arith)
        requires
            s.whole == v / d,
            s.frac == v % d,
            s.den == d,
            v == d * (v / d) + v % d,
    ;
}

/// The score `a + (plus - minus) / den`, brought to a proper fraction.
pub fn make_score(a: i128, plus: u128, minus: u128, den: u64) -> (s: Score)
    requires
        den > 0,
        -0x100_0000_0000_0000_0000_0000_0000_0000 < a < 0x100_0000_0000_0000_0000_0000_0000_0000,
        plus < 0x100_0000_0000_0000_0000_0000_0000_0000,
        minus < 0x100_0000_0000_0000_0000_0000_0000_0000,
    ensures
        s.is(a as int, plus - minus, den as nat),
{
    let d = den as u128;
    let pq = plus / d;
    let pr = plus % d;
    let mq = minus / d;
    let mr = minus % d;
    proof {
        vstd::arithmetic::div_mod::lemma_fundamental_div_mod(plus as int, d as int);
        vstd::arithmetic::div_mod::lemma_fundamental_div_mod(minus as int, d as int);
        vstd::arithmetic::div_mod::lemma_div_is_ordered_by_denominator(plus as int, 1, d as int);
        vstd::arithmetic::div_mod::lemma_div_is_ordered_by_denominator(minus as int, 1, d as int);
        vstd::arithmetic::div_mod::lemma_mod_bound(plus as int, d as int);
        vstd::arithmetic::div_mod::lemma_mod_bound(minus as int, d as int);
    }
    let base = a + pq as i128 - mq as i128;
    if pr >= mr {
        let s = Score { whole: base, frac: (pr - mr) as u64, den };
        assert(s.scaled() == a * d + plus - minus) by (nonlinear_arith)
            requires
                s.whole == a + pq - mq,
                s.frac == pr - mr,
                s.den == d,
                plus == d * pq + pr,
                minus == d * mq + mr,
        ;
        s
    } else {
        let s = Score { whole: base - 1, frac: (d + pr - mr) as u64, den };
        assert(s.scaled() == a * d + plus - minus) by (nonlinear_arith)
            requires
                s.whole == a + pq - mq - 1,
                s.frac == d + pr - mr,
                s.den == d,
                plus == d * pq + pr,
                minus == d * mq + mr,
        ;
        s
    }
}

} // verus!
