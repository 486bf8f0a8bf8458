//! Correlation scores: exact fractions, ordered by value.

use crate::wide::product_less;
use vstd::prelude::*;

verus! {

/// A score `num / den`: a fraction with a positive denominator.
#[derive(Clone, Copy, Debug)]
pub struct Score {
    num: u128,
    den: u128,
}

/// What a score stands for: the fraction `num / den`.
pub struct Fraction {
    pub num: int,
    pub den: int,
}

/// Whether `a / b < c / d`, for positive `b` and `d`.
pub open spec fn fraction_lt(a: int, b: int, c: int, d: int) -> bool {
    a * d < c * b
}

/// Whether `a / b <= c / d`, for positive `b` and `d`.
pub open spec fn fraction_le(a: int, b: int, c: int, d: int) -> bool {
    a * d <= c * b
}

/// On fractions with positive denominators, "below or equal" followed by
/// "below" is "below".
pub proof fn lemma_fraction_le_lt(a: int, b: int, c: int, d: int, e: int, f: int)
    requires
        0 <= a,
        0 <= c,
        0 <= e,
        0 < b,
        0 < d,
        0 < f,
        fraction_le(a, b, c, d),
        fraction_lt(c, d, e, f),
    ensures
        fraction_lt(a, b, e, f),
{
    assert((a * d) * f <= (c * b) * f) by (nonlinear_arith)
        requires
            a * d <= c * b,
            0 < f,
    ;
    assert((c * f) * b < (e * d) * b) by (nonlinear_arith)
        requires
            c * f < e * d,
            0 < b,
    ;
    assert((a * d) * f == (a * f) * d && (c * b) * f == (c * f) * b && (e * d) * b == (e * b) * d)
        by (nonlinear_arith);
    assert(a * f < e * b) by (nonlinear_arith)
        requires
            (a * f) * d < (e * b) * d,
            0 < d,
    ;
}

impl Fraction {
    /// Whether the fraction is not negative and its denominator positive.
    pub open spec fn proper(&self) -> bool {
        0 <= self.num && 0 < self.den
    }

    /// Whether this fraction is smaller than `other`.
    pub open spec fn lt(&self, other: Fraction) -> bool {
        fraction_lt(self.num, self.den, other.num, other.den)
    }

    /// Whether this fraction is at most `other`.
    pub open spec fn le(&self, other: Fraction) -> bool {
        fraction_le(self.num, self.den, other.num, other.den)
    }

    /// Whether this fraction and `other` are one number.
    pub open spec fn same(&self, other: Fraction) -> bool {
        self.num * other.den == other.num * self.den
    }
}

impl View for Score {
    type V = Fraction;

    closed spec fn view(&self) -> Fraction {
        Fraction { num: self.num as int, den: self.den as int }
    }
}

impl Score {
    #[verifier::type_invariant]
    spec fn positive_denominator(self) -> bool {
        self.den > 0
    }

    /// Scores that stand for the same numerator and denominator are one
    /// score.
    pub proof fn lemma_same_parts(a: Score, b: Score)
        requires
            a@ == b@,
        ensures
            a == b,
    {
    }

    /// The score `num / den`, or `None` when `den` is zero.
    pub fn new(num: u128, den: u128) -> (r: Option<Score>)
        ensures
            den == 0 <==> r is None,
            r matches Some(s) ==> s@ == (Fraction { num: num as int, den: den as int }),
    {
        if den == 0 {
            None
        } else {
            Some(Score { num, den })
        }
    }

    /// The score zero, written `0 / 1`.
    pub fn zero() -> (r: Score)
        ensures
            r@ == (Fraction { num: 0, den: 1 }),
    {
        Score { num: 0, den: 1 }
    }

    /// The numerator.
    pub fn numerator(&self) -> (r: u128)
        ensures
            r == self@.num,
    {
        self.num
    }

    /// The denominator, which is positive.
    pub fn denominator(&self) -> (r: u128)
        ensures
            r == self@.den,
            r > 0,
    {
        proof {
            use_type_invariant(self);
        }
        self.den
    }

    /// Whether this score is smaller in value than `other`.
    pub fn less_than(&self, other: &Score) -> (r: bool)
        ensures
            r == self@.lt(other@),
    {
        product_less(self.num, other.den, other.num, self.den)
    }

    /// Whether this score and `other` are the same in value.
    pub fn same_value(&self, other: &Score) -> (r: bool)
        ensures
            r == self@.same(other@),
    {
        !product_less(self.num, other.den, other.num, self.den) && !product_less(
            other.num,
            self.den,
            self.num,
            other.den,
        )
    }
}

/// On fractions with positive denominators, "below or equal" is a total
/// order of values: it is reflexive and transitive, and of two fractions
/// one is below or equal to the other. A fraction is below another exactly
/// when the other is not below or equal to it.
pub proof fn lemma_order_is_total(a: Fraction, b: Fraction, c: Fraction)
    requires
        a.proper(),
        b.proper(),
        c.proper(),
    ensures
        a.le(a),
        a.le(b) || b.le(a),
        a.le(b) && b.le(c) ==> a.le(c),
        a.lt(b) <==> !b.le(a),
{
    if a.le(b) && b.le(c) {
        assert((a.num * b.den) * c.den <= (b.num * a.den) * c.den) by (nonlinear_arith)
            requires
                a.num * b.den <= b.num * a.den,
                0 < c.den,
        ;
        assert((b.num * c.den) * a.den <= (c.num * b.den) * a.den) by (nonlinear_arith)
            requires
                b.num * c.den <= c.num * b.den,
                0 < a.den,
        ;
        assert((a.num * b.den) * c.den == (a.num * c.den) * b.den) by (nonlinear_arith);
        assert((b.num * a.den) * c.den == (b.num * c.den) * a.den) by (nonlinear_arith);
        assert((c.num * b.den) * a.den == (c.num * a.den) * b.den) by (nonlinear_arith);
        assert(a.num * c.den <= c.num * a.den) by (nonlinear_arith)
            requires
                (a.num * c.den) * b.den <= (c.num * a.den) * b.den,
                0 < b.den,
        ;
    }
}

/// The fractions that a sequence of scores stands for.
pub open spec fn fractions(scores: Seq<Score>) -> Seq<Fraction> {
    Seq::new(scores.len(), |i: int| scores[i]@)
}

/// Whether every fraction of `scores` is proper.
pub open spec fn all_proper(scores: Seq<Fraction>) -> bool {
    forall|j: int| 0 <= j < scores.len() ==> (#[trigger] scores[j]).proper()
}

/// Whether `scores[i]` is the first greatest: none is greater, and every
/// one before it is smaller.
pub open spec fn is_first_max(scores: Seq<Fraction>, i: int) -> bool {
    &&& 0 <= i < scores.len()
    &&& forall|j: int| 0 <= j < scores.len() ==> (#[trigger] scores[j]).le(scores[i])
    &&& forall|j: int| 0 <= j < i ==> (#[trigger] scores[j]).lt(scores[i])
}

/// The position of the first greatest of `scores`; zero when there is
/// none.
pub open spec fn first_max_index(scores: Seq<Fraction>) -> int
    decreases scores.len(),
{
    if scores.len() <= 1 {
        0
    } else {
        let best = first_max_index(scores.drop_last());
        if scores[best].lt(scores.last()) {
            scores.len() - 1
        } else {
            best
        }
    }
}

/// At most one position holds the first greatest.
pub proof fn lemma_first_max_unique(scores: Seq<Fraction>, i: int, k: int)
    requires
        is_first_max(scores, i),
        is_first_max(scores, k),
    ensures
        i == k,
{
    if i < k {
        assert(scores[i].lt(scores[k]));
        assert(scores[k].le(scores[i]));
    } else if k < i {
        assert(scores[k].lt(scores[i]));
        assert(scores[i].le(scores[k]));
    }
}

/// One that beats the first greatest of a prefix is the first greatest of
/// the prefix extended by it; one that does not leaves it in place.
pub proof fn lemma_first_max_step(scores: Seq<Fraction>, best: int, next: int)
    requires
        0 <= next < scores.len(),
        all_proper(scores),
        is_first_max(scores.take(next), best),
    ensures
        is_first_max(
            scores.take(next + 1),
            if scores[best].lt(scores[next]) {
                next
            } else {
                best
            },
        ),
{
    let before = scores.take(next);
    let after = scores.take(next + 1);
    let b = scores[best];
    let n = scores[next];
    assert(before[best] == b);
    if b.lt(n) {
        assert forall|j: int| 0 <= j < next implies (#[trigger] after[j]).lt(n) by {
            assert(before[j].le(b));
            assert(scores[j].proper());
            lemma_fraction_le_lt(after[j].num, after[j].den, b.num, b.den, n.num, n.den);
        }
        assert forall|j: int| 0 <= j < after.len() implies (#[trigger] after[j]).le(after[next]) by {
            if j < next {
                assert(after[j].lt(n));
            }
        }
    } else {
        assert forall|j: int| 0 <= j < after.len() implies (#[trigger] after[j]).le(after[best]) by {
            if j < next {
                assert(before[j].le(b));
            }
        }
        assert forall|j: int| 0 <= j < best implies (#[trigger] after[j]).lt(after[best]) by {
            assert(before[j].lt(b));
        }
    }
}

/// Among proper fractions, `first_max_index` names the first greatest.
pub proof fn lemma_first_max_index(scores: Seq<Fraction>)
    requires
        scores.len() > 0,
        all_proper(scores),
    ensures
        is_first_max(scores, first_max_index(scores)),
    decreases scores.len(),
{
    if scores.len() > 1 {
        let init = scores.drop_last();
        lemma_first_max_index(init);
        assert(init =~= scores.take(scores.len() - 1));
        lemma_first_max_step(scores, first_max_index(init), scores.len() - 1);
        assert(scores.take(scores.len() as int) =~= scores);
    }
}

/// Finds the first greatest score; `None` when there is no score.
pub fn first_max(scores: &Vec<Score>) -> (r: Option<usize>)
    ensures
        r is None <==> scores@.len() == 0,
        r matches Some(i) ==> is_first_max(fractions(scores@), i as int) && i == first_max_index(
            fractions(scores@),
        ),
{
    let n: usize = scores.len();
    if n == 0 {
        return None;
    }
    let ghost all = fractions(scores@);
    let head: &Score = &scores[0];
    proof {
        use_type_invariant(head);
        assert(all.take(1)[0] == head@);
    }
    let mut best: usize = 0;
    let mut i: usize = 1;
    while i < n
        invariant
            n == scores@.len(),
            all == fractions(scores@),
            1 <= i <= n,
            all_proper(all.take(i as int)),
            is_first_max(all.take(i as int), best as int),
        decreases n - i,
    {
        let next: &Score = &scores[i];
        proof {
            use_type_invariant(next);
            let grown = all.take(i + 1);
            assert forall|j: int| 0 <= j < grown.len() implies (#[trigger] grown[j]).proper() by {
                if j < i {
                    assert(all.take(i as int)[j] == grown[j]);
                } else {
                    assert(grown[j] == next@);
                }
            }
            assert(grown.take(i as int) =~= all.take(i as int));
            lemma_first_max_step(grown, best as int, i as int);
            assert(grown.take(i + 1) =~= grown);
            assert(grown[best as int] == scores@[best as int]@);
        }
        if scores[best].less_than(next) {
            best = i;
        }
        i += 1;
    }
    proof {
        assert(all.take(n as int) =~= all);
        lemma_first_max_index(all);
        lemma_first_max_unique(all, best as int, first_max_index(all));
    }
    Some(best)
}

} // verus!
