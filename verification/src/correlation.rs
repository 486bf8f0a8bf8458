//! The Pearson correlation of two sample sequences, computed exactly.
//!
//! For sequences `x` and `y` of `n` samples, write `S(x)` for the sum of
//! `x` and `x.y` for the sum of the products. Then
//!
//! ```text
//!     covariance(x, y) = n * x.y - S(x) * S(y)
//!     spread(x)        = n * x.x - S(x) * S(x)
//! ```
//!
//! are `n * n` times the covariance and the variance, and the Pearson
//! coefficient `r` satisfies
//!
//! ```text
//!     r * r = covariance(x, y)^2 / (spread(x) * spread(y)).
//! ```
//!
//! The score of `x` and `y` is this fraction. It orders pairs of sequences
//! as the absolute value of `r` does, and it is one exactly where `|r|` is.
//!
//! Two cases have no coefficient and score zero, the lowest score there
//! is: a sequence whose sum, and so whose mean, is zero, and a sequence
//! whose samples are all equal, which has no spread.

use crate::score::{Fraction, Score};
use vstd::prelude::*;

verus! {

/// The most samples that a sequence may hold for its score to fit in 128
/// bits.
pub const MAX_SAMPLES: usize = 65535;

/// Why two sequences have no score.
#[derive(Clone, Copy, Debug, PartialEq, Eq)]
pub enum CorrelationError {
    /// The sequences hold `left` and `right` samples.
    LengthMismatch { left: usize, right: usize },
    /// The sequences hold `len` samples each, more than `MAX_SAMPLES`.
    TooLong { len: usize },
}

/// The samples of a sequence as mathematical integers.
pub open spec fn levels(s: Seq<i16>) -> Seq<int> {
    Seq::new(s.len(), |i: int| s[i] as int)
}

/// The sum of a sequence.
pub open spec fn total(x: Seq<int>) -> int
    decreases x.len(),
{
    if x.len() == 0 {
        0
    } else {
        total(x.drop_last()) + x.last()
    }
}

/// The sum of the products of two sequences of one length.
pub open spec fn dot(x: Seq<int>, y: Seq<int>) -> int
    decreases x.len(),
{
    if x.len() == 0 {
        0
    } else {
        dot(x.drop_last(), y.drop_last()) + x.last() * y.last()
    }
}

/// The covariance of `x` and `y`, times the square of their length.
pub open spec fn covariance(x: Seq<int>, y: Seq<int>) -> int {
    x.len() * dot(x, y) - total(x) * total(y)
}

/// The variance of `x`, times the square of its length.
pub open spec fn spread(x: Seq<int>) -> int {
    covariance(x, x)
}

/// Whether `x` and `y` have no Pearson coefficient, or one that is
/// discarded: one of them has the sum zero, or all its samples equal.
pub open spec fn degenerate(x: Seq<int>, y: Seq<int>) -> bool {
    total(x) == 0 || total(y) == 0 || spread(x) == 0 || spread(y) == 0
}

/// The numerator of the score of `x` and `y`.
pub open spec fn score_num(x: Seq<int>, y: Seq<int>) -> int {
    if degenerate(x, y) {
        0
    } else {
        covariance(x, y) * covariance(x, y)
    }
}

/// The denominator of the score of `x` and `y`.
pub open spec fn score_den(x: Seq<int>, y: Seq<int>) -> int {
    if degenerate(x, y) {
        1
    } else {
        spread(x) * spread(y)
    }
}

/// The score of `x` and `y`.
pub open spec fn score_of(x: Seq<int>, y: Seq<int>) -> Fraction {
    Fraction { num: score_num(x, y), den: score_den(x, y) }
}

/// The sum of the squared distances of the samples of `x` from `a`.
pub open spec fn scatter(x: Seq<int>, a: int) -> int
    decreases x.len(),
{
    if x.len() == 0 {
        0
    } else {
        scatter(x.drop_last(), a) + (x.last() - a) * (x.last() - a)
    }
}

/// The scatter about `a` is not negative, and it is
/// `x.x - 2 * a * S(x) + n * a * a`.
pub proof fn lemma_scatter(x: Seq<int>, a: int)
    ensures
        scatter(x, a) >= 0,
        scatter(x, a) == dot(x, x) - 2 * a * total(x) + x.len() * a * a,
    decreases x.len(),
{
    if x.len() > 0 {
        let init = x.drop_last();
        let v = x.last();
        lemma_scatter(init, a);
        let m = init.len() as int;
        let q = dot(init, init);
        let s = total(init);
        assert((v - a) * (v - a) >= 0) by (nonlinear_arith);
        assert((q - 2 * a * s + m * a * a) + (v - a) * (v - a) == (q + v * v) - 2 * a * (s + v) + (m
            + 1) * a * a) by (nonlinear_arith);
    } else {
        assert(x.len() * a * a == 0) by (nonlinear_arith)
            requires
                x.len() == 0,
        ;
        assert(2 * a * 0 == 0);
    }
}

/// The spread of a sequence is not negative.
pub proof fn lemma_spread_nonnegative(x: Seq<int>)
    ensures
        spread(x) >= 0,
    decreases x.len(),
{
    if x.len() > 0 {
        let init = x.drop_last();
        let v = x.last();
        lemma_spread_nonnegative(init);
        lemma_scatter(init, v);
        let m = init.len() as int;
        let q = dot(init, init);
        let s = total(init);
        assert(x.len() == m + 1);
        assert(dot(x, x) == q + v * v);
        assert(total(x) == s + v);
        assert((m + 1) * (q + v * v) - (s + v) * (s + v) == (m * q - s * s) + (q - 2 * v * s + m * v
            * v)) by (nonlinear_arith);
    } else {
        assert(x.len() * dot(x, x) == 0) by (nonlinear_arith)
            requires
                x.len() == 0,
        ;
    }
}

/// The denominator of a score is positive, and its numerator is not
/// negative.
pub proof fn lemma_score_signs(x: Seq<int>, y: Seq<int>)
    ensures
        score_num(x, y) >= 0,
        score_den(x, y) > 0,
        score_of(x, y).proper(),
{
    lemma_spread_nonnegative(x);
    lemma_spread_nonnegative(y);
    let c = covariance(x, y);
    assert(c * c >= 0) by (nonlinear_arith);
    if !degenerate(x, y) {
        assert(spread(x) * spread(y) > 0) by (nonlinear_arith)
            requires
                spread(x) > 0,
                spread(y) > 0,
        ;
    }
}

/// The sums of a prefix grow by its next sample.
proof fn lemma_sums_step(x: Seq<int>, y: Seq<int>, k: int)
    requires
        0 <= k < x.len(),
        x.len() == y.len(),
    ensures
        total(x.take(k + 1)) == total(x.take(k)) + x[k],
        dot(x.take(k + 1), y.take(k + 1)) == dot(x.take(k), y.take(k)) + x[k] * y[k],
{
    assert(x.take(k + 1).drop_last() =~= x.take(k));
    assert(y.take(k + 1).drop_last() =~= y.take(k));
}

/// The three sums that a score is made of.
struct Sums {
    /// The sum of the first sequence.
    left: i128,
    /// The sum of the second sequence.
    right: i128,
    /// The sum of the squares of the first sequence.
    left_left: i128,
    /// The sum of the squares of the second sequence.
    right_right: i128,
    /// The sum of the products.
    left_right: i128,
}

/// Adds up two sequences of one length.
fn sums(x: &Vec<i16>, y: &Vec<i16>) -> (r: Sums)
    requires
        x@.len() == y@.len(),
        x@.len() <= MAX_SAMPLES,
    ensures
        r.left == total(levels(x@)),
        r.right == total(levels(y@)),
        r.left_left == dot(levels(x@), levels(x@)),
        r.right_right == dot(levels(y@), levels(y@)),
        r.left_right == dot(levels(x@), levels(y@)),
        -0x8000 * x@.len() <= r.left <= 0x8000 * x@.len(),
        -0x8000 * x@.len() <= r.right <= 0x8000 * x@.len(),
        0 <= r.left_left <= 0x4000_0000 * x@.len(),
        0 <= r.right_right <= 0x4000_0000 * x@.len(),
        -0x4000_0000 * x@.len() <= r.left_right <= 0x4000_0000 * x@.len(),
{
    let n: usize = x.len();
    let ghost xs = levels(x@);
    let ghost ys = levels(y@);
    let mut acc = Sums { left: 0, right: 0, left_left: 0, right_right: 0, left_right: 0 };
    let mut k: usize = 0;
    while k < n
        invariant
            n == x@.len(),
            n == y@.len(),
            n <= MAX_SAMPLES,
            xs == levels(x@),
            ys == levels(y@),
            k <= n,
            acc.left == total(xs.take(k as int)),
            acc.right == total(ys.take(k as int)),
            acc.left_left == dot(xs.take(k as int), xs.take(k as int)),
            acc.right_right == dot(ys.take(k as int), ys.take(k as int)),
            acc.left_right == dot(xs.take(k as int), ys.take(k as int)),
            -0x8000 * k <= acc.left <= 0x8000 * k,
            -0x8000 * k <= acc.right <= 0x8000 * k,
            0 <= acc.left_left <= 0x4000_0000 * k,
            0 <= acc.right_right <= 0x4000_0000 * k,
            -0x4000_0000 * k <= acc.left_right <= 0x4000_0000 * k,
        decreases n - k,
    {
        let a: i128 = x[k] as i128;
        let b: i128 = y[k] as i128;
        proof {
            lemma_sums_step(xs, ys, k as int);
            lemma_sums_step(xs, xs, k as int);
            lemma_sums_step(ys, ys, k as int);
            assert(0 <= a * a <= 0x4000_0000 && 0 <= b * b <= 0x4000_0000 && -0x4000_0000 <= a * b
                <= 0x4000_0000) by (nonlinear_arith)
                requires
                    -0x8000 <= a <= 0x7fff,
                    -0x8000 <= b <= 0x7fff,
            ;
        }
        acc = Sums {
            left: acc.left + a,
            right: acc.right + b,
            left_left: acc.left_left + a * a,
            right_right: acc.right_right + b * b,
            left_right: acc.left_right + a * b,
        };
        k += 1;
    }
    proof {
        assert(xs.take(n as int) =~= xs);
        assert(ys.take(n as int) =~= ys);
    }
    acc
}

/// Scores the correlation of `x` and `y`: the square of their Pearson
/// coefficient, or zero where they have none or the sum of one is zero.
pub fn pearson_correlation(x: &Vec<i16>, y: &Vec<i16>) -> (r: Result<Score, CorrelationError>)
    ensures
        match r {
            Ok(s) => {
                &&& x@.len() == y@.len()
                &&& x@.len() <= MAX_SAMPLES
                &&& s@ == score_of(levels(x@), levels(y@))
                &&& 0 <= s@.num <= s@.den
                &&& 0 < s@.den
            },
            Err(CorrelationError::LengthMismatch { left, right }) => {
                &&& left == x@.len()
                &&& right == y@.len()
                &&& left != right
            },
            Err(CorrelationError::TooLong { len }) => {
                &&& len == x@.len()
                &&& len == y@.len()
                &&& len > MAX_SAMPLES
            },
        },
{
    if x.len() != y.len() {
        return Err(CorrelationError::LengthMismatch { left: x.len(), right: y.len() });
    }
    if x.len() > MAX_SAMPLES {
        return Err(CorrelationError::TooLong { len: x.len() });
    }
    let n: i128 = x.len() as i128;
    let t = sums(x, y);
    let ghost xs = levels(x@);
    let ghost ys = levels(y@);
    proof {
        lemma_spread_nonnegative(xs);
        lemma_spread_nonnegative(ys);
        lemma_score_at_most_one(xs, ys);
        let bound: int = 0x4000_0000int * 0xffff;
        let edge: int = 0x8000int * 0xffff;
        assert(-(0xffff * bound) <= n * t.left_left <= 0xffff * bound && -(0xffff * bound) <= n
            * t.right_right <= 0xffff * bound && -(0xffff * bound) <= n * t.left_right <= 0xffff
            * bound) by (nonlinear_arith)
            requires
                0 <= n <= 0xffff,
                -bound <= t.left_left <= bound,
                -bound <= t.right_right <= bound,
                -bound <= t.left_right <= bound,
        ;
        assert(-(edge * edge) <= t.left * t.left <= edge * edge && -(edge * edge) <= t.right
            * t.right <= edge * edge && -(edge * edge) <= t.left * t.right <= edge * edge)
            by (nonlinear_arith)
            requires
                -edge <= t.left <= edge,
                -edge <= t.right <= edge,
        ;
    }
    let cov: i128 = n * t.left_right - t.left * t.right;
    let spread_x: i128 = n * t.left_left - t.left * t.left;
    let spread_y: i128 = n * t.right_right - t.right * t.right;
    assert(cov == covariance(xs, ys));
    assert(spread_x == spread(xs));
    assert(spread_y == spread(ys));
    if t.left == 0 || t.right == 0 || spread_x == 0 || spread_y == 0 {
        return Ok(Score::zero());
    }
    proof {
        let limit: int = 0x8000_0000_0000_0000;
        assert(0 <= cov * cov <= limit * limit) by (nonlinear_arith)
            requires
                -limit <= cov <= limit,
        ;
        assert(0 < spread_x * spread_y <= limit * limit) by (nonlinear_arith)
            requires
                0 < spread_x <= limit,
                0 < spread_y <= limit,
        ;
    }
    let num: u128 = (cov * cov) as u128;
    let den: u128 = (spread_x * spread_y) as u128;
    match Score::new(num, den) {
        Some(s) => Ok(s),
        None => Ok(Score::zero()),
    }
}

/// The sum of products does not depend on the order of its two
/// sequences.
pub proof fn lemma_dot_symmetric(x: Seq<int>, y: Seq<int>)
    requires
        x.len() == y.len(),
    ensures
        dot(x, y) == dot(y, x),
    decreases x.len(),
{
    if x.len() > 0 {
        lemma_dot_symmetric(x.drop_last(), y.drop_last());
        assert(x.last() * y.last() == y.last() * x.last()) by (nonlinear_arith);
    }
}

/// Correlation is symmetric: `x` with `y` scores what `y` with `x` scores.
pub proof fn lemma_correlation_symmetric(x: Seq<int>, y: Seq<int>)
    requires
        x.len() == y.len(),
    ensures
        score_num(x, y) == score_num(y, x),
        score_den(x, y) == score_den(y, x),
{
    lemma_dot_symmetric(x, y);
    assert(total(x) * total(y) == total(y) * total(x)) by (nonlinear_arith);
    assert(spread(x) * spread(y) == spread(y) * spread(x)) by (nonlinear_arith);
}

/// The sequence `y` with every sample multiplied by `a`.
pub open spec fn scaled(y: Seq<int>, a: int) -> Seq<int> {
    Seq::new(y.len(), |i: int| a * y[i])
}

/// Scaling a sequence scales its sum and its products.
pub proof fn lemma_scaled_sums(x: Seq<int>, y: Seq<int>, a: int)
    requires
        x.len() == y.len(),
    ensures
        total(scaled(y, a)) == a * total(y),
        dot(x, scaled(y, a)) == a * dot(x, y),
        dot(scaled(y, a), scaled(y, a)) == a * a * dot(y, y),
    decreases x.len(),
{
    let z = scaled(y, a);
    if x.len() > 0 {
        let xi = x.drop_last();
        let yi = y.drop_last();
        lemma_scaled_sums(xi, yi, a);
        assert(z.drop_last() =~= scaled(yi, a));
        let u = x.last();
        let v = y.last();
        assert(z.last() == a * v);
        assert(a * total(yi) + a * v == a * (total(yi) + v)) by (nonlinear_arith);
        assert(a * dot(xi, yi) + u * (a * v) == a * (dot(xi, yi) + u * v)) by (nonlinear_arith);
        assert(a * a * dot(yi, yi) + (a * v) * (a * v) == a * a * (dot(yi, yi) + v * v))
            by (nonlinear_arith);
    } else {
        assert(a * 0 == 0 && a * a * 0 == 0) by (nonlinear_arith);
    }
}

/// Correlation does not change when one sequence is multiplied by a
/// number other than zero: the two scores are the same fraction.
pub proof fn lemma_correlation_scale_invariant(x: Seq<int>, y: Seq<int>, a: int)
    requires
        x.len() == y.len(),
        a != 0,
    ensures
        score_num(x, scaled(y, a)) * score_den(x, y) == score_num(x, y) * score_den(
            x,
            scaled(y, a),
        ),
        degenerate(x, scaled(y, a)) == degenerate(x, y),
{
    let z = scaled(y, a);
    lemma_scaled_sums(x, y, a);
    let n = x.len() as int;
    let c = covariance(x, y);
    let vx = spread(x);
    let vy = spread(y);
    assert(covariance(x, z) == a * c) by (nonlinear_arith)
        requires
            covariance(x, z) == n * (a * dot(x, y)) - total(x) * (a * total(y)),
            c == n * dot(x, y) - total(x) * total(y),
    ;
    assert(spread(z) == a * a * vy) by (nonlinear_arith)
        requires
            spread(z) == n * (a * a * dot(y, y)) - (a * total(y)) * (a * total(y)),
            vy == n * dot(y, y) - total(y) * total(y),
    ;
    assert(a * total(y) == 0 <==> total(y) == 0) by (nonlinear_arith)
        requires
            a != 0,
    ;
    assert(a * a * vy == 0 <==> vy == 0) by (nonlinear_arith)
        requires
            a != 0,
    ;
    if !degenerate(x, y) {
        assert(((a * c) * (a * c)) * (vx * vy) == (c * c) * (vx * (a * a * vy)))
            by (nonlinear_arith);
    }
}

/// A sequence that has a spread, and a sum other than zero, scores one
/// with itself.
pub proof fn lemma_correlation_with_itself(x: Seq<int>)
    requires
        spread(x) != 0,
        total(x) != 0,
    ensures
        score_num(x, x) == score_den(x, x),
        score_num(x, x) > 0,
{
    lemma_score_signs(x, x);
}

/// The sequence whose samples are `a * x[i] - b`.
pub open spec fn shifted(x: Seq<int>, a: int, b: int) -> Seq<int> {
    Seq::new(x.len(), |i: int| a * x[i] - b)
}

/// The sequence `x` centred on its mean, times its length: the samples
/// `n * x[i] - S(x)`.
pub open spec fn centred(x: Seq<int>) -> Seq<int> {
    shifted(x, x.len() as int, total(x))
}

/// The sum of products of two shifted sequences.
pub proof fn lemma_shifted_dot(x: Seq<int>, y: Seq<int>, a: int, b: int, c: int, d: int)
    requires
        x.len() == y.len(),
    ensures
        dot(shifted(x, a, b), shifted(y, c, d)) == a * c * dot(x, y) - a * d * total(x) - b * c
            * total(y) + x.len() * (b * d),
    decreases x.len(),
{
    let u = shifted(x, a, b);
    let v = shifted(y, c, d);
    if x.len() > 0 {
        let xi = x.drop_last();
        let yi = y.drop_last();
        lemma_shifted_dot(xi, yi, a, b, c, d);
        assert(u.drop_last() =~= shifted(xi, a, b));
        assert(v.drop_last() =~= shifted(yi, c, d));
        let p = x.last();
        let q = y.last();
        let m = xi.len() as int;
        assert(u.last() == a * p - b && v.last() == c * q - d);
        let s1 = a * p;
        let s2 = c * q;
        assert((s1 - b) * (s2 - d) == s1 * s2 - s1 * d - b * s2 + b * d) by (nonlinear_arith);
        assert(s1 * s2 == a * c * (p * q)) by (nonlinear_arith)
            requires
                s1 == a * p,
                s2 == c * q,
        ;
        assert(s1 * d == a * d * p) by (nonlinear_arith)
            requires
                s1 == a * p,
        ;
        assert(b * s2 == b * c * q) by (nonlinear_arith)
            requires
                s2 == c * q,
        ;
        assert(a * c * dot(xi, yi) + a * c * (p * q) == a * c * (dot(xi, yi) + p * q))
            by (nonlinear_arith);
        assert(a * d * total(xi) + a * d * p == a * d * (total(xi) + p)) by (nonlinear_arith);
        assert(b * c * total(yi) + b * c * q == b * c * (total(yi) + q)) by (nonlinear_arith);
        assert(m * (b * d) + b * d == (m + 1) * (b * d)) by (nonlinear_arith);
    } else {
        assert(a * c * 0 - a * d * 0 - b * c * 0 + 0 * (b * d) == 0) by (nonlinear_arith);
    }
}

/// The covariance and the spreads are what the centred sequences give: the
/// sum of the products of the centred samples of `x` and `y` is the
/// covariance, and the sum of the squares of the centred samples of `x` is
/// its spread, each times the length once more. So the score is the square
/// of the sum of products of the centred sequences over the product of
/// their sums of squares.
pub proof fn lemma_centred_products(x: Seq<int>, y: Seq<int>)
    requires
        x.len() == y.len(),
    ensures
        dot(centred(x), centred(y)) == x.len() * covariance(x, y),
        dot(centred(x), centred(x)) == x.len() * spread(x),
        dot(centred(y), centred(y)) == y.len() * spread(y),
{
    lemma_centred_pair(x, y);
    lemma_centred_pair(x, x);
    lemma_centred_pair(y, y);
}

/// The sum of the products of two centred sequences.
proof fn lemma_centred_pair(x: Seq<int>, y: Seq<int>)
    requires
        x.len() == y.len(),
    ensures
        dot(centred(x), centred(y)) == x.len() * covariance(x, y),
{
    let n = x.len() as int;
    let sx = total(x);
    let sy = total(y);
    let pr = dot(x, y);
    lemma_shifted_dot(x, y, n, sx, n, sy);
    assert(n * n * pr - n * sy * sx - sx * n * sy + n * (sx * sy) == n * (n * pr - sx * sy))
        by (nonlinear_arith);
}

/// The square of `a * u + b * v`, by the products `uu`, `uv` and `vv` of
/// `u` and `v`.
proof fn lemma_square_of_sum(a: int, u: int, b: int, v: int, uu: int, uv: int, vv: int)
    requires
        uu == u * u,
        uv == u * v,
        vv == v * v,
    ensures
        (a * u + b * v) * (a * u + b * v) == a * a * uu + 2 * a * b * uv + b * b * vv,
{
    let p = a * u;
    let q = b * v;
    assert((p + q) * (p + q) == p * p + 2 * (p * q) + q * q) by (nonlinear_arith);
    assert(p * p == a * a * uu) by (nonlinear_arith)
        requires
            p == a * u,
            uu == u * u,
    ;
    assert(q * q == b * b * vv) by (nonlinear_arith)
        requires
            q == b * v,
            vv == v * v,
    ;
    assert(p * q == (a * b) * uv) by (nonlinear_arith)
        requires
            p == a * u,
            q == b * v,
            uv == u * v,
    ;
    assert(2 * ((a * b) * uv) == 2 * a * b * uv) by (nonlinear_arith);
}

/// The sequence whose samples are `a * x[i] + b * y[i]`.
pub open spec fn combined(x: Seq<int>, y: Seq<int>, a: int, b: int) -> Seq<int> {
    Seq::new(x.len(), |i: int| a * x[i] + b * y[i])
}

/// The sum and the sum of squares of a combined sequence.
pub proof fn lemma_combined_sums(x: Seq<int>, y: Seq<int>, a: int, b: int)
    requires
        x.len() == y.len(),
    ensures
        total(combined(x, y, a, b)) == a * total(x) + b * total(y),
        dot(combined(x, y, a, b), combined(x, y, a, b)) == a * a * dot(x, x) + 2 * a * b * dot(
            x,
            y,
        ) + b * b * dot(y, y),
    decreases x.len(),
{
    let z = combined(x, y, a, b);
    if x.len() > 0 {
        let xi = x.drop_last();
        let yi = y.drop_last();
        lemma_combined_sums(xi, yi, a, b);
        assert(z.drop_last() =~= combined(xi, yi, a, b));
        let u = x.last();
        let v = y.last();
        assert(z.last() == a * u + b * v);
        let sx = total(xi);
        let sy = total(yi);
        let qx = dot(xi, xi);
        let qy = dot(yi, yi);
        let pr = dot(xi, yi);
        assert((a * sx + b * sy) + (a * u + b * v) == a * (sx + u) + b * (sy + v))
            by (nonlinear_arith);
        lemma_square_of_sum(a, u, b, v, u * u, u * v, v * v);
        assert(a * a * qx + a * a * (u * u) == a * a * (qx + u * u)) by (nonlinear_arith);
        assert(2 * a * b * pr + 2 * a * b * (u * v) == 2 * a * b * (pr + u * v))
            by (nonlinear_arith);
        assert(b * b * qy + b * b * (v * v) == b * b * (qy + v * v)) by (nonlinear_arith);
    } else {
        assert(a * 0 + b * 0 == 0) by (nonlinear_arith);
        assert(a * a * 0 + 2 * a * b * 0 + b * b * 0 == 0) by (nonlinear_arith);
    }
}

/// The spread of a combined sequence, by the spreads and the covariance
/// of its parts.
pub proof fn lemma_combined_spread(x: Seq<int>, y: Seq<int>, a: int, b: int)
    requires
        x.len() == y.len(),
    ensures
        spread(combined(x, y, a, b)) == a * a * spread(x) + 2 * a * b * covariance(x, y) + b * b
            * spread(y),
{
    let z = combined(x, y, a, b);
    lemma_combined_sums(x, y, a, b);
    let n = x.len() as int;
    let sx = total(x);
    let sy = total(y);
    let qx = dot(x, x);
    let qy = dot(y, y);
    let pr = dot(x, y);
    let ta = a * a * qx;
    let tb = 2 * a * b * pr;
    let tc = b * b * qy;
    assert(n * (ta + tb + tc) == n * ta + n * tb + n * tc) by (nonlinear_arith);
    assert(n * ta == a * a * (n * qx)) by (nonlinear_arith)
        requires
            ta == a * a * qx,
    ;
    assert(n * tb == 2 * a * b * (n * pr)) by (nonlinear_arith)
        requires
            tb == 2 * a * b * pr,
    ;
    assert(n * tc == b * b * (n * qy)) by (nonlinear_arith)
        requires
            tc == b * b * qy,
    ;
    lemma_square_of_sum(a, sx, b, sy, sx * sx, sx * sy, sy * sy);
    assert(a * a * (n * qx) - a * a * (sx * sx) == a * a * (n * qx - sx * sx))
        by (nonlinear_arith);
    assert(2 * a * b * (n * pr) - 2 * a * b * (sx * sy) == 2 * a * b * (n * pr - sx * sy))
        by (nonlinear_arith);
    assert(b * b * (n * qy) - b * b * (sy * sy) == b * b * (n * qy - sy * sy))
        by (nonlinear_arith);
}

/// The square of the covariance is at most the product of the spreads.
pub proof fn lemma_covariance_bound(x: Seq<int>, y: Seq<int>)
    requires
        x.len() == y.len(),
    ensures
        covariance(x, y) * covariance(x, y) <= spread(x) * spread(y),
{
    let c = covariance(x, y);
    let vx = spread(x);
    let vy = spread(y);
    lemma_spread_nonnegative(x);
    lemma_spread_nonnegative(y);
    if vy > 0 {
        lemma_combined_spread(x, y, vy, -c);
        lemma_spread_nonnegative(combined(x, y, vy, -c));
        assert(vy * vy * vx + 2 * vy * (-c) * c + (-c) * (-c) * vy == vy * (vx * vy - c * c))
            by (nonlinear_arith);
        assert(vx * vy - c * c >= 0) by (nonlinear_arith)
            requires
                vy * (vx * vy - c * c) >= 0,
                vy > 0,
        ;
    } else if vx > 0 {
        lemma_combined_spread(x, y, -c, vx);
        lemma_spread_nonnegative(combined(x, y, -c, vx));
        assert((-c) * (-c) * vx + 2 * (-c) * vx * c + vx * vx * vy == vx * (vx * vy - c * c))
            by (nonlinear_arith);
        assert(vx * vy - c * c >= 0) by (nonlinear_arith)
            requires
                vx * (vx * vy - c * c) >= 0,
                vx > 0,
        ;
    } else {
        // Both spreads are zero: the spread of x + y and of x - y is twice
        // the covariance, with either sign, and neither is negative.
        lemma_combined_spread(x, y, 1, 1);
        lemma_spread_nonnegative(combined(x, y, 1, 1));
        lemma_combined_spread(x, y, 1, -1);
        lemma_spread_nonnegative(combined(x, y, 1, -1));
        assert(c == 0) by (nonlinear_arith)
            requires
                1 * 1 * vx + 2 * 1 * 1 * c + 1 * 1 * vy >= 0,
                1 * 1 * vx + 2 * 1 * (-1) * c + (-1) * (-1) * vy >= 0,
                vx == 0,
                vy == 0,
        ;
        assert(c * c == 0 && vx * vy == 0) by (nonlinear_arith)
            requires
                c == 0,
                vx == 0,
        ;
    }
}

/// No score is greater than one.
pub proof fn lemma_score_at_most_one(x: Seq<int>, y: Seq<int>)
    requires
        x.len() == y.len(),
    ensures
        0 <= score_num(x, y) <= score_den(x, y),
{
    lemma_score_signs(x, y);
    lemma_covariance_bound(x, y);
}

/// Two sequences have one score only.
pub proof fn lemma_score_unique(s: Score, t: Score, x: Seq<int>, y: Seq<int>)
    requires
        s@ == score_of(x, y),
        t@ == score_of(x, y),
    ensures
        s == t,
{
    Score::lemma_same_parts(s, t);
}

} // verus!
