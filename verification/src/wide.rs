//! Products of two 128-bit numbers, which need up to 256 bits.

use vstd::prelude::*;

verus! {

/// Two to the power 64.
pub open spec fn two_64() -> int {
    0x1_0000_0000_0000_0000int
}

/// Two to the power 128.
pub open spec fn two_128() -> int {
    0x1_0000_0000_0000_0000_0000_0000_0000_0000int
}

/// A 256-bit number in two halves.
#[derive(Clone, Copy, Debug)]
pub struct Wide {
    pub high: u128,
    pub low: u128,
}

impl Wide {
    /// The number that the two halves stand for.
    pub open spec fn value(&self) -> int {
        self.high * two_128() + self.low
    }

    /// Whether this number is smaller than `other`.
    pub fn less_than(&self, other: &Wide) -> (r: bool)
        ensures
            r == (self.value() < other.value()),
    {
        self.high < other.high || (self.high == other.high && self.low < other.low)
    }
}

/// The product of two numbers below `2^64` is below `2^128`.
proof fn lemma_half_product(a: int, b: int)
    requires
        0 <= a < two_64(),
        0 <= b < two_64(),
    ensures
        0 <= a * b <= (two_64() - 1) * (two_64() - 1),
        (two_64() - 1) * (two_64() - 1) == two_128() - 2 * two_64() + 1,
{
    assert(0 <= a * b <= (two_64() - 1) * (two_64() - 1)) by (nonlinear_arith)
        requires
            0 <= a <= two_64() - 1,
            0 <= b <= two_64() - 1,
    ;
}

/// The product of two digit pairs, by its four partial products.
proof fn lemma_schoolbook(a1: int, a0: int, b1: int, b0: int, base: int)
    ensures
        (a1 * base + a0) * (b1 * base + b0) == (a1 * b1) * (base * base) + (a0 * b1 + a1 * b0)
            * base + a0 * b0,
{
    let x = a1 * base;
    let y = b1 * base;
    assert((x + a0) * (y + b0) == x * y + x * b0 + a0 * y + a0 * b0) by (nonlinear_arith);
    assert(x * y == (a1 * b1) * (base * base)) by (nonlinear_arith)
        requires
            x == a1 * base,
            y == b1 * base,
    ;
    assert(x * b0 == (a1 * b0) * base) by (nonlinear_arith)
        requires
            x == a1 * base,
    ;
    assert(a0 * y == (a0 * b1) * base) by (nonlinear_arith)
        requires
            y == b1 * base,
    ;
    assert((a0 * b1 + a1 * b0) * base == (a0 * b1) * base + (a1 * b0) * base)
        by (nonlinear_arith);
}

/// The full product of `a` and `b`.
pub fn mul_wide(a: u128, b: u128) -> (r: Wide)
    ensures
        r.value() == a * b,
{
    let base: u128 = 0x1_0000_0000_0000_0000;
    let a1: u128 = a / base;
    let a0: u128 = a % base;
    let b1: u128 = b / base;
    let b0: u128 = b % base;
    proof {
        lemma_half_product(a0 as int, b0 as int);
        lemma_half_product(a0 as int, b1 as int);
        lemma_half_product(a1 as int, b0 as int);
        lemma_half_product(a1 as int, b1 as int);
    }
    let p00: u128 = a0 * b0;
    let p01: u128 = a0 * b1;
    let p10: u128 = a1 * b0;
    let p11: u128 = a1 * b1;
    let middle: u128 = p00 / base + p01 % base + p10 % base;
    let low: u128 = (middle % base) * base + p00 % base;
    let high: u128 = p11 + p01 / base + p10 / base + middle / base;
    proof {
        let w = two_64();
        lemma_schoolbook(a1 as int, a0 as int, b1 as int, b0 as int, w);
        assert(w * w == two_128()) by (nonlinear_arith)
            requires
                w == two_64(),
        ;
        let h01 = (p01 / base) as int;
        let l01 = (p01 % base) as int;
        let h10 = (p10 / base) as int;
        let l10 = (p10 % base) as int;
        let h00 = (p00 / base) as int;
        let l00 = (p00 % base) as int;
        let mh = (middle / base) as int;
        let ml = (middle % base) as int;
        assert((p01 + p10) * w == (h01 + h10) * (w * w) + (l01 + l10) * w) by (nonlinear_arith)
            requires
                p01 == h01 * w + l01,
                p10 == h10 * w + l10,
        ;
        assert((mh * w + ml) * w == mh * (w * w) + ml * w) by (nonlinear_arith);
        assert((p11 + h01 + h10 + mh) * (w * w) == p11 * (w * w) + (h01 + h10) * (w * w) + mh * (w
            * w)) by (nonlinear_arith);
        assert((l01 + l10) * w + h00 * w == (l01 + l10 + h00) * w) by (nonlinear_arith);
    }
    Wide { high, low }
}

/// Whether `a * b < c * d`.
pub fn product_less(a: u128, b: u128, c: u128, d: u128) -> (r: bool)
    ensures
        r == (a * b < c * d),
{
    mul_wide(a, b).less_than(&mul_wide(c, d))
}

} // verus!
