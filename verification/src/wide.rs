//! Exact natural numbers below 2^256, as two 128-bit halves: what the text
//! and image statistics need to compare and divide their sums exactly for
//! inputs of any length.
use vstd::prelude::*;

use crate::text::round_div;

verus! {

pub open spec fn b64() -> nat {
    0x1_0000_0000_0000_0000
}

pub open spec fn b128() -> nat {
    b64() * b64()
}

pub open spec fn b256() -> nat {
    b128() * b128()
}

/// A natural number `hi * 2^128 + lo`.
#[derive(Debug, Clone, Copy)]
pub struct Wide {
    pub hi: u128,
    pub lo: u128,
}

impl Wide {
    pub open spec fn val(self) -> nat {
        self.hi as nat * b128() + self.lo as nat
    }
}

proof fn lemma_val_bound(w: Wide)
    ensures
        w.val() < b256(),
{
    assert((w.hi as nat) * b128() + (w.lo as nat) < b256()) by (nonlinear_arith)
        requires
            w.hi < b128(),
            w.lo < b128(),
            b256() == b128() * b128(),
    ;
}

pub fn wide(a: u128) -> (w: Wide)
    ensures
        w.val() == a,
{
    Wide { hi: 0, lo: a }
}

proof fn lemma_expand(a1: int, a0: int, b1: int, b0: int, m: int)
    ensures
        (a1 * m + a0) * (b1 * m + b0) == (a1 * b1) * (m * m) + (a0 * b1 + a1 * b0) * m + a0 * b0,
{
    let x = a1 * m;
    let y = b1 * m;
    assert((x + a0) * (y + b0) == x * y + x * b0 + a0 * y + a0 * b0) by (nonlinear_arith);
    assert(x * y == (a1 * b1) * (m * m)) by (nonlinear_arith)
        requires
            x == a1 * m,
            y == b1 * m,
    ;
    assert(x * b0 == (a1 * b0) * m) by (nonlinear_arith)
        requires
            x == a1 * m,
    ;
    assert(a0 * y == (a0 * b1) * m) by (nonlinear_arith)
        requires
            y == b1 * m,
    ;
    assert((a0 * b1 + a1 * b0) * m == (a0 * b1) * m + (a1 * b0) * m) by (nonlinear_arith);
}

/// Exact product of two 128-bit numbers.
pub fn wide_mul(a: u128, b: u128) -> (w: Wide)
    ensures
        w.val() == a * b,
{
    let a1 = a / 0x1_0000_0000_0000_0000;
    let a0 = a % 0x1_0000_0000_0000_0000;
    let b1 = b / 0x1_0000_0000_0000_0000;
    let b0 = b % 0x1_0000_0000_0000_0000;
    assert(a1 < b64() && a0 < b64() && b1 < b64() && b0 < b64());
    assert(a1 * b1 < b128() && a1 * b0 < b128() && a0 * b1 < b128() && a0 * b0 < b128()) by (
    nonlinear_arith)
        requires
            a1 < b64(),
            a0 < b64(),
            b1 < b64(),
            b0 < b64(),
            b128() == b64() * b64(),
    ;
    let p00 = a0 * b0;
    let p01 = a0 * b1;
    let p10 = a1 * b0;
    let p11 = a1 * b1;
    let mid = p01 % 0x1_0000_0000_0000_0000 + p10 % 0x1_0000_0000_0000_0000 + p00
        / 0x1_0000_0000_0000_0000;
    let lo = (mid % 0x1_0000_0000_0000_0000) * 0x1_0000_0000_0000_0000 + p00
        % 0x1_0000_0000_0000_0000;
    proof {
        let m: int = b64() as int;
        let (ai, bi, a1i, a0i, b1i, b0i) = (a as int, b as int, a1 as int, a0 as int, b1 as int, b0 as int);
        let (q00, q01, q10, q11, mi) = (p00 as int, p01 as int, p10 as int, p11 as int, mid as int);
        assert(ai == a1i * m + a0i);
        assert(bi == b1i * m + b0i);
        assert(q01 == (q01 / m) * m + q01 % m);
        assert(q10 == (q10 / m) * m + q10 % m);
        assert(q00 == (q00 / m) * m + q00 % m);
        assert(mi == (mi / m) * m + mi % m);
        lemma_expand(a1i, a0i, b1i, b0i, m);
        assert(ai * bi == q11 * (m * m) + (q01 + q10) * m + q00);
        assert(q11 <= (m - 1) * (m - 1)) by (nonlinear_arith)
            requires
                q11 == a1i * b1i,
                0 <= a1i < m,
                0 <= b1i < m,
        ;
        assert(q01 <= (m - 1) * (m - 1) && q10 <= (m - 1) * (m - 1)) by (nonlinear_arith)
            requires
                q01 == a0i * b1i,
                q10 == a1i * b0i,
                0 <= a1i < m,
                0 <= b1i < m,
                0 <= a0i < m,
                0 <= b0i < m,
        ;
        assert(q01 / m <= m - 2 && q10 / m <= m - 2) by (nonlinear_arith)
            requires
                0 <= q01 <= (m - 1) * (m - 1),
                0 <= q10 <= (m - 1) * (m - 1),
                m > 2,
        ;
        assert(mi / m <= 2) by (nonlinear_arith)
            requires
                0 <= mi < 3 * m,
                m > 0,
        ;
        assert(q11 + q01 / m + q10 / m + mi / m < m * m) by (nonlinear_arith)
            requires
                q11 <= (m - 1) * (m - 1),
                q01 / m <= m - 2,
                q10 / m <= m - 2,
                mi / m <= 2,
                m > 2,
        ;
    }
    let hi = p11 + p01 / 0x1_0000_0000_0000_0000 + p10 / 0x1_0000_0000_0000_0000 + mid
        / 0x1_0000_0000_0000_0000;
    proof {
        let m: int = b64() as int;
        let (q00, q01, q10, q11, mi) = (p00 as int, p01 as int, p10 as int, p11 as int, mid as int);
        let (h, l) = (hi as int, lo as int);
        assert(h * (m * m) + l == q11 * (m * m) + (q01 + q10) * m + q00) by (nonlinear_arith)
            requires
                h == q11 + q01 / m + q10 / m + mi / m,
                l == (mi % m) * m + q00 % m,
                mi == q01 % m + q10 % m + q00 / m,
                q01 == (q01 / m) * m + q01 % m,
                q10 == (q10 / m) * m + q10 % m,
                q00 == (q00 / m) * m + q00 % m,
                mi == (mi / m) * m + mi % m,
        ;
    }
    Wide { hi, lo }
}

/// Sum of two numbers whose sum is below 2^256.
pub fn wide_add(a: Wide, b: Wide) -> (w: Wide)
    requires
        a.val() + b.val() < b256(),
    ensures
        w.val() == a.val() + b.val(),
{
    let room = u128::MAX - a.lo;
    if b.lo <= room {
        assert(a.hi + b.hi < b128()) by (nonlinear_arith)
            requires
                a.hi * b128() + a.lo + b.hi * b128() + b.lo < b128() * b128(),
                a.lo >= 0,
                b.lo >= 0,
        ;
        Wide { hi: a.hi + b.hi, lo: a.lo + b.lo }
    } else {
        assert(a.hi + b.hi + 1 < b128()) by (nonlinear_arith)
            requires
                a.hi * b128() + a.lo + b.hi * b128() + b.lo < b128() * b128(),
                a.lo + b.lo >= b128(),
        ;
        Wide { hi: a.hi + b.hi + 1, lo: b.lo - room - 1 }
    }
}

/// Difference of two numbers, the first not the smaller.
pub fn wide_sub(a: Wide, b: Wide) -> (w: Wide)
    requires
        a.val() >= b.val(),
    ensures
        w.val() == a.val() - b.val(),
{
    if a.lo >= b.lo {
        assert(a.hi >= b.hi) by (nonlinear_arith)
            requires
                a.hi * b128() + a.lo >= b.hi * b128() + b.lo,
                a.lo < b128(),
                b.lo >= 0,
        ;
        assert((a.hi - b.hi) * b128() + (a.lo - b.lo) == a.val() - b.val()) by (nonlinear_arith)
            requires
                a.val() == a.hi * b128() + a.lo,
                b.val() == b.hi * b128() + b.lo,
        ;
        Wide { hi: a.hi - b.hi, lo: a.lo - b.lo }
    } else {
        assert(a.hi >= b.hi + 1) by (nonlinear_arith)
            requires
                a.hi * b128() + a.lo >= b.hi * b128() + b.lo,
                a.lo < b.lo,
        ;
        assert((a.hi - b.hi - 1) * b128() + (b128() - b.lo + a.lo) == a.val() - b.val()) by (
        nonlinear_arith)
            requires
                a.val() == a.hi * b128() + a.lo,
                b.val() == b.hi * b128() + b.lo,
        ;
        assert(u128::MAX == b128() - 1);
        Wide { hi: a.hi - b.hi - 1, lo: (u128::MAX - b.lo) + a.lo + 1 }
    }
}

pub fn wide_lt(a: Wide, b: Wide) -> (r: bool)
    ensures
        r == (a.val() < b.val()),
{
    if a.hi < b.hi {
        assert(a.val() < b.val()) by (nonlinear_arith)
            requires
                a.hi + 1 <= b.hi,
                a.lo < b128(),
                b.lo >= 0,
                a.val() == a.hi * b128() + a.lo,
                b.val() == b.hi * b128() + b.lo,
        ;
        true
    } else if a.hi > b.hi {
        assert(a.val() > b.val()) by (nonlinear_arith)
            requires
                b.hi + 1 <= a.hi,
                b.lo < b128(),
                a.lo >= 0,
                a.val() == a.hi * b128() + a.lo,
                b.val() == b.hi * b128() + b.lo,
        ;
        false
    } else {
        a.lo < b.lo
    }
}

pub fn wide_le(a: Wide, b: Wide) -> (r: bool)
    ensures
        r == (a.val() <= b.val()),
{
    !wide_lt(b, a)
}

/// Product of a number and a 128-bit factor, the product below 2^256.
pub fn wide_scale(a: Wide, k: u128) -> (w: Wide)
    requires
        a.val() * k < b256(),
    ensures
        w.val() == a.val() * k,
{
    let low = wide_mul(a.lo, k);
    proof {
        assert(a.val() * k == a.hi * k * b128() + a.lo * k) by (nonlinear_arith)
            requires
                a.val() == a.hi * b128() + a.lo,
        ;
        assert(a.hi * k * b128() + low.hi * b128() < b256()) by (nonlinear_arith)
            requires
                a.hi * k * b128() + low.hi * b128() + low.lo < b256(),
                low.lo >= 0,
        ;
        assert(a.hi * k + low.hi < b128()) by (nonlinear_arith)
            requires
                (a.hi * k + low.hi) * b128() < b128() * b128(),
                b128() > 0,
        ;
    }
    Wide { hi: a.hi * k + low.hi, lo: low.lo }
}

/// Whether `a * k` would reach 2^256.
pub fn wide_scale_fits(a: Wide, k: u128) -> (r: bool)
    ensures
        r == (a.val() * k < b256()),
{
    let low = wide_mul(a.lo, k);
    let high = wide_mul(a.hi, k);
    proof {
        assert(a.val() * k == high.val() * b128() + low.val()) by (nonlinear_arith)
            requires
                a.val() == a.hi * b128() + a.lo,
                high.val() == a.hi * k,
                low.val() == a.lo * k,
        ;
        lemma_val_bound(low);
    }
    if high.hi > 0 {
        assert(high.val() >= b128()) by (nonlinear_arith)
            requires
                high.val() == high.hi * b128() + high.lo,
                high.hi >= 1,
        ;
        assert(high.val() * b128() >= b256()) by (nonlinear_arith)
            requires
                high.val() >= b128(),
                b256() == b128() * b128(),
        ;
        false
    } else {
        assert(high.val() == high.lo);
        if high.lo > u128::MAX - low.hi {
            assert(a.val() * k == high.lo * b128() + low.hi * b128() + low.lo) by (nonlinear_arith)
                requires
                    a.val() * k == high.val() * b128() + low.val(),
                    high.val() == high.lo,
                    low.val() == low.hi * b128() + low.lo,
            ;
            assert(a.val() * k >= b256()) by (nonlinear_arith)
                requires
                    a.val() * k == high.lo * b128() + low.hi * b128() + low.lo,
                    high.lo + low.hi >= b128(),
                    low.lo >= 0,
                    b256() == b128() * b128(),
            ;
            false
        } else {
            assert(a.val() * k == (high.lo + low.hi) * b128() + low.lo) by (nonlinear_arith)
                requires
                    a.val() * k == high.val() * b128() + low.val(),
                    high.val() == high.lo,
                    low.val() == low.hi * b128() + low.lo,
            ;
            assert(a.val() * k < b256()) by (nonlinear_arith)
                requires
                    a.val() * k == (high.lo + low.hi) * b128() + low.lo,
                    high.lo + low.hi < b128(),
                    low.lo < b128(),
                    b256() == b128() * b128(),
            ;
            true
        }
    }
}

/// Floor of `a / b`, for a quotient below 2^127.
pub fn wide_div(a: Wide, b: Wide) -> (q: u128)
    requires
        b.val() > 0,
        a.val() < b.val() * 0x8000_0000_0000_0000_0000_0000_0000_0000,
    ensures
        q as int == a.val() / b.val(),
{
    let mut lo: u128 = 0;
    let mut hi: u128 = 0x8000_0000_0000_0000_0000_0000_0000_0000;
    while hi - lo > 1
        invariant
            lo < hi <= 0x8000_0000_0000_0000_0000_0000_0000_0000,
            b.val() * lo <= a.val(),
            a.val() < b.val() * hi,
        decreases hi - lo,
    {
        let mid = lo + (hi - lo) / 2;
        proof {
            lemma_val_bound(a);
            assert(b.val() * mid <= b.val() * hi) by (nonlinear_arith)
                requires
                    mid <= hi,
            ;
        }
        if wide_scale_fits(b, mid) && wide_le(wide_scale(b, mid), a) {
            lo = mid;
        } else {
            proof {
                if b.val() * mid < b256() {
                } else {
                    lemma_val_bound(a);
                }
            }
            hi = mid;
        }
    }
    proof {
        assert(hi == lo + 1);
        let bv = b.val() as int;
        let av = a.val() as int;
        assert(bv * lo <= av < bv * (lo + 1));
        vstd::arithmetic::div_mod::lemma_fundamental_div_mod(av, bv);
        let q = av / bv;
        let r = av % bv;
        assert(q == lo) by (nonlinear_arith)
            requires
                bv * lo <= av,
                av < bv * (lo + 1),
                av == bv * q + r,
                0 <= r < bv,
        ;
    }
    lo
}

/// `a / b` rounded to the nearest integer, exact halves to the even
/// neighbour, for a quotient below 2^126.
pub fn wide_round_div(a: Wide, b: Wide) -> (q: u128)
    requires
        b.val() > 0,
        a.val() < b.val() * 0x4000_0000_0000_0000_0000_0000_0000_0000,
    ensures
        q as int == round_div(a.val() as int, b.val() as int),
{
    proof {
        assert(b.val() * 0x4000_0000_0000_0000_0000_0000_0000_0000 <= b.val()
            * 0x8000_0000_0000_0000_0000_0000_0000_0000) by (nonlinear_arith);
    }
    let q = wide_div(a, b);
    proof {
        vstd::arithmetic::div_mod::lemma_fundamental_div_mod(a.val() as int, b.val() as int);
        assert(b.val() * q <= a.val()) by (nonlinear_arith)
            requires
                q == a.val() / b.val(),
                a.val() == b.val() * (a.val() / b.val()) + a.val() % b.val(),
                a.val() % b.val() >= 0,
        ;
        lemma_val_bound(a);
        assert(q < 0x4000_0000_0000_0000_0000_0000_0000_0000) by (nonlinear_arith)
            requires
                b.val() * q <= a.val(),
                a.val() < b.val() * 0x4000_0000_0000_0000_0000_0000_0000_0000,
                b.val() > 0,
        ;
    }
    let bq = wide_scale(b, q);
    let r = wide_sub(a, bq);
    proof {
        assert(r.val() == a.val() % b.val());
        assert(r.val() < b.val());
    }
    let rest = wide_sub(b, r);
    if wide_lt(rest, r) || (!wide_lt(r, rest) && q % 2 == 1) {
        q + 1
    } else {
        q
    }
}

/// Integer square root of a number below 2^254.
pub fn wide_isqrt(x: Wide) -> (r: u128)
    requires
        x.val() < 0x4000_0000_0000_0000_0000_0000_0000_0000 * b128(),
    ensures
        r * r <= x.val() < (r + 1) * (r + 1),
        r < 0x8000_0000_0000_0000_0000_0000_0000_0000,
{
    let mut lo: u128 = 0;
    let mut hi: u128 = 0x8000_0000_0000_0000_0000_0000_0000_0000;
    assert(x.val() < hi * hi) by (nonlinear_arith)
        requires
            hi == 0x8000_0000_0000_0000_0000_0000_0000_0000,
            x.val() < 0x4000_0000_0000_0000_0000_0000_0000_0000 * b128(),
    ;
    while hi - lo > 1
        invariant
            lo < hi <= 0x8000_0000_0000_0000_0000_0000_0000_0000,
            lo * lo <= x.val(),
            x.val() < hi * hi,
        decreases hi - lo,
    {
        let mid = lo + (hi - lo) / 2;
        if wide_le(wide_mul(mid, mid), x) {
            lo = mid;
        } else {
            hi = mid;
        }
    }
    lo
}

} // verus!
