//! Floor division and Euclidean remainder on machine integers.

use vstd::prelude::*;

verus! {

/// The floor of `a / b` for a positive divisor: the one `q` with
/// `q * b <= a < (q + 1) * b`.
pub open spec fn floor_div(a: int, b: int) -> int {
    a / b
}

/// The remainder that goes with [`floor_div`]: always in `[0, b)` for a
/// positive divisor.
pub open spec fn floor_mod(a: int, b: int) -> int {
    a % b
}

/// The quotient and remainder of floor division rebuild the dividend, and
/// the remainder is never negative.
pub proof fn lemma_floor_div_mod(a: int, b: int)
    requires
        b > 0,
    ensures
        floor_div(a, b) * b + floor_mod(a, b) == a,
        0 <= floor_mod(a, b) < b,
        floor_div(a, b) * b <= a < (floor_div(a, b) + 1) * b,
{
    vstd::arithmetic::div_mod::lemma_fundamental_div_mod(a, b);
    vstd::arithmetic::div_mod::lemma_mod_bound(a, b);
    assert((floor_div(a, b) + 1) * b == floor_div(a, b) * b + b) by (nonlinear_arith);
    assert(b * floor_div(a, b) == floor_div(a, b) * b) by (nonlinear_arith);
}

/// Any `q` that brackets `a` between `q * b` and `(q + 1) * b` is the floor
/// quotient.
pub proof fn lemma_floor_div_unique(a: int, b: int, q: int)
    requires
        b > 0,
        q * b <= a < (q + 1) * b,
    ensures
        q == floor_div(a, b),
        a - q * b == floor_mod(a, b),
{
    let r = a - q * b;
    assert((q + 1) * b == q * b + b) by (nonlinear_arith);
    vstd::arithmetic::div_mod::lemma_fundamental_div_mod_converse(a, b, q, r);
}

/// How the floor quotient of a negative dividend is read off the quotient of
/// its magnitude: one further down unless the division is exact.
pub proof fn lemma_floor_of_negative(a: int, b: int)
    requires
        a < 0,
        b > 0,
    ensures
        floor_mod(-a, b) == 0 ==> floor_div(a, b) == -floor_div(-a, b) && floor_mod(a, b) == 0,
        floor_mod(-a, b) != 0 ==> floor_div(a, b) == -floor_div(-a, b) - 1 && floor_mod(a, b) == b
            - floor_mod(-a, b),
{
    lemma_floor_div_mod(-a, b);
    let u = floor_div(-a, b);
    let n = floor_mod(-a, b);
    assert((-u) * b == -(u * b)) by (nonlinear_arith);
    assert((-u - 1) * b == -(u * b) - b) by (nonlinear_arith);
    assert((-u + 1) * b == -(u * b) + b) by (nonlinear_arith);
    if n == 0 {
        lemma_floor_div_unique(a, b, -u);
    } else {
        lemma_floor_div_unique(a, b, -u - 1);
    }
}

/// Floor division of `a` by a positive `b`, total over the whole range of
/// `a`.
pub fn div_neg_isize(a: isize, b: isize) -> (q: isize)
    requires
        b > 0,
    ensures
        q == floor_div(a as int, b as int),
        q * b <= a < (q + 1) * b,
{
    let q: isize = if a >= 0 {
        a / b
    } else {
        let t: isize = -(a + 1);
        let u: isize = t / b;
        proof {
            lemma_floor_div_mod(t as int, b as int);
            assert((-(u + 1)) * b == -(u * b) - b) by (nonlinear_arith);
            assert((-(u + 1) + 1) * b == -(u * b)) by (nonlinear_arith);
        }
        -u - 1
    };
    proof {
        if a >= 0 {
            lemma_floor_div_mod(a as int, b as int);
        } else {
            lemma_floor_div_unique(a as int, b as int, q as int);
        }
    }
    q
}

/// Floor division by way of the Euclidean remainder: the dividend is first
/// rounded down to a multiple of `b`. The intermediate values are held in
/// 128 bits, so every `a` is accepted.
pub fn div_neg_isize_2(a: isize, b: isize) -> (q: isize)
    requires
        b > 0,
    ensures
        q == floor_div(a as int, b as int),
        q * b <= a < (q + 1) * b,
{
    let wa: i128 = a as i128;
    let wb: i128 = b as i128;
    let t: i128 = wa % wb;
    let r: i128 = (t + wb) % wb;
    proof {
        lemma_floor_div_mod(a as int, b as int);
        let m = floor_mod(a as int, b as int);
        if a >= 0 {
            vstd::arithmetic::div_mod::lemma_fundamental_div_mod_converse(t + wb, b as int, 1, m);
        } else {
            lemma_floor_of_negative(a as int, b as int);
            lemma_floor_div_mod(-(a as int), b as int);
            let n = floor_mod(-(a as int), b as int);
            if n == 0 {
                vstd::arithmetic::div_mod::lemma_fundamental_div_mod_converse(t + wb, b as int, 1, 0);
            } else {
                vstd::arithmetic::div_mod::lemma_fundamental_div_mod_converse(t + wb, b as int, 0, b - n);
            }
        }
        let fq = floor_div(a as int, b as int);
        lemma_floor_range(a as int, b as int);
        lemma_exact_quotient(fq, b as int);
    }
    let w: i128 = (wa - r) / wb;
    w as isize
}

/// A multiple `q * b` divides back to `q`, and so does its magnitude.
proof fn lemma_exact_quotient(q: int, b: int)
    requires
        b > 0,
    ensures
        floor_div(q * b, b) == q,
        q < 0 ==> floor_div(-(q * b), b) == -q,
{
    vstd::arithmetic::div_mod::lemma_fundamental_div_mod_converse(q * b, b, q, 0);
    if q < 0 {
        assert((-q) * b == -(q * b)) by (nonlinear_arith);
        vstd::arithmetic::div_mod::lemma_fundamental_div_mod_converse(-(q * b), b, -q, 0);
    }
}

/// The floor quotient by a positive divisor is no larger in magnitude than
/// the dividend, so it fits wherever the dividend does.
pub proof fn lemma_floor_range(a: int, b: int)
    requires
        b > 0,
    ensures
        a >= 0 ==> 0 <= floor_div(a, b) <= a,
        a < 0 ==> a <= floor_div(a, b) < 0,
{
    lemma_floor_div_mod(a, b);
    let q = floor_div(a, b);
    if a >= 0 {
        assert(q >= 0) by (nonlinear_arith)
            requires a < (q + 1) * b, a >= 0, b > 0;
        assert(q <= a) by (nonlinear_arith)
            requires q * b <= a, q >= 0, b > 0;
    } else {
        assert(q < 0) by (nonlinear_arith)
            requires q * b <= a, a < 0, b > 0;
        assert(a <= q) by (nonlinear_arith)
            requires a < (q + 1) * b, q < 0, b > 0, a < 0;
    }
}

/// Floor division by way of the truncated quotient and the sign of the
/// truncated remainder, read off with an arithmetic shift by 31 bits. The
/// shift tells the sign only of a remainder that fits in 32 bits, which
/// bounds the divisor.
pub fn div_neg_isize_3(a: isize, b: isize) -> (q: isize)
    requires
        0 < b <= 0x8000_0000,
    ensures
        q == floor_div(a as int, b as int),
        q * b <= a < (q + 1) * b,
{
    let t: isize = a / b;
    let r: isize = a % b;
    let s: isize = r >> 31;
    assert(0 <= r && r < 0x8000_0000 ==> r >> 31 == 0) by (bit_vector);
    assert(-0x8000_0000 <= r && r < 0 ==> r >> 31 == -1) by (bit_vector);
    proof {
        lemma_floor_div_mod(a as int, b as int);
        lemma_floor_range(a as int, b as int);
        if a < 0 {
            lemma_floor_of_negative(a as int, b as int);
            lemma_floor_div_mod(-(a as int), b as int);
        }
    }
    t + s
}

/// The Euclidean remainder of `a` by a positive `b`, as an unsigned value.
pub fn rem_floor(a: isize, b: isize) -> (r: usize)
    requires
        b > 0,
    ensures
        r == floor_mod(a as int, b as int),
        r < b,
{
    let t: isize = a % b;
    proof {
        lemma_floor_div_mod(a as int, b as int);
        if a < 0 {
            lemma_floor_of_negative(a as int, b as int);
            lemma_floor_div_mod(-(a as int), b as int);
        }
    }
    if t < 0 {
        (t + b) as usize
    } else {
        t as usize
    }
}

} // verus!
