//! Digits of a number: in base three, and in a radix that changes from
//! place to place.

use vstd::prelude::*;
use vstd::arithmetic::div_mod::{lemma_basic_div, lemma_div_denominator};
use vstd::arithmetic::power::{lemma_pow_adds, lemma_pow_positive, pow};
use crate::grid4::digits;

verus! {

/// The digit of `x` in base three that stands at place `i` of `n` places,
/// the highest place first.
pub open spec fn ternary_digit(x: int, n: int, i: int) -> int {
    (x / pow(3, (n - 1 - i) as nat)) % 3
}

/// Three times a power of three is the next power.
proof fn lemma_pow3_next(e: nat)
    ensures
        pow(3, e + 1) == pow(3, e) * 3,
        pow(3, e) > 0,
{
    reveal(pow);
    lemma_pow_positive(3, e);
}

/// Dividing by a power of three and again by a power of three divides by
/// the power of the sum.
proof fn lemma_div_pow3(x: int, a: nat, b: nat)
    requires
        x >= 0,
    ensures
        (x / pow(3, a)) / pow(3, b) == x / pow(3, a + b),
{
    lemma_pow_positive(3, a);
    lemma_pow_positive(3, b);
    lemma_pow_adds(3, a, b);
    lemma_div_denominator(x, pow(3, a), pow(3, b));
}

/// The `L` digits of `x` in base three, the highest first.
pub fn ternary<const L: usize>(x: usize) -> (r: [usize; L])
    requires
        x < pow(3, L as nat),
    ensures
        forall|i: int| 0 <= i < L ==> #[trigger] r[i] == ternary_digit(x as int, L as int, i),
{
    let ghost x0 = x as int;
    let mut x = x;
    let mut r: [usize; L] = [0;L];
    let mut i = L;
    proof {
        reveal(pow);
    }
    while x != 0
        invariant
            0 <= i <= L,
            0 <= x0 < pow(3, L as nat),
            x == x0 / pow(3, (L - i) as nat),
            forall|j: int| i <= j < L ==> #[trigger] r[j] == ternary_digit(x0, L as int, j),
            forall|j: int| 0 <= j < i ==> #[trigger] r[j] == 0,
        decreases x,
    {
        proof {
            if i == 0 {
                lemma_basic_div(x0, pow(3, L as nat));
            }
            lemma_pow3_next((L - i) as nat);
            lemma_div_denominator(x0, pow(3, (L - i) as nat), 3);
        }
        i -= 1;
        r[i] = x % 3;
        x /= 3;
    }
    proof {
        assert forall|j: int| 0 <= j < L implies #[trigger] r[j] == ternary_digit(x0, L as int, j) by {
            if j < i {
                lemma_div_pow3(x0, (L - i) as nat, (i - 1 - j) as nat);
                lemma_pow_positive(3, (i - 1 - j) as nat);
                lemma_basic_div(0, pow(3, (i - 1 - j) as nat));
            }
        }
    }
    r
}

/// What is left of `x` once the places below place `i` have been taken off:
/// `x` divided by each of `lengths` from the last down to the one after
/// `i`.
pub open spec fn carried(x: int, lengths: Seq<usize>, i: int) -> int
    decreases lengths.len() - i,
{
    if i >= lengths.len() - 1 {
        x
    } else {
        carried(x, lengths, i + 1) / (lengths[i + 1] as int)
    }
}

/// Once nothing is left at a place, nothing is left at any higher place.
proof fn lemma_carried_stays_zero(x: int, lengths: Seq<usize>, i: int, j: int)
    requires
        0 <= j <= i < lengths.len(),
        forall|k: int| 0 <= k < lengths.len() ==> lengths[k] > 0,
        carried(x, lengths, i) == 0,
    ensures
        carried(x, lengths, j) == 0,
    decreases i - j,
{
    if j < i {
        lemma_carried_stays_zero(x, lengths, i, j + 1);
        lemma_basic_div(0, lengths[j + 1] as int);
    }
}

/// The digits of `x` in the radix `lengths`, the highest place first: the
/// digit at a place is what is left there, reduced by the length of the
/// place. What lies above the highest place is dropped.
pub fn ternary_2<const L: usize>(x: usize, lengths: &[usize; L]) -> (r: [usize; L])
    requires
        forall|k: int| 0 <= k < L ==> lengths[k] > 0,
    ensures
        forall|i: int|
            0 <= i < L ==> #[trigger] r[i] == carried(x as int, lengths@, i) % (lengths[i] as int),
{
    let ghost x0 = x as int;
    let mut x = x;
    let mut r: [usize; L] = [0;L];
    let mut i = L;
    while i > 0
        invariant_except_break
            0 <= i <= L,
            i > 0 ==> x == carried(x0, lengths@, i - 1),
        invariant
            lengths@.len() == L,
            forall|k: int| 0 <= k < L ==> lengths[k] > 0,
            forall|j: int|
                i <= j < L ==> #[trigger] r[j] == carried(x0, lengths@, j) % (lengths[j] as int),
            forall|j: int| 0 <= j < i ==> #[trigger] r[j] == 0,
        ensures
            0 <= i <= L,
            i > 0 ==> carried(x0, lengths@, i - 1) == 0,
        decreases i,
    {
        i -= 1;
        let m = lengths[i];
        r[i] = x % m;
        x /= m;
        if x == 0 {
            break ;
        }
    }
    proof {
        assert forall|j: int| 0 <= j < L implies #[trigger] r[j] == carried(x0, lengths@, j) % (
        lengths[j] as int) by {
            if j < i {
                lemma_carried_stays_zero(x0, lengths@, i - 1, j);
                vstd::arithmetic::div_mod::lemma_small_mod(0, lengths[j] as nat);
            }
        }
    }
    r
}

/// The three digits of `x` in the mixed radix `(L1, L2, L3)`, the highest
/// first; `x` has no more than these.
pub fn index_3l<const L1: usize, const L2: usize, const L3: usize>(x: usize) -> (r: (
    usize,
    usize,
    usize,
))
    requires
        L1 > 0,
        L2 > 0,
        L3 > 0,
        x < L1 * L2 * L3,
    ensures
        (r.2 as int, r.1 as int, r.0 as int) == digits(x as int, L3 as int, L2 as int, L1 as int),
        x == (r.0 * L2 + r.1) * L3 + r.2,
{
    let ghost x0 = x as int;
    let mut x = x;
    let i3 = x % L3;
    x /= L3;
    let i2 = x % L2;
    x /= L2;
    let i1 = x % L1;
    proof {
        let l1 = L1 as int;
        let l2 = L2 as int;
        let l3 = L3 as int;
        vstd::arithmetic::div_mod::lemma_fundamental_div_mod(x0, l3);
        vstd::arithmetic::div_mod::lemma_fundamental_div_mod(x0 / l3, l2);
        assert(l3 * l2 > 0) by (nonlinear_arith)
            requires
                l3 > 0,
                l2 > 0,
        ;
        lemma_div_denominator(x0, l3, l2);
        assert(x0 < l1 * (l3 * l2)) by (nonlinear_arith)
            requires
                x0 < l1 * l2 * l3,
        ;
        assert(x0 / (l3 * l2) < l1) by {
            vstd::arithmetic::div_mod::lemma_div_by_multiple_is_strongly_ordered(
                x0,
                l1 * (l3 * l2),
                l1,
                l3 * l2,
            );
            vstd::arithmetic::div_mod::lemma_div_by_multiple(l1, l3 * l2);
        }
        vstd::arithmetic::div_mod::lemma_div_pos_is_pos(x0, l3 * l2);
        vstd::arithmetic::div_mod::lemma_small_mod((x0 / l3 / l2) as nat, l1 as nat);
        assert(x0 == ((x0 / l3 / l2) * l2 + (x0 / l3) % l2) * l3 + x0 % l3) by (nonlinear_arith)
            requires
                x0 == l3 * (x0 / l3) + x0 % l3,
                x0 / l3 == l2 * (x0 / l3 / l2) + (x0 / l3) % l2,
        ;
    }
    (i1, i2, i3)
}

} // verus!
