//! What numbers stand for and how they are compared.
use vstd::arithmetic::div_mod::{lemma_fundamental_div_mod, lemma_mod_multiples_basic};
use vstd::arithmetic::logarithm::log;
use vstd::arithmetic::power2::{lemma2_to64, lemma2_to64_rest, lemma_pow2_adds, lemma_pow2_pos, lemma_pow2_unfold, pow2};
use vstd::prelude::*;

use crate::number::{f64_size, integer_number, lemma_size_monotone, nearest_f64, round_half_even, unit, NumberView};

verus! {

/// A number is an unsigned integer, a negative one or a double, and is read as an integer only if it is one.
pub proof fn lemma_numbers_read(n: NumberView)
    ensures
        n matches NumberView::PosInt(k) ==> n.as_u64() == Some(k) && n.is_whole() && (k <= i64::MAX ==> n.as_i64()
            == Some(k as i64)) && (k > i64::MAX ==> n.as_i64() is None),
        n matches NumberView::NegInt(k) ==> n.as_u64() is None && n.as_i64() == Some(k) && n.is_whole(),
        n is Float ==> n.as_u64() is None && n.as_i64() is None,
{
}

/// A double is whole exactly if it is a multiple of one.
pub proof fn lemma_whole_doubles(bits: u64)
    ensures
        NumberView::Float(bits).is_whole() <==> exists|k: int|
            #[trigger] times(k, unit() as int) == NumberView::Float(bits).units(),
{
    lemma_pow2_pos(1074);
    let u = unit() as int;
    let size = f64_size(bits) as int;
    let held = NumberView::Float(bits).units();
    if NumberView::Float(bits).is_whole() {
        let q = size / u;
        lemma_fundamental_div_mod(size, u);
        assert(times(q, u) == size) by (nonlinear_arith)
            requires
                size == u * q,
        ;
        assert(times(-q, u) == -size) by (nonlinear_arith)
            requires
                size == u * q,
        ;
    }
    if exists|k: int| #[trigger] times(k, u) == held {
        let k = choose|k: int| #[trigger] times(k, u) == held;
        let q = if held == size {
            k
        } else {
            -k
        };
        assert(size == q * u) by (nonlinear_arith)
            requires
                k * u == held,
                (q == k && size == held) || (q == -k && size == -held),
        ;
        lemma_mod_multiples_basic(q, u);
    }
}

/// A product.
pub open spec fn times(a: int, b: int) -> int {
    a * b
}

/// Doubles with the two signs stand on the two sides of zero, at the same
/// distance, and doubles are equal exactly if they have the same value.
pub proof fn lemma_signs_of_doubles(bits: u64, other: u64)
    requires
        bits < 0x8000_0000_0000_0000,
    ensures
        NumberView::Float(bits).units() >= 0,
        NumberView::Float((bits + 0x8000_0000_0000_0000) as u64).units() == -NumberView::Float(bits).units(),
        NumberView::Float(bits).same(NumberView::Float(other)) <==> NumberView::Float(bits).units()
            == NumberView::Float(other).units(),
{
}

/// The integer that a number holds, where it holds one that a double holds exactly.
pub open spec fn exact_integer(n: NumberView) -> Option<int> {
    match n {
        NumberView::PosInt(k) => if k < 0x20_0000_0000_0000 {
            Some(k as int)
        } else {
            None
        },
        NumberView::NegInt(k) => if -0x20_0000_0000_0000 < k < 0 {
            Some(k as int)
        } else {
            None
        },
        NumberView::Float(_) => None,
    }
}

/// Integers that a double holds exactly are compared as integers.
pub proof fn lemma_integers_compare_as_integers(a: NumberView, b: NumberView)
    requires
        exact_integer(a) is Some,
        exact_integer(b) is Some,
    ensures
        a.units() <= b.units() <==> exact_integer(a)->0 <= exact_integer(b)->0,
{
    lemma_pow2_pos(1074);
    let x = exact_integer(a)->0;
    let y = exact_integer(b)->0;
    let u = unit() as int;
    assert(a.units() == x * u) by {
        if let NumberView::NegInt(k) = a {
            assert(-((-k) * u) == k * u) by (nonlinear_arith);
        }
    }
    assert(b.units() == y * u) by {
        if let NumberView::NegInt(k) = b {
            assert(-((-k) * u) == k * u) by (nonlinear_arith);
        }
    }
    assert((x * u <= y * u) <==> x <= y) by (nonlinear_arith)
        requires
            u > 0,
    ;
}

/// An integer becomes the number of its sign.
pub proof fn lemma_integers_become_numbers(n: i64)
    ensures
        integer_number(n).as_i64() == Some(n),
        integer_number(n).wf(),
{
}

/// Among the doubles that are not negative, a larger bit pattern stands for a larger number.
pub proof fn lemma_doubles_in_order(a: u64, b: u64)
    requires
        a < b < 0x8000_0000_0000_0000,
    ensures
        NumberView::Float(a).units() < NumberView::Float(b).units(),
{
    lemma_size_monotone(a, b);
}

/// The smallest doubles are counted out one by one; from there on, one more in
/// the exponent doubles the number.
pub proof fn lemma_doubles_by_their_exponent(bits: u64)
    requires
        bits < 0x7fe0_0000_0000_0000,
    ensures
        bits < 0x20_0000_0000_0000 ==> NumberView::Float(bits).units() == bits,
        bits >= 0x10_0000_0000_0000 ==> NumberView::Float((bits + 0x10_0000_0000_0000) as u64).units() == 2
            * NumberView::Float(bits).units(),
{
    lemma2_to64();
    let next = (bits + 0x10_0000_0000_0000) as u64;
    let e = bits / 0x10_0000_0000_0000;
    let f = (bits % 0x10_0000_0000_0000) as nat;
    assert(next / 0x10_0000_0000_0000 == e + 1);
    assert(next % 0x10_0000_0000_0000 == f);
    assert(e < 0x7fe);
    assert(bits == e * 0x10_0000_0000_0000 + f);
    if bits < 0x20_0000_0000_0000 {
        assert(pow2(0) == 1);
        assert((0x10_0000_0000_0000 + f) * 1 == 0x10_0000_0000_0000 + f);
        if e == 0 {
            assert(f64_size(bits) == f);
        } else {
            assert(e == 1);
            assert(f64_size(bits) == (0x10_0000_0000_0000 + f) * pow2(0));
        }
    }
    if e > 0 {
        lemma_pow2_unfold(e as nat);
        let p = pow2((e - 1) as nat) as int;
        assert((0x10_0000_0000_0000 + f) * (2 * p) == 2 * ((0x10_0000_0000_0000 + f) * p)) by (nonlinear_arith);
    }
}

/// One is the same number as an integer and as a double.
pub proof fn lemma_one()
    ensures
        NumberView::Float(0x3ff0_0000_0000_0000).units() == NumberView::PosInt(1).units(),
{
    lemma2_to64_rest();
    lemma2_to64();
    lemma_pow2_adds(52, 1022);
    assert(0x3ff0_0000_0000_0000u64 / 0x10_0000_0000_0000 == 0x3ff);
    assert(0x3ff0_0000_0000_0000u64 % 0x10_0000_0000_0000 == 0);
    assert(pow2(52) == 0x10_0000_0000_0000);
    assert(pow2(52) * pow2(1022) == pow2(1074));
    assert((0x10_0000_0000_0000nat + 0) * pow2(1022) == pow2(1074));
    assert(f64_size(0x3ff0_0000_0000_0000) == (0x10_0000_0000_0000nat + 0) * pow2(1022));
    assert(nearest_f64(1) * unit() == unit()) by (nonlinear_arith)
        requires
            nearest_f64(1) == 1,
    ;
}

/// Rounding gives a multiple of the step that is no further than half a step
/// away, and halfway between two of them the even one.
pub proof fn lemma_rounding(n: nat, step: nat)
    requires
        step > 0,
    ensures
        2 * (round_half_even(n, step) - n) <= step,
        2 * (n - round_half_even(n, step)) <= step,
        exists|k: int| #[trigger]
            times(k, step as int) == round_half_even(n, step) && (2 * (round_half_even(n, step) - n) == step || 2 * (n
                - round_half_even(n, step)) == step ==> k % 2 == 0),
{
    let q = (n / step) as int;
    let over = (n % step) as int;
    let s = step as int;
    lemma_fundamental_div_mod(n as int, s);
    assert(q * s + over == n) by (nonlinear_arith)
        requires
            n == s * q + over,
    ;
    assert((q + 1) * s == q * s + s) by (nonlinear_arith);
    assert(times(q, s) == q * s);
    assert(times(q + 1, s) == (q + 1) * s);
    if 2 * over < step || (2 * over == step && q % 2 == 0) {
        assert(round_half_even(n, step) == times(q, s));
    } else {
        assert(round_half_even(n, step) == times(q + 1, s));
    }
}

/// An integer of at most 53 bits is its own double; a longer one is rounded to
/// a multiple of the power of two that leaves 53 bits.
pub proof fn lemma_nearest_double(n: nat)
    ensures
        n < 0x20_0000_0000_0000 ==> nearest_f64(n) == n,
        n >= 0x20_0000_0000_0000 ==> {
            let step = pow2((log(2, n as int) - 52) as nat);
            &&& 2 * (nearest_f64(n) - n) <= step
            &&& 2 * (n - nearest_f64(n)) <= step
            &&& exists|k: int| #[trigger] times(k, step as int) == nearest_f64(n)
        },
{
    if n >= 0x20_0000_0000_0000 {
        let e = (log(2, n as int) - 52) as nat;
        lemma_pow2_pos(e);
        lemma_rounding(n, pow2(e));
    }
}

} // verus!
