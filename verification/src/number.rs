//! JSON numbers.
//!
//! A number is an unsigned integer, a negative integer or an IEEE-754 double.
//! Doubles are spoken of by their bit pattern and by the exact real number that
//! the pattern stands for, counted in units of 2^-1074: every finite double is
//! a whole number of those units, so comparisons of doubles are comparisons of
//! integers.
use vstd::prelude::*;
use vstd::arithmetic::logarithm::log;
use vstd::arithmetic::power2::*;
use vstd::arithmetic::mul::*;
use vstd::arithmetic::div_mod::*;

verus! {

/// The contents of a JSON number.
pub enum NumberView {
    /// An integer from zero to `u64::MAX`.
    PosInt(u64),
    /// An integer below zero.
    NegInt(i64),
    /// A finite double, by its bit pattern.
    Float(u64),
}

/// The number of the smallest positive doubles that make up one.
pub open spec fn unit() -> nat {
    pow2(1074)
}

/// The exponent field of a bit pattern.
pub open spec fn exponent_field(bits: u64) -> nat {
    ((bits / 0x10_0000_0000_0000) % 0x800) as nat
}

/// The fraction field of a bit pattern.
pub open spec fn fraction_field(bits: u64) -> nat {
    (bits % 0x10_0000_0000_0000) as nat
}

/// The size of the double with this bit pattern, in units of 2^-1074.
pub open spec fn f64_size(bits: u64) -> nat {
    if exponent_field(bits) == 0 {
        fraction_field(bits)
    } else {
        (0x10_0000_0000_0000 + fraction_field(bits)) * pow2((exponent_field(bits) - 1) as nat)
    }
}

/// The double with this bit pattern, in units of 2^-1074.
pub open spec fn f64_real(bits: u64) -> int {
    if bits < 0x8000_0000_0000_0000 {
        f64_size(bits) as int
    } else {
        -f64_size(bits)
    }
}

/// Whether the bit pattern is neither an infinity nor a NaN.
pub open spec fn f64_finite(bits: u64) -> bool {
    exponent_field(bits) < 0x7ff
}

/// The multiple of `step` nearest to `n`; halfway between two, the even multiple.
pub open spec fn round_half_even(n: nat, step: nat) -> nat {
    let low = (n / step) as nat;
    let over = n % step;
    if 2 * over < step || (2 * over == step && low % 2 == 0) {
        low * step
    } else {
        (low + 1) * step
    }
}

/// The integer nearest to `n` that a double's 53-bit significand can hold.
pub open spec fn nearest_f64(n: nat) -> nat {
    if n < 0x20_0000_0000_0000 {
        n
    } else {
        round_half_even(n, pow2((log(2, n as int) - 52) as nat))
    }
}

impl NumberView {
    /// The integer, where the number is one from zero to `u64::MAX`.
    pub open spec fn as_u64(self) -> Option<u64> {
        match self {
            NumberView::PosInt(n) => Some(n),
            _ => None,
        }
    }

    /// The integer, where the number is one from `i64::MIN` to `i64::MAX`.
    pub open spec fn as_i64(self) -> Option<i64> {
        match self {
            NumberView::PosInt(n) => if n <= i64::MAX { Some(n as i64) } else { None },
            NumberView::NegInt(n) => Some(n),
            NumberView::Float(_) => None,
        }
    }

    /// The double nearest to the number, in units of 2^-1074.
    pub open spec fn units(self) -> int {
        match self {
            NumberView::PosInt(n) => (nearest_f64(n as nat) * unit()) as int,
            NumberView::NegInt(n) => -(nearest_f64((-n) as nat) * unit()),
            NumberView::Float(bits) => f64_real(bits),
        }
    }

    /// Whether the number is an integer or a double without a fractional part.
    pub open spec fn is_whole(self) -> bool {
        match self {
            NumberView::Float(bits) => f64_size(bits) % unit() == 0,
            _ => true,
        }
    }

    /// Number equality: the same integer, or doubles of equal value. An
    /// integer and a double are never equal.
    pub open spec fn same(self, other: NumberView) -> bool {
        match (self, other) {
            (NumberView::PosInt(a), NumberView::PosInt(b)) => a == b,
            (NumberView::NegInt(a), NumberView::NegInt(b)) => a == b,
            (NumberView::Float(a), NumberView::Float(b)) => f64_real(a) == f64_real(b),
            _ => false,
        }
    }

    /// What every number satisfies: a negative integer is below zero and a double is finite.
    pub open spec fn wf(self) -> bool {
        match self {
            NumberView::PosInt(_) => true,
            NumberView::NegInt(n) => n < 0,
            NumberView::Float(bits) => f64_finite(bits),
        }
    }
}

// ---------------------------------------------------------------------------
// serde_json's number
// ---------------------------------------------------------------------------

/// serde_json's number type.
#[verifier::external_type_specification]
#[verifier::external_body]
pub struct ExSerdeNumber(serde_json::Number);

/// What a `serde_json::Number` holds.
pub uninterp spec fn number_of(n: serde_json::Number) -> NumberView;

/// How `std` displays the double nearest to a number.
pub uninterp spec fn f64_text(n: NumberView) -> Seq<char>;

/// `serde_json::Number::as_u64`: the integer, if the number is one from zero to `u64::MAX`.
#[verifier::external_body]
fn serde_as_u64(n: &serde_json::Number) -> (r: Option<u64>)
    ensures
        r == number_of(*n).as_u64(),
{
    n.as_u64()
}

/// `serde_json::Number::as_i64`: the integer, if the number is one from `i64::MIN` to `i64::MAX`.
#[verifier::external_body]
fn serde_as_i64(n: &serde_json::Number) -> (r: Option<i64>)
    ensures
        r == number_of(*n).as_i64(),
{
    n.as_i64()
}

/// `serde_json::Number::as_f64`, handed out as a bit pattern: a double is
/// returned as it is and an integer is rounded to the nearest double, ties to
/// even. There is always a result, and it is finite.
#[verifier::external_body]
fn serde_as_f64(n: &serde_json::Number) -> (r: Option<u64>)
    ensures
        r is Some,
        f64_real(r->0) == number_of(*n).units(),
        f64_finite(r->0),
        number_of(*n) matches NumberView::Float(bits) ==> r->0 == bits,
{
    match n.as_f64() {
        Some(x) => Some(x.to_bits()),
        None => None,
    }
}

/// `serde_json::Number::as_f64` followed by the display of the double. Nothing
/// is said of the text but that it is determined by the number.
#[verifier::external_body]
fn serde_f64_text(n: &serde_json::Number) -> (r: String)
    ensures
        r@ == f64_text(number_of(*n)),
{
    format!("{}", n.as_f64().unwrap())
}

/// `serde_json::Number::from` on an unsigned integer holds that integer.
#[verifier::external_body]
fn serde_from_u64(n: u64) -> (r: serde_json::Number)
    ensures
        number_of(r) == NumberView::PosInt(n),
{
    serde_json::Number::from(n)
}

/// `serde_json::Number::from` on a signed integer holds that integer.
#[verifier::external_body]
fn serde_from_i64(n: i64) -> (r: serde_json::Number)
    ensures
        number_of(r) == (if n < 0 { NumberView::NegInt(n) } else { NumberView::PosInt(n as u64) }),
{
    serde_json::Number::from(n)
}

/// `serde_json::Number::clone` holds what the number holds.
#[verifier::external_body]
fn serde_clone(n: &serde_json::Number) -> (r: serde_json::Number)
    ensures
        number_of(r) == number_of(*n),
{
    n.clone()
}

/// `==` of `serde_json::Number`: integers are equal when they are the same
/// integer, doubles when they have the same value, and an integer and a double
/// are never equal.
#[verifier::external_body]
fn serde_eq(a: &serde_json::Number, b: &serde_json::Number) -> (r: bool)
    ensures
        r == number_of(*a).same(number_of(*b)),
{
    a == b
}

// ---------------------------------------------------------------------------
// Numbers
// ---------------------------------------------------------------------------

/// A JSON number.
#[derive(Debug, PartialEq, Eq)]
pub struct JsonNumber {
    raw: serde_json::Number,
}

impl View for JsonNumber {
    type V = NumberView;

    closed spec fn view(&self) -> NumberView {
        number_of(self.raw)
    }
}

impl JsonNumber {
    /// The number that a serde_json number holds.
    pub fn from_serde(raw: serde_json::Number) -> (r: JsonNumber)
        ensures
            r@ == number_of(raw),
    {
        JsonNumber { raw }
    }

    /// The serde_json number that holds this number.
    pub fn to_serde(&self) -> (r: serde_json::Number)
        ensures
            number_of(r) == self@,
    {
        serde_clone(&self.raw)
    }

    pub fn from_u64(n: u64) -> (r: JsonNumber)
        ensures
            r@ == NumberView::PosInt(n),
    {
        JsonNumber { raw: serde_from_u64(n) }
    }

    pub fn from_i64(n: i64) -> (r: JsonNumber)
        ensures
            r@ == integer_number(n),
    {
        JsonNumber { raw: serde_from_i64(n) }
    }

    /// The integer, if the number is one from zero to `u64::MAX`.
    pub fn as_u64(&self) -> (r: Option<u64>)
        ensures
            r == self@.as_u64(),
    {
        serde_as_u64(&self.raw)
    }

    /// The integer, if the number is one from `i64::MIN` to `i64::MAX`.
    pub fn as_i64(&self) -> (r: Option<i64>)
        ensures
            r == self@.as_i64(),
    {
        serde_as_i64(&self.raw)
    }

    /// Whether the double nearest to this number is below the double nearest to `other`.
    pub fn less(&self, other: &JsonNumber) -> (r: bool)
        ensures
            r == (self@.units() < other@.units()),
    {
        match (serde_as_f64(&self.raw), serde_as_f64(&other.raw)) {
            (Some(a), Some(b)) => f64_less(a, b),
            _ => false,
        }
    }

    /// Whether the number is an integer or a double without a fractional part.
    pub fn is_whole(&self) -> (r: bool)
        ensures
            r == self@.is_whole(),
    {
        if self.as_i64().is_some() || self.as_u64().is_some() {
            return true;
        }
        match serde_as_f64(&self.raw) {
            Some(bits) => f64_whole(bits),
            None => false,
        }
    }

    /// Number equality.
    pub fn same(&self, other: &JsonNumber) -> (r: bool)
        ensures
            r == self@.same(other@),
    {
        serde_eq(&self.raw, &other.raw)
    }

    /// The display of the double nearest to this number.
    pub fn f64_text(&self) -> (r: String)
        ensures
            r@ == f64_text(self@),
    {
        serde_f64_text(&self.raw)
    }
}

impl Clone for JsonNumber {
    fn clone(&self) -> (r: JsonNumber)
        ensures
            r@ == self@,
    {
        JsonNumber { raw: serde_clone(&self.raw) }
    }
}

/// The number that holds a signed integer.
pub open spec fn integer_number(n: i64) -> NumberView {
    if n < 0 {
        NumberView::NegInt(n)
    } else {
        NumberView::PosInt(n as u64)
    }
}

// ---------------------------------------------------------------------------
// Doubles by their bit patterns
// ---------------------------------------------------------------------------

proof fn lemma_size_step(a: u64)
    requires
        a < 0x7fff_ffff_ffff_ffff,
    ensures
        f64_size(a) < f64_size((a + 1) as u64),
{
    let b = (a + 1) as u64;
    let e = exponent_field(a);
    let m = fraction_field(a);
    if m + 1 < 0x10_0000_0000_0000 {
        assert(exponent_field(b) == e && fraction_field(b) == m + 1);
        if e > 0 {
            lemma_pow2_pos((e - 1) as nat);
            let p = pow2((e - 1) as nat);
            assert((0x10_0000_0000_0000 + m) * p < (0x10_0000_0000_0000 + (m + 1)) * p) by (nonlinear_arith)
                requires
                    p > 0,
            ;
        }
    } else {
        assert(exponent_field(b) == e + 1 && fraction_field(b) == 0);
        lemma_pow2_pos(e);
        if e > 0 {
            let p = pow2((e - 1) as nat);
            lemma_pow2_pos((e - 1) as nat);
            lemma_pow2_unfold(e);
            assert(pow2(e) == 2 * p);
            assert((0x10_0000_0000_0000 + m) * p < 0x10_0000_0000_0000 * (2 * p)) by (nonlinear_arith)
                requires
                    m + 1 == 0x10_0000_0000_0000,
                    p > 0,
            ;
            assert(f64_size(a) == (0x10_0000_0000_0000 + m) * p);
            assert(f64_size(b) == 0x10_0000_0000_0000 * pow2(e));
        } else {
            lemma2_to64();
            assert(pow2(0) == 1);
            assert(f64_size(b) == 0x10_0000_0000_0000 * pow2(0));
        }
    }
}

/// Doubles without a sign grow with their bit patterns.
pub proof fn lemma_size_monotone(a: u64, b: u64)
    requires
        a < b <= 0x7fff_ffff_ffff_ffff,
    ensures
        f64_size(a) < f64_size(b),
    decreases b - a,
{
    lemma_size_step(a);
    if a + 1 < b {
        lemma_size_monotone((a + 1) as u64, b);
    }
}

proof fn lemma_size_ignores_sign(bits: u64)
    requires
        bits >= 0x8000_0000_0000_0000,
    ensures
        f64_size(bits) == f64_size((bits - 0x8000_0000_0000_0000) as u64),
{
    let low = (bits - 0x8000_0000_0000_0000) as u64;
    assert(bits / 0x10_0000_0000_0000 == low / 0x10_0000_0000_0000 + 0x800);
    assert(bits % 0x10_0000_0000_0000 == low % 0x10_0000_0000_0000);
    assert((bits / 0x10_0000_0000_0000) % 0x800 == (low / 0x10_0000_0000_0000) % 0x800);
}

/// Whether the double `a` is below the double `b`.
pub fn f64_less(a: u64, b: u64) -> (r: bool)
    ensures
        r == (f64_real(a) < f64_real(b)),
{
    let sign: u64 = 0x8000_0000_0000_0000;
    let ka: i64 = if a < sign { a as i64 } else { -((a - sign) as i64) };
    let kb: i64 = if b < sign { b as i64 } else { -((b - sign) as i64) };
    proof {
        let za = if a < sign { a } else { (a - sign) as u64 };
        let zb = if b < sign { b } else { (b - sign) as u64 };
        if a >= sign {
            lemma_size_ignores_sign(a);
        }
        if b >= sign {
            lemma_size_ignores_sign(b);
        }
        assert(f64_size(0) == 0);
        if za > 0 {
            lemma_size_monotone(0, za);
        }
        if zb > 0 {
            lemma_size_monotone(0, zb);
        }
        if za < zb {
            lemma_size_monotone(za, zb);
        } else if zb < za {
            lemma_size_monotone(zb, za);
        }
    }
    ka < kb
}

/// Whether the double has no fractional part.
pub fn f64_whole(bits: u64) -> (r: bool)
    ensures
        r == (f64_size(bits) % unit() == 0),
{
    let e: u64 = (bits / 0x10_0000_0000_0000) % 0x800;
    let m: u64 = bits % 0x10_0000_0000_0000;
    proof {
        lemma_pow2_pos(1074);
    }
    if e >= 1075 {
        proof {
            let s: nat = 0x10_0000_0000_0000 + m as nat;
            lemma_pow2_adds((e - 1075) as nat, 1074);
            let k = pow2((e - 1075) as nat);
            assert(s * (k * unit()) == (s * k) * unit()) by {
                lemma_mul_is_associative(s as int, k as int, unit() as int);
            }
            lemma_mod_multiples_basic((s * k) as int, unit() as int);
        }
        true
    } else if e < 1023 {
        proof {
            lemma_small_size(bits);
            lemma_small_mod(f64_size(bits), unit());
            if e > 0 {
                lemma_pow2_pos((e - 1) as nat);
                assert((0x10_0000_0000_0000 + m) * pow2((e - 1) as nat) > 0) by (nonlinear_arith)
                    requires
                        pow2((e - 1) as nat) > 0,
                ;
            }
        }
        e == 0 && m == 0
    } else {
        let shift: u64 = 1075 - e;
        let step: u64 = 1u64 << shift;
        proof {
            let s: nat = 0x10_0000_0000_0000 + m as nat;
            let p = pow2((e - 1) as nat);
            lemma2_to64();
            lemma2_to64_rest();
            lemma_pow2_strictly_increases(shift as nat, 63);
            assert(1 * pow2(shift as nat) <= u64::MAX);
            vstd::bits::lemma_u64_shl_is_mul(1, shift);
            assert(step == pow2(shift as nat));
            lemma_pow2_pos((e - 1) as nat);
            lemma_pow2_pos(shift as nat);
            lemma_pow2_adds((e - 1) as nat, shift as nat);
            assert(unit() == p * pow2(shift as nat));
            lemma_truncate_middle(s as int, p as int, pow2(shift as nat) as int);
            lemma_mul_is_commutative(s as int, p as int);
            let low = s as int % pow2(shift as nat) as int;
            assert((p * low == 0) <==> low == 0) by (nonlinear_arith)
                requires
                    p > 0,
                    low >= 0,
            ;
        }
        (0x10_0000_0000_0000 + m) % step == 0
    }
}

/// A double with an exponent field below 1023 is smaller than one.
proof fn lemma_small_size(bits: u64)
    requires
        exponent_field(bits) < 1023,
    ensures
        f64_size(bits) < unit(),
{
    let e = exponent_field(bits);
    let m = fraction_field(bits);
    lemma2_to64_rest();
    lemma2_to64();
    if e == 0 {
        lemma_pow2_strictly_increases(52, 1074);
        assert(pow2(52) == 0x10_0000_0000_0000);
    } else {
        let p = pow2((e - 1) as nat);
        lemma_pow2_pos((e - 1) as nat);
        lemma_pow2_adds(53, (e - 1) as nat);
        assert(pow2(53) == 0x20_0000_0000_0000);
        assert((0x10_0000_0000_0000 + m) * p < 0x20_0000_0000_0000 * p) by (nonlinear_arith)
            requires
                m < 0x10_0000_0000_0000,
                p > 0,
        ;
        assert(53 + (e - 1) < 1075);
        if 53 + (e - 1) < 1074 {
            lemma_pow2_strictly_increases((53 + (e - 1)) as nat, 1074);
        }
    }
}

} // verus!
