//! Exact decimal amounts, held as a mantissa and a scale.

use rust_decimal::Decimal;
use vstd::prelude::*;

verus! {

/// Largest number of digits after the decimal point.
pub const MAX_SCALE: u32 = 28;

/// Largest magnitude of a mantissa (2^96 - 1).
pub const MAX_MANTISSA: i128 = 0xffff_ffff_ffff_ffff_ffff_ffff;

pub open spec fn pow10(n: nat) -> int
    decreases n,
{
    if n == 0 {
        1
    } else {
        10 * pow10((n - 1) as nat)
    }
}

/// Number of distinct mantissa magnitudes (2^96).
pub open spec fn mantissa_span() -> int {
    MAX_MANTISSA + 1
}

/// A signed decimal number `mantissa / 10^scale`.
#[derive(Clone, Copy, Debug)]
pub struct Amount {
    pub mantissa: i128,
    pub scale: u32,
}

/// A value given in units of 10^-28 can be written with a mantissa of at most 96 bits
/// at the given scale (or any smaller one that holds it exactly).
pub open spec fn within(units: int, scale: nat) -> bool {
    scale <= MAX_SCALE && -mantissa_span() * pow10((MAX_SCALE - scale) as nat) < units
        < mantissa_span() * pow10((MAX_SCALE - scale) as nat)
}

pub open spec fn max_scale(a: Amount, b: Amount) -> nat {
    if a.scale >= b.scale {
        a.scale as nat
    } else {
        b.scale as nat
    }
}

/// What rust_decimal's checked addition returns on two decimals, as (mantissa, scale).
pub uninterp spec fn decimal_sum(am: i128, ascale: u32, bm: i128, bscale: u32) -> Option<(i128, u32)>;

/// What rust_decimal's checked subtraction returns on two decimals, as (mantissa, scale).
pub uninterp spec fn decimal_difference(am: i128, ascale: u32, bm: i128, bscale: u32) -> Option<(i128, u32)>;

pub open spec fn as_parts(r: Option<Amount>) -> Option<(i128, u32)> {
    match r {
        Some(c) => Some((c.mantissa, c.scale)),
        None => None,
    }
}

pub open spec fn from_parts(p: (i128, u32)) -> Amount {
    Amount { mantissa: p.0, scale: p.1 }
}

/// The amount of the given value (in units of 10^-28) written at scale `s`.
pub open spec fn exact_at(units: int, s: nat) -> Amount {
    Amount { mantissa: (units / pow10((MAX_SCALE - s) as nat)) as i128, scale: s as u32 }
}

/// `c` rewritten at the larger scale `s`, where the mantissa still fits; else `c` itself.
pub open spec fn normalized(c: Amount, s: nat) -> Amount {
    let m = c.mantissa * pow10((s - c.scale) as nat);
    if -MAX_MANTISSA <= m <= MAX_MANTISSA {
        Amount { mantissa: m as i128, scale: s as u32 }
    } else {
        c
    }
}

/// Decimal addition: exact at the larger scale wherever the result fits there,
/// else what rust_decimal gives.
pub open spec fn sum_of(a: Amount, b: Amount) -> Option<Amount> {
    let s = max_scale(a, b);
    if within(a.units() + b.units(), s) {
        Some(exact_at(a.units() + b.units(), s))
    } else {
        match decimal_sum(a.mantissa, a.scale, b.mantissa, b.scale) {
            Some(p) => Some(normalized(from_parts(p), s)),
            None => None,
        }
    }
}

/// Decimal subtraction: exact at the larger scale wherever the result fits there,
/// else what rust_decimal gives.
pub open spec fn difference_of(a: Amount, b: Amount) -> Option<Amount> {
    let s = max_scale(a, b);
    if within(a.units() - b.units(), s) {
        Some(exact_at(a.units() - b.units(), s))
    } else {
        match decimal_difference(a.mantissa, a.scale, b.mantissa, b.scale) {
            Some(p) => Some(normalized(from_parts(p), s)),
            None => None,
        }
    }
}

impl Amount {
    /// The amount can be turned into a `rust_decimal::Decimal` as it is.
    pub open spec fn wf(self) -> bool {
        self.scale <= MAX_SCALE && -MAX_MANTISSA <= self.mantissa <= MAX_MANTISSA
    }

    /// The value in units of 10^-28: every decimal of scale at most 28 is a whole number of them.
    pub open spec fn units(self) -> int {
        self.mantissa * pow10((MAX_SCALE - self.scale) as nat)
    }

    /// `a + b`, or `a` itself when the sum overflows.
    pub open spec fn plus(self, b: Amount) -> Amount {
        match sum_of(self, b) {
            Some(c) => c,
            None => self,
        }
    }

    /// `a - b`, or `a` itself when the difference overflows.
    pub open spec fn minus(self, b: Amount) -> Amount {
        match difference_of(self, b) {
            Some(c) => c,
            None => self,
        }
    }

    /// Builds `mantissa / 10^scale`; `None` when that is no valid decimal.
    pub fn new(mantissa: i128, scale: u32) -> (r: Option<Amount>)
        ensures
            r matches Some(c) <==> (Amount { mantissa, scale }).wf(),
            r matches Some(c) ==> c.mantissa == mantissa && c.scale == scale,
    {
        if scale <= MAX_SCALE && -MAX_MANTISSA <= mantissa && mantissa <= MAX_MANTISSA {
            Some(Amount { mantissa, scale })
        } else {
            None
        }
    }

    /// Zero, written with one decimal place.
    pub fn zero() -> (r: Amount)
        ensures
            r.wf(),
            r.units() == 0,
            r == (Amount { mantissa: 0, scale: 1 }),
    {
        Amount { mantissa: 0, scale: 1 }
    }

    pub fn is_negative(&self) -> (r: bool)
        ensures
            r == (self.units() < 0),
    {
        proof {
            lemma_pow10_positive((MAX_SCALE - self.scale) as nat);
            lemma_sign_of_units(*self);
        }
        self.mantissa < 0
    }

    /// Numeric comparison, whatever the scales.
    pub fn less_than(&self, other: &Amount) -> (r: bool)
        requires
            self.wf(),
            other.wf(),
        ensures
            r == (self.units() < other.units()),
    {
        decimal_less(*self, *other)
    }

    /// The sum, written at the larger of the two scales where it fits there.
    pub fn checked_add(&self, other: &Amount) -> (r: Option<Amount>)
        requires
            self.wf(),
            other.wf(),
        ensures
            r == sum_of(*self, *other),
            r matches Some(c) ==> c.wf() && c.scale <= max_scale(*self, *other),
    {
        let s = if self.scale >= other.scale { self.scale } else { other.scale };
        match decimal_add(*self, *other) {
            Some(c) => {
                let n = normalize(c, s);
                proof {
                    if within(self.units() + other.units(), s as nat) {
                        lemma_normalized_exact(c, s as nat);
                    }
                }
                Some(n)
            },
            None => None,
        }
    }

    /// The difference, written at the larger of the two scales where it fits there.
    pub fn checked_sub(&self, other: &Amount) -> (r: Option<Amount>)
        requires
            self.wf(),
            other.wf(),
        ensures
            r == difference_of(*self, *other),
            r matches Some(c) ==> c.wf() && c.scale <= max_scale(*self, *other),
    {
        let s = if self.scale >= other.scale { self.scale } else { other.scale };
        match decimal_sub(*self, *other) {
            Some(c) => {
                let n = normalize(c, s);
                proof {
                    if within(self.units() - other.units(), s as nat) {
                        lemma_normalized_exact(c, s as nat);
                    }
                }
                Some(n)
            },
            None => None,
        }
    }
}

/// 10^n, for n up to the largest scale.
fn power_of_ten(n: u32) -> (r: i128)
    requires
        n <= MAX_SCALE,
    ensures
        r == pow10(n as nat),
{
    proof {
        reveal_with_fuel(pow10, 29);
    }
    let mut r: i128 = 1;
    let mut i: u32 = 0;
    while i < n
        invariant
            i <= n <= MAX_SCALE,
            r == pow10(i as nat),
            pow10(28) == 10000000000000000000000000000,
        decreases n - i,
    {
        proof {
            lemma_pow10_monotone((i + 1) as nat, 28);
            assert(pow10((i + 1) as nat) == 10 * pow10(i as nat));
            assert(r * 10 <= pow10(28));
            lemma_pow10_positive(i as nat);
        }
        r = r * 10;
        i = i + 1;
    }
    r
}

/// Rewrites `c` at the larger scale `s` where the mantissa still fits.
fn normalize(c: Amount, s: u32) -> (r: Amount)
    requires
        c.wf(),
        c.scale <= s <= MAX_SCALE,
    ensures
        r == normalized(c, s as nat),
        r.wf(),
        r.scale <= s,
{
    let k = power_of_ten(s - c.scale);
    match c.mantissa.checked_mul(k) {
        Some(m) => {
            if -MAX_MANTISSA <= m && m <= MAX_MANTISSA {
                Amount { mantissa: m, scale: s }
            } else {
                c
            }
        },
        None => {
            proof {
                lemma_pow10_positive((s - c.scale) as nat);
                let p = pow10((s - c.scale) as nat);
                let cm = c.mantissa as int;
                assert(!(-MAX_MANTISSA <= cm * p <= MAX_MANTISSA)) by (nonlinear_arith)
                    requires
                        !(i128::MIN <= cm * p <= i128::MAX),
                        p >= 1,
                ;
            }
            c
        },
    }
}

/// A valid amount written at a larger scale `s`: its units are a whole number of 10^(28 - s).
pub proof fn lemma_units_at(a: Amount, s: nat)
    requires
        a.scale <= s <= MAX_SCALE,
    ensures
        a.units() == (a.mantissa * pow10((s - a.scale) as nat)) * pow10((MAX_SCALE - s) as nat),
{
    let d = (s - a.scale) as nat;
    let e = (MAX_SCALE - s) as nat;
    lemma_pow10_add(d, e);
    assert(d + e == (MAX_SCALE - a.scale) as nat);
    let am = a.mantissa as int;
    assert(am * (pow10(d) * pow10(e)) == (am * pow10(d)) * pow10(e)) by (nonlinear_arith);
}

/// Where the value `m * 10^(28 - s)` fits at scale `s`, that scale writes it exactly.
pub proof fn lemma_exact_at(m: int, s: nat)
    requires
        s <= MAX_SCALE,
        within(m * pow10((MAX_SCALE - s) as nat), s),
    ensures
        exact_at(m * pow10((MAX_SCALE - s) as nat), s).units() == m * pow10((MAX_SCALE - s) as nat),
        exact_at(m * pow10((MAX_SCALE - s) as nat), s).wf(),
        exact_at(m * pow10((MAX_SCALE - s) as nat), s).scale == s,
{
    let pe = pow10((MAX_SCALE - s) as nat);
    lemma_pow10_positive((MAX_SCALE - s) as nat);
    vstd::arithmetic::div_mod::lemma_div_multiples_vanish(m, pe);
    assert(pe * m == m * pe) by (nonlinear_arith);
    let k = mantissa_span();
    assert(-k < m < k) by (nonlinear_arith)
        requires
            -k * pe < m * pe < k * pe,
            pe >= 1,
    ;
}

/// Where the sum fits at the larger scale, it is exact.
pub proof fn lemma_sum_exact(a: Amount, b: Amount)
    requires
        a.wf(),
        b.wf(),
        within(a.units() + b.units(), max_scale(a, b)),
    ensures
        sum_of(a, b) matches Some(c) && c.units() == a.units() + b.units() && c.wf() && c.scale
            == max_scale(a, b),
        a.plus(b).units() == a.units() + b.units(),
        a.plus(b).scale == max_scale(a, b),
        a.plus(b).wf(),
{
    let s = max_scale(a, b);
    lemma_units_at(a, s);
    lemma_units_at(b, s);
    let ma = a.mantissa * pow10((s - a.scale) as nat);
    let mb = b.mantissa * pow10((s - b.scale) as nat);
    let pe = pow10((MAX_SCALE - s) as nat);
    assert(ma * pe + mb * pe == (ma + mb) * pe) by (nonlinear_arith);
    lemma_exact_at(ma + mb, s);
}

/// Where the difference fits at the larger scale, it is exact.
pub proof fn lemma_difference_exact(a: Amount, b: Amount)
    requires
        a.wf(),
        b.wf(),
        within(a.units() - b.units(), max_scale(a, b)),
    ensures
        difference_of(a, b) matches Some(c) && c.units() == a.units() - b.units() && c.wf()
            && c.scale == max_scale(a, b),
        a.minus(b).units() == a.units() - b.units(),
        a.minus(b).scale == max_scale(a, b),
        a.minus(b).wf(),
{
    let s = max_scale(a, b);
    lemma_units_at(a, s);
    lemma_units_at(b, s);
    let ma = a.mantissa * pow10((s - a.scale) as nat);
    let mb = b.mantissa * pow10((s - b.scale) as nat);
    let pe = pow10((MAX_SCALE - s) as nat);
    assert(ma * pe - mb * pe == (ma - mb) * pe) by (nonlinear_arith);
    lemma_exact_at(ma - mb, s);
}

pub proof fn lemma_pow10_add(a: nat, b: nat)
    ensures
        pow10(a + b) == pow10(a) * pow10(b),
    decreases a,
{
    if a > 0 {
        lemma_pow10_add((a - 1) as nat, b);
        assert(pow10(a + b) == 10 * pow10((a - 1 + b) as nat));
        assert(10 * (pow10((a - 1) as nat) * pow10(b)) == (10 * pow10((a - 1) as nat)) * pow10(b)) by (nonlinear_arith);
    }
}

/// A result at a smaller scale whose value fits at scale `s` is rewritten there exactly.
proof fn lemma_normalized_exact(c: Amount, s: nat)
    requires
        c.wf(),
        c.scale <= s <= MAX_SCALE,
        within(c.units(), s),
    ensures
        normalized(c, s) == exact_at(c.units(), s),
        normalized(c, s).units() == c.units(),
{
    let d = (s - c.scale) as nat;
    let e = (MAX_SCALE - s) as nat;
    lemma_pow10_add(d, e);
    assert(d + e == (MAX_SCALE - c.scale) as nat);
    lemma_pow10_positive(d);
    lemma_pow10_positive(e);
    let pd = pow10(d);
    let pe = pow10(e);
    let cm = c.mantissa as int;
    let m = cm * pd;
    assert(c.units() == m * pe) by (nonlinear_arith)
        requires
            c.units() == cm * (pd * pe),
            m == cm * pd,
    ;
    let k = mantissa_span();
    assert(-k < m < k) by (nonlinear_arith)
        requires
            -k * pe < m * pe < k * pe,
            pe >= 1,
    ;
    vstd::arithmetic::div_mod::lemma_div_multiples_vanish(m, pe);
    assert(pe * m == m * pe) by (nonlinear_arith);
}

pub proof fn lemma_pow10_positive(n: nat)
    ensures
        pow10(n) >= 1,
    decreases n,
{
    if n > 0 {
        lemma_pow10_positive((n - 1) as nat);
    }
}

pub proof fn lemma_pow10_monotone(a: nat, b: nat)
    requires
        a <= b,
    ensures
        pow10(a) <= pow10(b),
    decreases b,
{
    if a < b {
        lemma_pow10_monotone(a, (b - 1) as nat);
        lemma_pow10_positive((b - 1) as nat);
    }
}

proof fn lemma_sign_of_units(a: Amount)
    requires
        pow10((MAX_SCALE - a.scale) as nat) >= 1,
    ensures
        (a.units() < 0) == (a.mantissa < 0),
{
    let p = pow10((MAX_SCALE - a.scale) as nat);
    if a.mantissa < 0 {
        assert(a.mantissa * p < 0) by (nonlinear_arith)
            requires
                a.mantissa < 0,
                p >= 1,
        ;
    } else {
        assert(a.mantissa * p >= 0) by (nonlinear_arith)
            requires
                a.mantissa >= 0,
                p >= 1,
        ;
    }
}

/// Bounds at a scale hold at every smaller scale.
pub proof fn lemma_within_smaller_scale(u: int, s: nat, t: nat)
    requires
        within(u, s),
        t <= s,
    ensures
        within(u, t),
{
    lemma_pow10_monotone((MAX_SCALE - s) as nat, (MAX_SCALE - t) as nat);
    let p = pow10((MAX_SCALE - s) as nat);
    let q = pow10((MAX_SCALE - t) as nat);
    let k = mantissa_span();
    assert(k * p <= k * q && -k * q <= -k * p) by (nonlinear_arith)
        requires
            p <= q,
            k > 0,
    ;
}

/// Relies on rust_decimal's `Decimal::from_i128_with_scale` (which accepts every valid amount)
/// and `Ord for Decimal`, which orders decimals by their numeric value.
#[verifier::external_body]
fn decimal_less(a: Amount, b: Amount) -> (r: bool)
    requires
        a.wf(),
        b.wf(),
    ensures
        r == (a.units() < b.units()),
{
    Decimal::from_i128_with_scale(a.mantissa, a.scale) < Decimal::from_i128_with_scale(b.mantissa, b.scale)
}

/// Relies on rust_decimal's `Decimal::checked_add`: `None` only on overflow; the exact sum when it
/// fits in 96 bits at the larger of the two scales; never a scale above the larger one.
#[verifier::external_body]
fn decimal_add(a: Amount, b: Amount) -> (r: Option<Amount>)
    requires
        a.wf(),
        b.wf(),
    ensures
        as_parts(r) == decimal_sum(a.mantissa, a.scale, b.mantissa, b.scale),
        r matches Some(c) ==> c.wf() && c.scale <= max_scale(a, b),
        r.is_some() || !within(a.units() + b.units(), max_scale(a, b)),
        r matches Some(c) ==> (c.units() == a.units() + b.units() || !within(a.units() + b.units(), max_scale(a, b))),
{
    let x = Decimal::from_i128_with_scale(a.mantissa, a.scale);
    let y = Decimal::from_i128_with_scale(b.mantissa, b.scale);
    match x.checked_add(y) {
        Some(d) => Some(Amount { mantissa: d.mantissa(), scale: d.scale() }),
        None => None,
    }
}

/// Relies on rust_decimal's `Decimal::checked_sub`: `None` only on overflow; the exact difference
/// when it fits in 96 bits at the larger of the two scales; never a scale above the larger one.
#[verifier::external_body]
fn decimal_sub(a: Amount, b: Amount) -> (r: Option<Amount>)
    requires
        a.wf(),
        b.wf(),
    ensures
        as_parts(r) == decimal_difference(a.mantissa, a.scale, b.mantissa, b.scale),
        r matches Some(c) ==> c.wf() && c.scale <= max_scale(a, b),
        r.is_some() || !within(a.units() - b.units(), max_scale(a, b)),
        r matches Some(c) ==> (c.units() == a.units() - b.units() || !within(a.units() - b.units(), max_scale(a, b))),
{
    let x = Decimal::from_i128_with_scale(a.mantissa, a.scale);
    let y = Decimal::from_i128_with_scale(b.mantissa, b.scale);
    match x.checked_sub(y) {
        Some(d) => Some(Amount { mantissa: d.mantissa(), scale: d.scale() }),
        None => None,
    }
}

} // verus!
