//! Exact signed decimal amounts, `mantissa / 10^scale`.
use vstd::prelude::*;

verus! {

/// The largest number of fractional digits that an amount carries.
pub const MAX_SCALE: u32 = 28;

pub open spec fn pow10(n: nat) -> int
    decreases n,
{
    if n == 0 {
        1
    } else {
        10 * pow10((n - 1) as nat)
    }
}

pub open spec fn fits_i128(x: int) -> bool {
    i128::MIN <= x <= i128::MAX
}

pub proof fn lemma_pow10_positive(n: nat)
    ensures
        pow10(n) >= 1,
    decreases n,
{
    if n > 0 {
        lemma_pow10_positive((n - 1) as nat);
    }
}

pub proof fn lemma_pow10_add(a: nat, b: nat)
    ensures
        pow10(a + b) == pow10(a) * pow10(b),
    decreases a,
{
    if a > 0 {
        lemma_pow10_add((a - 1) as nat, b);
        assert(pow10(a + b) == 10 * pow10((a - 1 + b) as nat));
        assert(10 * (pow10((a - 1) as nat) * pow10(b)) == (10 * pow10((a - 1) as nat)) * pow10(
            b,
        )) by (nonlinear_arith);
    }
}

/// A decimal number, `mantissa / 10^scale`, with at most `MAX_SCALE`
/// fractional digits.
#[derive(Clone, Copy, Debug, PartialEq, Eq, Structural)]
pub struct Amount {
    pub mantissa: i128,
    pub scale: u32,
}

/// The larger of the two scales: the scale at which two amounts are combined.
pub open spec fn common_scale(a: Amount, b: Amount) -> u32 {
    if a.scale >= b.scale {
        a.scale
    } else {
        b.scale
    }
}

/// The mantissa of `a` written at scale `s` (no smaller than `a.scale`).
pub open spec fn aligned(a: Amount, s: u32) -> int {
    a.mantissa * pow10((s - a.scale) as nat)
}

/// Exact sum, or `None` where the operands or the result leave `i128` at the
/// common scale.
pub open spec fn spec_add(a: Amount, b: Amount) -> Option<Amount> {
    let s = common_scale(a, b);
    let x = aligned(a, s);
    let y = aligned(b, s);
    if fits_i128(x) && fits_i128(y) && fits_i128(x + y) {
        Some(Amount { mantissa: (x + y) as i128, scale: s })
    } else {
        None
    }
}

/// Exact difference, or `None` where the operands or the result leave `i128`
/// at the common scale.
pub open spec fn spec_sub(a: Amount, b: Amount) -> Option<Amount> {
    let s = common_scale(a, b);
    let x = aligned(a, s);
    let y = aligned(b, s);
    if fits_i128(x) && fits_i128(y) && fits_i128(x - y) {
        Some(Amount { mantissa: (x - y) as i128, scale: s })
    } else {
        None
    }
}

impl Amount {
    pub open spec fn wf(self) -> bool {
        self.scale <= MAX_SCALE
    }

    /// The value, counted in units of `10^-MAX_SCALE`.
    pub open spec fn units(self) -> int {
        self.mantissa * pow10((MAX_SCALE - self.scale) as nat)
    }

    pub fn new(mantissa: i128, scale: u32) -> (r: Amount)
        requires
            scale <= MAX_SCALE,
        ensures
            r.wf(),
            r.mantissa == mantissa,
            r.scale == scale,
    {
        Amount { mantissa, scale }
    }

    pub fn zero() -> (r: Amount)
        ensures
            r.wf(),
            r.units() == 0,
            r == (Amount { mantissa: 0, scale: 0 }),
    {
        Amount { mantissa: 0, scale: 0 }
    }

    pub fn is_negative(&self) -> (r: bool)
        requires
            self.wf(),
        ensures
            r == (self.units() < 0),
    {
        proof {
            lemma_pow10_positive((MAX_SCALE - self.scale) as nat);
            lemma_sign_of_product(self.mantissa as int, pow10((MAX_SCALE - self.scale) as nat));
        }
        self.mantissa < 0
    }

    /// True when `self` is smaller in value than `other`.
    pub fn less_than(&self, other: &Amount) -> (r: bool)
        requires
            self.wf(),
            other.wf(),
        ensures
            r == (self.units() < other.units()),
    {
        let s = if self.scale >= other.scale { self.scale } else { other.scale };
        let x = scale_up(self.mantissa, s - self.scale);
        let y = scale_up(other.mantissa, s - other.scale);
        proof {
            lemma_aligned_units(*self, s);
            lemma_aligned_units(*other, s);
            lemma_pow10_positive((MAX_SCALE - s) as nat);
            lemma_order_of_scaled(aligned(*self, s), aligned(*other, s), pow10((MAX_SCALE - s) as nat));
            lemma_pow10_positive((s - self.scale) as nat);
            lemma_pow10_positive((s - other.scale) as nat);
            lemma_sign_of_product(self.mantissa as int, pow10((s - self.scale) as nat));
            lemma_sign_of_product(other.mantissa as int, pow10((s - other.scale) as nat));
            if self.scale == s {
                lemma_own_scale_aligned(*self, s);
            } else {
                lemma_own_scale_aligned(*other, s);
            }
        }
        match (x, y) {
            (Some(x), Some(y)) => x < y,
            (None, Some(_)) => self.mantissa < 0,
            (Some(_), None) => other.mantissa > 0,
            (None, None) => false,
        }
    }

    pub fn checked_add(&self, other: &Amount) -> (r: Option<Amount>)
        requires
            self.wf(),
            other.wf(),
        ensures
            r == spec_add(*self, *other),
            r matches Some(c) ==> c.wf() && c.units() == self.units() + other.units(),
    {
        let s = if self.scale >= other.scale { self.scale } else { other.scale };
        let x = scale_up(self.mantissa, s - self.scale);
        let y = scale_up(other.mantissa, s - other.scale);
        proof {
            lemma_add_units(*self, *other);
        }
        match (x, y) {
            (Some(x), Some(y)) => match x.checked_add(y) {
                Some(m) => Some(Amount { mantissa: m, scale: s }),
                None => None,
            },
            _ => None,
        }
    }

    pub fn checked_sub(&self, other: &Amount) -> (r: Option<Amount>)
        requires
            self.wf(),
            other.wf(),
        ensures
            r == spec_sub(*self, *other),
            r matches Some(c) ==> c.wf() && c.units() == self.units() - other.units(),
    {
        let s = if self.scale >= other.scale { self.scale } else { other.scale };
        let x = scale_up(self.mantissa, s - self.scale);
        let y = scale_up(other.mantissa, s - other.scale);
        proof {
            lemma_sub_units(*self, *other);
        }
        match (x, y) {
            (Some(x), Some(y)) => match x.checked_sub(y) {
                Some(m) => Some(Amount { mantissa: m, scale: s }),
                None => None,
            },
            _ => None,
        }
    }
}

proof fn lemma_sign_of_product(m: int, p: int)
    requires
        p >= 1,
    ensures
        (m * p < 0) == (m < 0),
        (m * p > 0) == (m > 0),
        (m * p == 0) == (m == 0),
{
    assert((m * p < 0) == (m < 0)) by (nonlinear_arith)
        requires
            p >= 1,
    ;
    assert((m * p > 0) == (m > 0)) by (nonlinear_arith)
        requires
            p >= 1,
    ;
    assert((m * p == 0) == (m == 0)) by (nonlinear_arith)
        requires
            p >= 1,
    ;
}

proof fn lemma_order_of_scaled(x: int, y: int, p: int)
    requires
        p >= 1,
    ensures
        (x * p < y * p) == (x < y),
{
    assert((x * p < y * p) == (x < y)) by (nonlinear_arith)
        requires
            p >= 1,
    ;
}

/// Writing an amount at a larger scale keeps its value.
proof fn lemma_aligned_units(a: Amount, s: u32)
    requires
        a.wf(),
        a.scale <= s <= MAX_SCALE,
    ensures
        aligned(a, s) * pow10((MAX_SCALE - s) as nat) == a.units(),
{
    let k = (s - a.scale) as nat;
    let j = (MAX_SCALE - s) as nat;
    lemma_pow10_add(k, j);
    assert((k + j) as nat == (MAX_SCALE - a.scale) as nat);
    assert(a.mantissa * pow10(k) * pow10(j) == a.mantissa * (pow10(k) * pow10(j)))
        by (nonlinear_arith);
}

/// At its own scale an amount's aligned mantissa is its mantissa.
proof fn lemma_own_scale_aligned(a: Amount, s: u32)
    requires
        a.scale == s,
    ensures
        aligned(a, s) == a.mantissa,
{
    assert(pow10(0) == 1);
}

pub proof fn lemma_add_units(a: Amount, b: Amount)
    requires
        a.wf(),
        b.wf(),
    ensures
        spec_add(a, b) matches Some(c) ==> c.wf() && c.units() == a.units() + b.units(),
{
    let s = common_scale(a, b);
    lemma_aligned_units(a, s);
    lemma_aligned_units(b, s);
    let p = pow10((MAX_SCALE - s) as nat);
    assert((aligned(a, s) + aligned(b, s)) * p == aligned(a, s) * p + aligned(b, s) * p)
        by (nonlinear_arith);
}

pub proof fn lemma_sub_units(a: Amount, b: Amount)
    requires
        a.wf(),
        b.wf(),
    ensures
        spec_sub(a, b) matches Some(c) ==> c.wf() && c.units() == a.units() - b.units(),
{
    let s = common_scale(a, b);
    lemma_aligned_units(a, s);
    lemma_aligned_units(b, s);
    let p = pow10((MAX_SCALE - s) as nat);
    assert((aligned(a, s) - aligned(b, s)) * p == aligned(a, s) * p - aligned(b, s) * p)
        by (nonlinear_arith);
}

/// Subtracting `b` and adding it back gives the value that was there before,
/// and the addition cannot overflow.
pub proof fn lemma_sub_then_add(a: Amount, b: Amount)
    requires
        a.wf(),
        b.wf(),
        spec_sub(a, b) is Some,
    ensures
        spec_add(spec_sub(a, b)->Some_0, b) is Some,
        spec_add(spec_sub(a, b)->Some_0, b)->Some_0.units() == a.units(),
{
    let c = spec_sub(a, b)->Some_0;
    let s = common_scale(a, b);
    assert(pow10(0) == 1);
    assert(aligned(c, s) == c.mantissa);
    lemma_sub_units(a, b);
    lemma_add_units(c, b);
}

/// Adding `b` and subtracting it again gives the value that was there
/// before, and the subtraction cannot overflow.
pub proof fn lemma_add_then_sub(a: Amount, b: Amount)
    requires
        a.wf(),
        b.wf(),
        spec_add(a, b) is Some,
    ensures
        spec_sub(spec_add(a, b)->Some_0, b) is Some,
        spec_sub(spec_add(a, b)->Some_0, b)->Some_0.units() == a.units(),
{
    let c = spec_add(a, b)->Some_0;
    let s = common_scale(a, b);
    assert(pow10(0) == 1);
    assert(aligned(c, s) == c.mantissa);
    lemma_add_units(a, b);
    lemma_sub_units(c, b);
}

/// `m * 10^k`, or `None` where that leaves `i128`.
fn scale_up(m: i128, k: u32) -> (r: Option<i128>)
    ensures
        r == (if fits_i128(m * pow10(k as nat)) {
            Some((m * pow10(k as nat)) as i128)
        } else {
            None::<i128>
        }),
{
    let mut cur: i128 = m;
    let mut i: u32 = 0;
    while i < k
        invariant
            i <= k,
            cur == m * pow10(i as nat),
        decreases k - i,
    {
        proof {
            assert(pow10((i + 1) as nat) == 10 * pow10(i as nat));
            assert(m * (10 * pow10(i as nat)) == (m * pow10(i as nat)) * 10) by (nonlinear_arith);
        }
        match cur.checked_mul(10) {
            Some(n) => {
                cur = n;
            },
            None => {
                proof {
                    let rest = (k - (i + 1)) as nat;
                    lemma_pow10_add((i + 1) as nat, rest);
                    lemma_pow10_positive(rest);
                    let x = m * pow10((i + 1) as nat);
                    assert(x * pow10(rest) == m * pow10(k as nat)) by (nonlinear_arith)
                        requires
                            pow10(((i + 1) as nat + rest) as nat) == pow10((i + 1) as nat) * pow10(rest),
                            ((i + 1) as nat + rest) as nat == k as nat,
                            x == m * pow10((i + 1) as nat),
                    ;
                    lemma_outside_stays_outside(x, pow10(rest));
                }
                return None;
            },
        }
        i = i + 1;
    }
    Some(cur)
}

proof fn lemma_outside_stays_outside(x: int, p: int)
    requires
        !fits_i128(x),
        p >= 1,
    ensures
        !fits_i128(x * p),
{
    if x > i128::MAX {
        assert(x * p >= x) by (nonlinear_arith)
            requires
                x > 0,
                p >= 1,
        ;
    } else {
        assert(x * p <= x) by (nonlinear_arith)
            requires
                x < 0,
                p >= 1,
        ;
    }
}

} // verus!
