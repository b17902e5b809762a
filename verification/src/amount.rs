//! Prices and quantities as exact decimal numbers.

use vstd::prelude::*;

verus! {

/// The largest number of decimal places that an amount can have.
pub const MAX_SCALE: u32 = 28;

/// How many of an amount's smallest steps make one whole unit.
pub const PARTS_PER_UNIT: u128 = 10_000_000_000_000_000_000_000_000_000;

/// `10` to the power of `n`.
pub open spec fn pow10(n: nat) -> nat
    decreases n,
{
    if n == 0 {
        1
    } else {
        10 * pow10((n - 1) as nat)
    }
}

/// A price or a quantity: `units` whole units, rounded down, and the rest in
/// steps of `1 / PARTS_PER_UNIT`. Every number has one such form, so that two
/// amounts are equal as numbers exactly when their fields are equal.
#[derive(Clone, Copy, Debug, PartialEq, Eq, Structural)]
pub struct Amount {
    pub units: i128,
    pub parts: u128,
}

/// The amount of no units at all.
pub open spec fn zero_amount() -> Amount {
    Amount { units: 0, parts: 0 }
}

/// The amount `mantissa / 10^scale`, where the scale is one that an amount has.
pub open spec fn amount_of(mantissa: i128, scale: u32) -> Option<Amount> {
    if scale <= MAX_SCALE {
        let divisor = pow10(scale as nat) as int;
        Some(
            Amount {
                units: (mantissa as int / divisor) as i128,
                parts: ((mantissa as int % divisor) * pow10((MAX_SCALE - scale) as nat)) as u128,
            },
        )
    } else {
        None
    }
}

impl Amount {
    /// The fractional part is less than a whole unit.
    pub open spec fn normal(self) -> bool {
        self.parts < PARTS_PER_UNIT
    }

    /// The number itself, counted in steps of `1 / PARTS_PER_UNIT`.
    pub open spec fn value(self) -> int {
        self.units * PARTS_PER_UNIT + self.parts
    }

    /// The order of amounts.
    pub open spec fn precedes(self, other: Amount) -> bool {
        self.units < other.units || (self.units == other.units && self.parts < other.parts)
    }

    /// The amount of no units at all.
    pub fn zero() -> (amount: Amount)
        ensures
            amount == zero_amount(),
    {
        Amount { units: 0, parts: 0 }
    }

    pub fn is_zero(&self) -> (yes: bool)
        ensures
            yes == (*self == zero_amount()),
    {
        self.units == 0 && self.parts == 0
    }

    /// Whether this amount comes before the other in their order.
    pub fn less_than(&self, other: &Amount) -> (yes: bool)
        ensures
            yes == self.precedes(*other),
    {
        self.units < other.units || (self.units == other.units && self.parts < other.parts)
    }

    /// The amount `mantissa / 10^scale`; none where the scale is too large.
    pub fn from_parts(mantissa: i128, scale: u32) -> (amount: Option<Amount>)
        ensures
            amount == amount_of(mantissa, scale),
    {
        if scale > MAX_SCALE {
            return None;
        }
        let divisor: u128 = power_of_ten(scale);
        let step: u128 = power_of_ten(MAX_SCALE - scale);
        proof {
            lemma_pow10_positive(scale as nat);
            lemma_pow10_positive((MAX_SCALE - scale) as nat);
            lemma_pow10_sum(scale as nat, (MAX_SCALE - scale) as nat);
            lemma_parts_per_unit();
        }
        let ghost d = divisor as int;
        if mantissa >= 0 {
            let whole: u128 = mantissa as u128;
            let rest: u128 = whole % divisor;
            proof {
                lemma_rest_fits(rest as int, d, step as int);
                lemma_quotient_bound(whole as int, d);
            }
            Some(Amount { units: (whole / divisor) as i128, parts: rest * step })
        } else {
            // mantissa = -1 - below, rounded down to a multiple of the divisor
            let below: u128 = (-(mantissa + 1)) as u128;
            let rest: u128 = divisor - 1 - below % divisor;
            proof {
                lemma_floor_of_negative(mantissa as int, below as int, d);
                lemma_rest_fits(rest as int, d, step as int);
                lemma_quotient_bound(below as int, d);
            }
            Some(Amount { units: -1 - (below / divisor) as i128, parts: rest * step })
        }
    }
}

/// `10` to the power of `n`, where it is at most `PARTS_PER_UNIT`.
fn power_of_ten(n: u32) -> (power: u128)
    requires
        n <= MAX_SCALE,
    ensures
        power == pow10(n as nat),
{
    let mut power: u128 = 1;
    let mut i: u32 = 0;
    proof {
        lemma_parts_per_unit();
    }
    while i < n
        invariant
            i <= n <= MAX_SCALE,
            power == pow10(i as nat),
            pow10(MAX_SCALE as nat) == PARTS_PER_UNIT,
        decreases n - i,
    {
        proof {
            lemma_pow10_monotonic((i + 1) as nat, MAX_SCALE as nat);
        }
        power = power * 10;
        i = i + 1;
    }
    power
}

proof fn lemma_pow10_positive(n: nat)
    ensures
        pow10(n) > 0,
    decreases n,
{
    if n > 0 {
        lemma_pow10_positive((n - 1) as nat);
    }
}

proof fn lemma_pow10_monotonic(a: nat, b: nat)
    requires
        a <= b,
    ensures
        pow10(a) <= pow10(b),
    decreases b,
{
    if a < b {
        lemma_pow10_monotonic(a, (b - 1) as nat);
        lemma_pow10_positive((b - 1) as nat);
    }
}

proof fn lemma_pow10_sum(a: nat, b: nat)
    ensures
        pow10(a) * pow10(b) == pow10(a + b),
    decreases a,
{
    if a == 0 {
        assert(pow10(0) * pow10(b) == pow10(b)) by (nonlinear_arith)
            requires
                pow10(0) == 1,
        ;
    } else {
        lemma_pow10_sum((a - 1) as nat, b);
        let p = pow10((a - 1) as nat);
        let q = pow10(b);
        assert((10 * p) * q == 10 * (p * q)) by (nonlinear_arith);
    }
}

proof fn lemma_parts_per_unit()
    ensures
        pow10(MAX_SCALE as nat) == PARTS_PER_UNIT,
{
    reveal_with_fuel(pow10, 29);
}

proof fn lemma_rest_fits(rest: int, divisor: int, step: int)
    requires
        0 <= rest < divisor,
        step > 0,
        divisor * step == PARTS_PER_UNIT,
    ensures
        0 <= rest * step < PARTS_PER_UNIT,
{
    assert(0 <= rest * step) by (nonlinear_arith)
        requires
            0 <= rest,
            step > 0,
    ;
    assert(rest * step < divisor * step) by (nonlinear_arith)
        requires
            rest < divisor,
            step > 0,
    ;
}

proof fn lemma_quotient_bound(number: int, divisor: int)
    requires
        number >= 0,
        divisor > 0,
    ensures
        0 <= number / divisor <= number,
{
    assert(0 <= number / divisor <= number) by (nonlinear_arith)
        requires
            number >= 0,
            divisor > 0,
    ;
}

proof fn lemma_floor_of_negative(mantissa: int, below: int, divisor: int)
    requires
        divisor > 0,
        below >= 0,
        mantissa == -1 - below,
    ensures
        mantissa / divisor == -1 - below / divisor,
        mantissa % divisor == divisor - 1 - below % divisor,
        0 <= below % divisor < divisor,
{
    let q = below / divisor;
    let r = below % divisor;
    vstd::arithmetic::div_mod::lemma_fundamental_div_mod(below, divisor);
    vstd::arithmetic::div_mod::lemma_mod_bound(below, divisor);
    assert(mantissa == (-1 - q) * divisor + (divisor - 1 - r)) by (nonlinear_arith)
        requires
            mantissa == -1 - below,
            below == divisor * q + r,
    ;
    vstd::arithmetic::div_mod::lemma_fundamental_div_mod_converse(
        mantissa,
        divisor,
        -1 - q,
        divisor - 1 - r,
    );
}

/// An amount made from a mantissa and a scale is the number `mantissa / 10^scale`:
/// counted in its smallest steps it is `mantissa * 10^(MAX_SCALE - scale)`.
pub proof fn law_amount_is_exact(mantissa: i128, scale: u32)
    requires
        scale <= MAX_SCALE,
    ensures
        amount_of(mantissa, scale) is Some,
        amount_of(mantissa, scale)->0.normal(),
        amount_of(mantissa, scale)->0.value() == mantissa * pow10((MAX_SCALE - scale) as nat),
{
    let d = pow10(scale as nat) as int;
    let s = pow10((MAX_SCALE - scale) as nat) as int;
    let m = mantissa as int;
    lemma_pow10_positive(scale as nat);
    lemma_pow10_positive((MAX_SCALE - scale) as nat);
    lemma_pow10_sum(scale as nat, (MAX_SCALE - scale) as nat);
    lemma_parts_per_unit();
    vstd::arithmetic::div_mod::lemma_fundamental_div_mod(m, d);
    vstd::arithmetic::div_mod::lemma_mod_bound(m, d);
    lemma_rest_fits(m % d, d, s);
    if m >= 0 {
        lemma_quotient_bound(m, d);
    } else {
        lemma_floor_of_negative(m, -1 - m, d);
        lemma_quotient_bound(-1 - m, d);
    }
    let q = m / d;
    let r = m % d;
    assert(q * PARTS_PER_UNIT + r * s == m * s) by (nonlinear_arith)
        requires
            d * s == PARTS_PER_UNIT,
            m == d * q + r,
    ;
}

/// Amounts are ordered, and told apart, as the numbers that they are.
pub proof fn law_amount_order_is_numeric(a: Amount, b: Amount)
    requires
        a.normal(),
        b.normal(),
    ensures
        a.precedes(b) == (a.value() < b.value()),
        (a == b) == (a.value() == b.value()),
{
}

} // verus!
