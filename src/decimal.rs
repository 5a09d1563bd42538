//! Exact decimal numbers, held as a fraction of two integers.
use vstd::prelude::*;

use vstd::arithmetic::div_mod::lemma_fundamental_div_mod;
use vstd::arithmetic::div_mod::lemma_fundamental_div_mod_converse;

use num_decimal::num_bigint::BigInt;
use num_decimal::Num;

verus! {

/// The largest magnitude of a numerator or denominator of a decimal that
/// comes in from the account (prices, quantities, gains).
pub const LIMIT: i128 = 1_000_000_000_000_000_000;

/// The largest magnitude of a dividend of `floor_div`.
pub const DIV_LIMIT: i128 = 150_000_000_000_000_000_000_000_000_000_000_000_000;

/// The largest magnitude that a value scaled for rounding may have.
pub const ROUND_LIMIT: i128 = 1_000_000_000_000_000_000_000_000_000_000_000_000;

/// An exact rational number `numer / denom`.
///
/// The same value has many representations: `3/2` and `15/10` are equal
/// values, and every comparison of this module goes by value.
#[derive(Clone, Copy, Debug)]
pub struct Decimal {
    pub numer: i128,
    pub denom: i128,
}

/// Ten to the power of `n`.
pub open spec fn pow10(n: nat) -> int
    decreases n,
{
    if n == 0 {
        1
    } else {
        10 * pow10((n - 1) as nat)
    }
}

/// The integer nearest to `n / d`; a value exactly halfway between two
/// integers goes to the even one of them.
pub open spec fn round_half_even(n: int, d: int) -> int {
    let q = n / d;
    let r = n % d;
    if 2 * r < d {
        q
    } else if 2 * r > d {
        q + 1
    } else if q % 2 == 0 {
        q
    } else {
        q + 1
    }
}

/// The value of `x` rounded to `places` decimal places, counted in units
/// of `10^-places`.
pub open spec fn rounded_units(x: Decimal, places: nat) -> int {
    round_half_even(x.numer * pow10(places), x.denom as int)
}

/// The character for the decimal digit `d`.
pub open spec fn digit_char(d: int) -> char {
    if d == 0 {
        '0'
    } else if d == 1 {
        '1'
    } else if d == 2 {
        '2'
    } else if d == 3 {
        '3'
    } else if d == 4 {
        '4'
    } else if d == 5 {
        '5'
    } else if d == 6 {
        '6'
    } else if d == 7 {
        '7'
    } else if d == 8 {
        '8'
    } else {
        '9'
    }
}

/// The decimal digits of `n`, without leading zeros (`0` for zero).
pub open spec fn integer_digits(n: nat) -> Seq<char>
    decreases n,
{
    if n < 10 {
        seq![digit_char(n as int)]
    } else {
        integer_digits(n / 10).push(digit_char((n % 10) as int))
    }
}

/// The last `places` decimal digits of `n`, with leading zeros.
pub open spec fn padded_digits(n: nat, places: nat) -> Seq<char>
    decreases places,
{
    if places == 0 {
        Seq::empty()
    } else {
        padded_digits(n / 10, (places - 1) as nat).push(digit_char((n % 10) as int))
    }
}

/// `s` without the zeros at its end.
pub open spec fn without_trailing_zeros(s: Seq<char>) -> Seq<char>
    decreases s.len(),
{
    if s.len() > 0 && s.last() == '0' {
        without_trailing_zeros(s.drop_last())
    } else {
        s
    }
}

/// The text that the decimal library prints for the value `numer / denom`
/// (with `denom` positive): a minus sign where the value is negative, then
/// the magnitude rounded half to even to eight decimal places, with its
/// integer digits and, where the fraction is not zero, a point and the
/// fraction's digits without trailing zeros.
pub open spec fn decimal_text_of(numer: int, denom: int) -> Seq<char> {
    let units = round_half_even(numer * pow10(8), denom);
    let magnitude = (if units < 0 {
        -units
    } else {
        units
    }) as nat;
    let whole = integer_digits(magnitude / (pow10(8) as nat));
    let fraction = magnitude % (pow10(8) as nat);
    let sign = if numer < 0 {
        "-"@
    } else {
        Seq::empty()
    };
    if fraction == 0 {
        sign + whole
    } else {
        sign + whole + "."@ + without_trailing_zeros(padded_digits(fraction, 8))
    }
}

impl Decimal {
    /// A decimal that comes in from the account: a positive denominator,
    /// and both parts within `LIMIT`.
    pub open spec fn wf(self) -> bool {
        0 < self.denom <= LIMIT && -LIMIT <= self.numer <= LIMIT
    }

    /// `self` and `other` stand for the same number.
    pub open spec fn same_value(self, other: Decimal) -> bool {
        self.numer * other.denom == other.numer * self.denom
    }

    /// `self` is less than `other` (both with positive denominators).
    pub open spec fn less_than(self, other: Decimal) -> bool {
        self.numer * other.denom < other.numer * self.denom
    }

    /// `self` is less than `cents / 100`.
    pub open spec fn below_cents(self, cents: int) -> bool {
        self.numer * 100 < cents * self.denom
    }

    /// The number `numer / denom`, where both parts are within `LIMIT` and
    /// `denom` is positive; `None` otherwise.
    pub fn new(numer: i128, denom: i128) -> (r: Option<Decimal>)
        ensures
            r == (if 0 < denom <= LIMIT && -LIMIT <= numer <= LIMIT {
                Some(Decimal { numer, denom })
            } else {
                None
            }),
    {
        if 0 < denom && denom <= LIMIT && -LIMIT <= numer && numer <= LIMIT {
            Some(Decimal { numer, denom })
        } else {
            None
        }
    }

    /// The number zero.
    pub fn zero() -> (r: Decimal)
        ensures
            r == (Decimal { numer: 0, denom: 1 }),
            r.wf(),
    {
        Decimal { numer: 0, denom: 1 }
    }

    /// The number `cents / 100`.
    pub fn from_cents(cents: i128) -> (r: Decimal)
        ensures
            r == (Decimal { numer: cents, denom: 100 }),
    {
        Decimal { numer: cents, denom: 100 }
    }

    /// Whether `self` and `other` stand for the same number.
    pub fn equals(&self, other: &Decimal) -> (r: bool)
        requires
            self.wf(),
            other.wf(),
        ensures
            r == self.same_value(*other),
    {
        proof {
            lemma_product_bound(self.numer as int, other.denom as int);
            lemma_product_bound(other.numer as int, self.denom as int);
        }
        self.numer * other.denom == other.numer * self.denom
    }

    /// Whether `self` is less than `other`.
    pub fn lt(&self, other: &Decimal) -> (r: bool)
        requires
            self.wf(),
            other.wf(),
        ensures
            r == self.less_than(*other),
    {
        proof {
            lemma_product_bound(self.numer as int, other.denom as int);
            lemma_product_bound(other.numer as int, self.denom as int);
        }
        self.numer * other.denom < other.numer * self.denom
    }
}

/// A product of two numbers within `LIMIT` is within `LIMIT * LIMIT`.
pub proof fn lemma_product_bound(a: int, b: int)
    requires
        -LIMIT <= a <= LIMIT,
        -LIMIT <= b <= LIMIT,
    ensures
        -LIMIT * LIMIT <= a * b <= LIMIT * LIMIT,
{
    assert(-LIMIT * LIMIT <= a * b <= LIMIT * LIMIT) by (nonlinear_arith)
        requires
            -LIMIT <= a <= LIMIT,
            -LIMIT <= b <= LIMIT,
            LIMIT > 0,
    ;
}

/// The floor of `m / d`.
pub fn floor_div(m: i128, d: i128) -> (q: i128)
    requires
        d > 0,
        -DIV_LIMIT <= m <= DIV_LIMIT,
    ensures
        q == m / d,
{
    let du = d as u128;
    if m >= 0 {
        let q = (m as u128) / du;
        proof {
            lemma_fundamental_div_mod(m as int, d as int);
            lemma_fundamental_div_mod(m as int, du as int);
        }
        q as i128
    } else {
        let a = (-m) as u128;
        let c = (a + du - 1) / du;
        proof {
            let s = (a + du - 1) as int % (du as int);
            lemma_fundamental_div_mod((a + du - 1) as int, du as int);
            assert(0 <= c <= a) by (nonlinear_arith)
                requires
                    (a + du - 1) as int == du as int * c as int + s,
                    0 <= s,
                    a >= 1,
                    du >= 1,
                    c >= 0,
            ;
            assert(m as int == (-c) * (d as int) + (d - 1 - s)) by (nonlinear_arith)
                requires
                    (a + du - 1) as int == du as int * c as int + s,
                    a as int == -m,
                    du as int == d as int,
            ;
            lemma_fundamental_div_mod_converse(m as int, d as int, -c, d - 1 - s);
        }
        -(c as i128)
    }
}

/// The floor of `m / d` is below the integer `c` exactly when `m < c * d`.
pub proof fn lemma_floor_below(m: int, d: int, c: int)
    requires
        d > 0,
    ensures
        (m / d < c) == (m < c * d),
{
    lemma_fundamental_div_mod(m, d);
    let q = m / d;
    let r = m % d;
    if q < c {
        assert(m < c * d) by (nonlinear_arith)
            requires
                m == d * q + r,
                r < d,
                q + 1 <= c,
                d > 0,
        ;
    } else {
        assert(m >= c * d) by (nonlinear_arith)
            requires
                m == d * q + r,
                r >= 0,
                q >= c,
                d > 0,
        ;
    }
}

/// Whether the well-formed `x` is below `cents / 100`, for any `cents`.
pub fn below_cents(x: &Decimal, cents: i128) -> (r: bool)
    requires
        x.wf(),
    ensures
        r == x.below_cents(cents as int),
{
    let m = x.numer * 100;
    let q = floor_div(m, x.denom);
    proof {
        lemma_floor_below(m as int, x.denom as int, cents as int);
    }
    q < cents
}

/// Ten to the power of `n`, for `n` up to 18.
pub fn power_of_ten(n: u32) -> (r: i128)
    requires
        n <= 18,
    ensures
        r == pow10(n as nat),
        r <= LIMIT,
{
    proof {
        lemma_pow10_monotone(0, n as nat);
        reveal_with_fuel(pow10, 19);
        assert(pow10(18) == LIMIT);
    }
    let mut r: i128 = 1;
    let mut i: u32 = 0;
    while i < n
        invariant
            i <= n <= 18,
            r == pow10(i as nat),
            pow10(18) == LIMIT,
        decreases n - i,
    {
        proof {
            lemma_pow10_monotone((i + 1) as nat, 18);
        }
        r = r * 10;
        i = i + 1;
    }
    proof {
        lemma_pow10_monotone(n as nat, 18);
    }
    r
}

/// Powers of ten grow with the exponent.
pub proof fn lemma_pow10_monotone(a: nat, b: nat)
    requires
        a <= b,
    ensures
        1 <= pow10(a) <= pow10(b),
    decreases b,
{
    if b > a {
        lemma_pow10_monotone(a, (b - 1) as nat);
    } else if a > 0 {
        lemma_pow10_monotone((a - 1) as nat, (a - 1) as nat);
    }
}

/// A quotient within `b` rounds to within `b + 1`.
pub proof fn lemma_round_bound(m: int, d: int, b: int)
    requires
        d > 0,
        b >= 0,
        -b * d <= m <= b * d,
    ensures
        -b <= round_half_even(m, d) <= b + 1,
{
    lemma_fundamental_div_mod(m, d);
    let q = m / d;
    let r = m % d;
    assert(-b <= q <= b) by (nonlinear_arith)
        requires
            m == d * q + r,
            0 <= r < d,
            -b * d <= m <= b * d,
            d > 0,
    ;
}

/// `x` rounded to `places` decimal places, counted in units of
/// `10^-places`.
pub fn round_units(x: &Decimal, places: u32) -> (k: i128)
    requires
        x.denom > 0,
        places <= 18,
        -ROUND_LIMIT * x.denom <= x.numer * pow10(places as nat) <= ROUND_LIMIT * x.denom,
    ensures
        k == rounded_units(*x, places as nat),
        -ROUND_LIMIT <= k <= ROUND_LIMIT + 1,
{
    let r = round_with(x, places);
    let p = power_of_ten(places);
    proof {
        let ku = rounded_units(*x, places as nat);
        lemma_pow10_monotone(0, places as nat);
        lemma_round_bound(x.numer * pow10(places as nat), x.denom as int, ROUND_LIMIT as int);
        lemma_fundamental_div_mod(p as int, r.denom as int);
        let t = p as int / r.denom as int;
        assert(r.numer * t == ku) by (nonlinear_arith)
            requires
                r.numer * p == ku * r.denom,
                p == r.denom * t,
                r.denom > 0,
        ;
        assert(0 < t <= p) by (nonlinear_arith)
            requires
                p == r.denom * t,
                r.denom > 0,
                p > 0,
        ;
    }
    let t = p / r.denom;
    r.numer * t
}

/// Relies on num_decimal's `Num::round_with`, which rounds to the given
/// number of decimal places, half to even, and keeps the result as a
/// reduced fraction with a positive denominator.
#[verifier::external_body]
pub(crate) fn round_with(x: &Decimal, places: u32) -> (r: Decimal)
    requires
        x.denom > 0,
        places <= 18,
        -ROUND_LIMIT * x.denom <= x.numer * pow10(places as nat) <= ROUND_LIMIT * x.denom,
    ensures
        r.denom > 0,
        pow10(places as nat) % (r.denom as int) == 0,
        r.numer * pow10(places as nat) == rounded_units(*x, places as nat) * r.denom,
{
    let (numer, denom): (BigInt, BigInt) = Num::new(x.numer, x.denom).round_with(places as usize).into();
    Decimal { numer: i128::try_from(numer).unwrap(), denom: i128::try_from(denom).unwrap() }
}

/// Relies on num_decimal's `Display` for `Num`: with no precision asked
/// for, the value is rounded half to even to eight places and printed with
/// as many fraction digits as it needs.
#[verifier::external_body]
pub(crate) fn decimal_text(x: &Decimal) -> (r: String)
    requires
        x.denom > 0,
    ensures
        r@ == decimal_text_of(x.numer as int, x.denom as int),
{
    Num::new(x.numer, x.denom).to_string()
}

} // verus!
