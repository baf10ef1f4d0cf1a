//! Fixed-point amounts: integer minor units at a decimal scale.

use crate::error::ValidationError;
use vstd::arithmetic::div_mod::lemma_fundamental_div_mod;
use vstd::prelude::*;

verus! {

/// The largest number of decimal places an amount may carry.
pub const MAX_SCALE: u8 = 9;

/// Ten to the power `e`.
pub open spec fn pow10(e: nat) -> int
    decreases e,
{
    if e == 0 {
        1
    } else {
        10 * pow10((e - 1) as nat)
    }
}

/// `n / d` rounded to the nearest integer, a half going to the even
/// neighbour. Meant for `n >= 0` and `d > 0`.
pub open spec fn round_half_even(n: int, d: int) -> int {
    let q = n / d;
    let r = n % d;
    if 2 * r < d {
        q
    } else if 2 * r > d {
        q + 1
    } else if q % 2 == 0 {
        q
    } else {
        q + 1
    }
}

/// Rounded division on machine integers.
pub fn div_round_half_even(n: u128, d: u128) -> (r: u128)
    requires
        d > 0,
    ensures
        r == round_half_even(n as int, d as int),
{
    let q: u128 = n / d;
    let rem: u128 = n % d;
    proof {
        lemma_fundamental_div_mod(n as int, d as int);
        if rem > 0 {
            assert(d >= 2);
            assert(2 * q <= d * q) by (nonlinear_arith)
                requires
                    d >= 2,
                    q >= 0,
            ;
        }
    }
    if rem < d - rem {
        q
    } else if rem > d - rem {
        q + 1
    } else if q % 2 == 0 {
        q
    } else {
        q + 1
    }
}

/// Ten to the power `e`, for a scale that amounts may carry.
pub fn pow10_exec(e: u8) -> (r: u64)
    requires
        e <= MAX_SCALE,
    ensures
        r == pow10(e as nat),
        1 <= r <= 1_000_000_000,
{
    let mut r: u64 = 1;
    let mut i: u8 = 0;
    proof {
        reveal_with_fuel(pow10, 10);
        assert(pow10(9) == 1_000_000_000);
    }
    while i < e
        invariant
            i <= e <= MAX_SCALE,
            r == pow10(i as nat),
            1 <= r,
            r * pow10((9 - i) as nat) == 1_000_000_000,
        decreases e - i,
    {
        proof {
            reveal_with_fuel(pow10, 2);
            assert(pow10((9 - i) as nat) == 10 * pow10((9 - i - 1) as nat));
            assert(r * (10 * pow10((9 - i - 1) as nat)) == (r * 10) * pow10((9 - i - 1) as nat))
                by (nonlinear_arith);
            lemma_pow10_positive((9 - i - 1) as nat);
            assert(r * 10 <= 1_000_000_000) by (nonlinear_arith)
                requires
                    (r * 10) * pow10((9 - i - 1) as nat) == 1_000_000_000,
                    pow10((9 - i - 1) as nat) >= 1,
                    r >= 1,
            ;
        }
        r = r * 10;
        i = i + 1;
    }
    proof {
        lemma_pow10_positive((9 - i) as nat);
        assert(r <= 1_000_000_000) by (nonlinear_arith)
            requires
                r * pow10((9 - i) as nat) == 1_000_000_000,
                pow10((9 - i) as nat) >= 1,
                r >= 1,
        ;
    }
    r
}

/// Every power of ten is at least one.
pub(crate) proof fn lemma_pow10_positive(e: nat)
    ensures
        pow10(e) >= 1,
    decreases e,
{
    if e > 0 {
        lemma_pow10_positive((e - 1) as nat);
    }
}

/// `n / d` rounded to the nearest integer, a half going to the even
/// neighbour, for a numerator of either sign: the rounding of `-n` is the
/// negation of the rounding of `n`.
pub open spec fn signed_round(n: int, d: int) -> int {
    if n >= 0 {
        round_half_even(n, d)
    } else {
        -round_half_even(-n, d)
    }
}

/// Rounded division of a magnitude with a sign, where the result fits.
fn signed_div_round(magnitude: u128, negative: bool, d: u128) -> (r: Option<i64>)
    requires
        d > 0,
    ensures
        ({
            let exact = if negative {
                -round_half_even(magnitude as int, d as int)
            } else {
                round_half_even(magnitude as int, d as int)
            };
            match r {
                Some(v) => v == exact,
                None => !(i64::MIN <= exact <= i64::MAX),
            }
        }),
{
    let m: u128 = div_round_half_even(magnitude, d);
    if negative {
        if m > 0x8000_0000_0000_0000u128 {
            None
        } else {
            let v: i128 = -(m as i128);
            Some(v as i64)
        }
    } else {
        if m > 0x7fff_ffff_ffff_ffffu128 {
            None
        } else {
            Some(m as i64)
        }
    }
}

/// The magnitude of a signed amount.
fn magnitude_of(minor: i64) -> (m: u128)
    ensures
        minor >= 0 ==> m == minor,
        minor < 0 ==> m == -minor,
        m <= 0x8000_0000_0000_0000,
{
    if minor >= 0 {
        minor as u128
    } else {
        let wide: i128 = -(minor as i128);
        wide as u128
    }
}

/// A currency as far as arithmetic needs it: which one, and how many decimal
/// places its minor unit stands for.
#[derive(Clone, Copy, Debug, PartialEq, Eq, Structural)]
pub struct CurrencyUnit {
    pub id: u128,
    pub scale: u8,
}

/// How one of two amounts stands to the other.
#[derive(Clone, Copy, Debug, PartialEq, Eq, Structural)]
pub enum Comparison {
    Less,
    Equal,
    Greater,
}

/// How `a` stands to `b`.
pub open spec fn spec_compare(a: int, b: int) -> Comparison {
    if a < b {
        Comparison::Less
    } else if a == b {
        Comparison::Equal
    } else {
        Comparison::Greater
    }
}

/// A conversion rate: `numerator / denominator` units of the target
/// currency for one unit of the source. Both parts are positive.
#[derive(Clone, Copy, Debug, PartialEq, Eq)]
pub struct ExchangeRate {
    numerator: u32,
    denominator: u32,
}

impl ExchangeRate {
    #[verifier::type_invariant]
    pub open spec fn valid(self) -> bool {
        self.num() > 0 && self.den() > 0
    }

    pub closed spec fn num(self) -> int {
        self.numerator as int
    }

    pub closed spec fn den(self) -> int {
        self.denominator as int
    }

    /// A rate exists exactly where both parts are positive.
    pub fn new(numerator: u32, denominator: u32) -> (r: Option<ExchangeRate>)
        ensures
            r is Some <==> numerator > 0 && denominator > 0,
            r matches Some(rate) ==> rate.num() == numerator && rate.den() == denominator,
    {
        if numerator > 0 && denominator > 0 {
            Some(ExchangeRate { numerator, denominator })
        } else {
            None
        }
    }

    pub fn numerator(&self) -> (n: u32)
        ensures
            n == self.num(),
            n > 0,
    {
        proof {
            use_type_invariant(self);
        }
        self.numerator
    }

    pub fn denominator(&self) -> (n: u32)
        ensures
            n == self.den(),
            n > 0,
    {
        proof {
            use_type_invariant(self);
        }
        self.denominator
    }
}

/// A rational factor `numerator / denominator` with a positive denominator.
#[derive(Clone, Copy, Debug, PartialEq, Eq)]
pub struct Ratio {
    numerator: u64,
    denominator: u64,
}

impl Ratio {
    #[verifier::type_invariant]
    pub open spec fn valid(self) -> bool {
        self.den() > 0
    }

    pub closed spec fn num(self) -> int {
        self.numerator as int
    }

    pub closed spec fn den(self) -> int {
        self.denominator as int
    }

    /// A factor exists exactly where the denominator is positive.
    pub fn new(numerator: u64, denominator: u64) -> (r: Option<Ratio>)
        ensures
            r is Some <==> denominator > 0,
            r matches Some(f) ==> f.num() == numerator && f.den() == denominator,
    {
        if denominator > 0 {
            Some(Ratio { numerator, denominator })
        } else {
            None
        }
    }

    pub fn numerator(&self) -> (n: u64)
        ensures
            n == self.num(),
    {
        self.numerator
    }

    pub fn denominator(&self) -> (n: u64)
        ensures
            n == self.den(),
            n > 0,
    {
        proof {
            use_type_invariant(self);
        }
        self.denominator
    }
}

/// The amount `amount` of a currency with `from_scale` decimal places, in
/// minor units of a currency with `to_scale` places, at `rate`: the exact
/// product rounded half to even at the target's minor unit.
pub open spec fn spec_convert(amount: int, rate: ExchangeRate, from_scale: u8, to_scale: u8) -> int {
    if to_scale >= from_scale {
        signed_round(amount * rate.num() * pow10((to_scale - from_scale) as nat), rate.den())
    } else {
        signed_round(amount * rate.num(), rate.den() * pow10((from_scale - to_scale) as nat))
    }
}

/// Converts a non-negative amount of minor units.
///
/// Fails with `InvalidScale` where a scale is beyond `MAX_SCALE`, else with
/// `AmountOverflow` where the rounded result is above `i64::MAX`.
pub fn convert_magnitude(amount: u64, rate: ExchangeRate, from_scale: u8, to_scale: u8) -> (r:
    Result<u64, ValidationError>)
    ensures
        (from_scale > MAX_SCALE || to_scale > MAX_SCALE) ==> r == Err::<u64, ValidationError>(
            ValidationError::InvalidScale,
        ),
        from_scale <= MAX_SCALE && to_scale <= MAX_SCALE ==> {
            let exact = spec_convert(amount as int, rate, from_scale, to_scale);
            &&& 0 <= exact
            &&& exact > i64::MAX ==> r == Err::<u64, ValidationError>(
                ValidationError::AmountOverflow,
            )
            &&& exact <= i64::MAX ==> r == Ok::<u64, ValidationError>(exact as u64)
        },
{
    if from_scale > MAX_SCALE || to_scale > MAX_SCALE {
        return Err(ValidationError::InvalidScale);
    }
    let num: u128 = rate.numerator() as u128;
    let den: u128 = rate.denominator() as u128;
    proof {
        assert(amount as int * num as int <= 0xffff_ffff_ffff_ffff * 0xffff_ffff)
            by (nonlinear_arith)
            requires
                0 <= amount <= 0xffff_ffff_ffff_ffff,
                0 <= num <= 0xffff_ffff,
        ;
        assert(0 <= amount as int * num as int) by (nonlinear_arith)
            requires
                0 <= amount,
                0 <= num,
        ;
    }
    let scaled: u128 = amount as u128 * num;
    let rounded: u128 = if to_scale >= from_scale {
        let p: u128 = pow10_exec(to_scale - from_scale) as u128;
        proof {
            assert(scaled as int * p as int <= (0xffff_ffff_ffff_ffff * 0xffff_ffff)
                * 1_000_000_000) by (nonlinear_arith)
                requires
                    0 <= scaled <= 0xffff_ffff_ffff_ffff * 0xffff_ffff,
                    0 <= p <= 1_000_000_000,
            ;
            assert(0 <= scaled as int * p as int) by (nonlinear_arith)
                requires
                    0 <= scaled,
                    0 <= p,
            ;
        }
        div_round_half_even(scaled * p, den)
    } else {
        let p: u128 = pow10_exec(from_scale - to_scale) as u128;
        proof {
            assert(den as int * p as int <= 0xffff_ffff * 1_000_000_000) by (nonlinear_arith)
                requires
                    0 <= den <= 0xffff_ffff,
                    0 <= p <= 1_000_000_000,
            ;
            assert(0 < den as int * p as int) by (nonlinear_arith)
                requires
                    0 < den,
                    0 < p,
            ;
        }
        div_round_half_even(scaled, den * p)
    };
    if rounded > 0x7fff_ffff_ffff_ffffu128 {
        Err(ValidationError::AmountOverflow)
    } else {
        Ok(rounded as u64)
    }
}

/// An amount of money: minor units of a currency.
#[derive(Clone, Copy, Debug, PartialEq, Eq)]
pub struct Money {
    pub minor: i64,
    pub unit: CurrencyUnit,
}

impl Money {
    pub fn new(minor: i64, unit: CurrencyUnit) -> (m: Money)
        ensures
            m.minor == minor,
            m.unit == unit,
    {
        Money { minor, unit }
    }

    /// The sum of two amounts of one currency.
    ///
    /// Fails with `InvalidScale` where the units differ, else with
    /// `AmountOverflow` where the sum does not fit.
    pub fn checked_add(self, other: Money) -> (r: Result<Money, ValidationError>)
        ensures
            self.unit != other.unit ==> r == Err::<Money, ValidationError>(
                ValidationError::InvalidScale,
            ),
            self.unit == other.unit ==> {
                let sum = self.minor + other.minor;
                &&& !(i64::MIN <= sum <= i64::MAX) ==> r == Err::<Money, ValidationError>(
                    ValidationError::AmountOverflow,
                )
                &&& i64::MIN <= sum <= i64::MAX ==> r == Ok::<Money, ValidationError>(
                    (Money { minor: sum as i64, unit: self.unit }),
                )
            },
    {
        if self.unit != other.unit {
            return Err(ValidationError::InvalidScale);
        }
        let sum: i128 = self.minor as i128 + other.minor as i128;
        if sum < i64::MIN as i128 || sum > i64::MAX as i128 {
            Err(ValidationError::AmountOverflow)
        } else {
            Ok(Money { minor: sum as i64, unit: self.unit })
        }
    }

    /// The difference of two amounts of one currency.
    ///
    /// Fails with `InvalidScale` where the units differ, else with
    /// `AmountOverflow` where the difference does not fit.
    pub fn checked_sub(self, other: Money) -> (r: Result<Money, ValidationError>)
        ensures
            self.unit != other.unit ==> r == Err::<Money, ValidationError>(
                ValidationError::InvalidScale,
            ),
            self.unit == other.unit ==> {
                let diff = self.minor - other.minor;
                &&& !(i64::MIN <= diff <= i64::MAX) ==> r == Err::<Money, ValidationError>(
                    ValidationError::AmountOverflow,
                )
                &&& i64::MIN <= diff <= i64::MAX ==> r == Ok::<Money, ValidationError>(
                    (Money { minor: diff as i64, unit: self.unit }),
                )
            },
    {
        if self.unit != other.unit {
            return Err(ValidationError::InvalidScale);
        }
        let diff: i128 = self.minor as i128 - other.minor as i128;
        if diff < i64::MIN as i128 || diff > i64::MAX as i128 {
            Err(ValidationError::AmountOverflow)
        } else {
            Ok(Money { minor: diff as i64, unit: self.unit })
        }
    }

    /// How this amount stands to another of the same currency.
    ///
    /// Fails with `InvalidScale` where the units differ.
    pub fn compare(self, other: Money) -> (r: Result<Comparison, ValidationError>)
        ensures
            self.unit != other.unit ==> r == Err::<Comparison, ValidationError>(
                ValidationError::InvalidScale,
            ),
            self.unit == other.unit ==> r == Ok::<Comparison, ValidationError>(
                spec_compare(self.minor as int, other.minor as int),
            ),
    {
        if self.unit != other.unit {
            return Err(ValidationError::InvalidScale);
        }
        if self.minor < other.minor {
            Ok(Comparison::Less)
        } else if self.minor == other.minor {
            Ok(Comparison::Equal)
        } else {
            Ok(Comparison::Greater)
        }
    }

    /// This amount times `factor`, rounded half to even at the minor unit.
    ///
    /// Fails with `AmountOverflow` where the rounded product does not fit.
    pub fn scale_by(self, factor: Ratio) -> (r: Result<Money, ValidationError>)
        ensures
            ({
                let exact = signed_round(self.minor * factor.num(), factor.den());
                &&& !(i64::MIN <= exact <= i64::MAX) ==> r == Err::<Money, ValidationError>(
                    ValidationError::AmountOverflow,
                )
                &&& i64::MIN <= exact <= i64::MAX ==> r == Ok::<Money, ValidationError>(
                    (Money { minor: exact as i64, unit: self.unit }),
                )
            }),
    {
        let num: u128 = factor.numerator() as u128;
        let den: u128 = factor.denominator() as u128;
        let mag: u128 = magnitude_of(self.minor);
        proof {
            assert(mag as int * num as int <= 0x8000_0000_0000_0000 * 0xffff_ffff_ffff_ffff)
                by (nonlinear_arith)
                requires
                    0 <= mag <= 0x8000_0000_0000_0000,
                    0 <= num <= 0xffff_ffff_ffff_ffff,
            ;
            assert(0 <= mag as int * num as int) by (nonlinear_arith)
                requires
                    0 <= mag,
                    0 <= num,
            ;
            lemma_signed_product(self.minor as int, num as int, mag as int);
        }
        let negative: bool = self.minor < 0 && num > 0;
        match signed_div_round(mag * num, negative, den) {
            Some(v) => Ok(Money { minor: v, unit: self.unit }),
            None => Err(ValidationError::AmountOverflow),
        }
    }

    /// This amount in another currency, at `rate`, rounded half to even at
    /// the target's minor unit.
    ///
    /// Fails with `InvalidScale` where either scale is beyond `MAX_SCALE`,
    /// else with `AmountOverflow` where the result does not fit.
    pub fn convert(self, rate: ExchangeRate, target: CurrencyUnit) -> (r: Result<
        Money,
        ValidationError,
    >)
        ensures
            (self.unit.scale > MAX_SCALE || target.scale > MAX_SCALE) ==> r == Err::<
                Money,
                ValidationError,
            >(ValidationError::InvalidScale),
            self.unit.scale <= MAX_SCALE && target.scale <= MAX_SCALE ==> {
                let exact = spec_convert(self.minor as int, rate, self.unit.scale, target.scale);
                &&& !(i64::MIN <= exact <= i64::MAX) ==> r == Err::<Money, ValidationError>(
                    ValidationError::AmountOverflow,
                )
                &&& i64::MIN <= exact <= i64::MAX ==> r == Ok::<Money, ValidationError>(
                    (Money { minor: exact as i64, unit: target }),
                )
            },
    {
        if self.unit.scale > MAX_SCALE || target.scale > MAX_SCALE {
            return Err(ValidationError::InvalidScale);
        }
        let num: u128 = rate.numerator() as u128;
        let den: u128 = rate.denominator() as u128;
        let mag: u128 = magnitude_of(self.minor);
        proof {
            assert(mag as int * num as int <= 0x8000_0000_0000_0000 * 0xffff_ffff)
                by (nonlinear_arith)
                requires
                    0 <= mag <= 0x8000_0000_0000_0000,
                    0 <= num <= 0xffff_ffff,
            ;
            assert(0 <= mag as int * num as int) by (nonlinear_arith)
                requires
                    0 <= mag,
                    0 <= num,
            ;
            lemma_signed_product(self.minor as int, num as int, mag as int);
        }
        let scaled: u128 = mag * num;
        let negative: bool = self.minor < 0;
        let rounded: Option<i64> = if target.scale >= self.unit.scale {
            let p: u128 = pow10_exec(target.scale - self.unit.scale) as u128;
            proof {
                assert(scaled as int * p as int <= (0x8000_0000_0000_0000 * 0xffff_ffff)
                    * 1_000_000_000) by (nonlinear_arith)
                    requires
                        0 <= scaled <= 0x8000_0000_0000_0000 * 0xffff_ffff,
                        0 <= p <= 1_000_000_000,
                ;
                lemma_signed_product(self.minor * num, p as int, scaled as int);
            }
            signed_div_round(scaled * p, negative, den)
        } else {
            let p: u128 = pow10_exec(self.unit.scale - target.scale) as u128;
            proof {
                assert(den as int * p as int <= 0xffff_ffff * 1_000_000_000) by (nonlinear_arith)
                    requires
                        0 <= den <= 0xffff_ffff,
                        0 <= p <= 1_000_000_000,
                ;
                assert(0 < den as int * p as int) by (nonlinear_arith)
                    requires
                        0 < den,
                        0 < p,
                ;
            }
            signed_div_round(scaled, negative, den * p)
        };
        match rounded {
            Some(v) => Ok(Money { minor: v, unit: target }),
            None => Err(ValidationError::AmountOverflow),
        }
    }
}

/// The product of a signed amount and a non-negative factor has the
/// amount's sign and the product of the magnitudes.
proof fn lemma_signed_product(a: int, f: int, mag: int)
    requires
        f >= 0,
        a >= 0 ==> mag == a,
        a < 0 ==> mag == -a,
    ensures
        a >= 0 ==> a * f == mag * f && a * f >= 0,
        a < 0 ==> -(a * f) == mag * f && a * f <= 0,
        a < 0 && f > 0 ==> a * f < 0,
{
    assert(a >= 0 ==> a * f >= 0) by (nonlinear_arith)
        requires
            f >= 0,
    ;
    assert(a < 0 ==> -(a * f) == (-a) * f && a * f <= 0) by (nonlinear_arith)
        requires
            f >= 0,
    ;
    assert(a < 0 && f > 0 ==> a * f < 0) by (nonlinear_arith);
}

/// A quantity of goods: units at a decimal scale.
#[derive(Clone, Copy, Debug, PartialEq, Eq)]
pub struct Quantity {
    pub units: i64,
    pub scale: u8,
}

impl Quantity {
    pub fn new(units: i64, scale: u8) -> (q: Quantity)
        ensures
            q.units == units,
            q.scale == scale,
    {
        Quantity { units, scale }
    }

    /// The sum of two quantities of one scale.
    ///
    /// Fails with `InvalidScale` where the scales differ, else with
    /// `AmountOverflow` where the sum does not fit.
    pub fn checked_add(self, other: Quantity) -> (r: Result<Quantity, ValidationError>)
        ensures
            self.scale != other.scale ==> r == Err::<Quantity, ValidationError>(
                ValidationError::InvalidScale,
            ),
            self.scale == other.scale ==> {
                let sum = self.units + other.units;
                &&& !(i64::MIN <= sum <= i64::MAX) ==> r == Err::<Quantity, ValidationError>(
                    ValidationError::AmountOverflow,
                )
                &&& i64::MIN <= sum <= i64::MAX ==> r == Ok::<Quantity, ValidationError>(
                    (Quantity { units: sum as i64, scale: self.scale }),
                )
            },
    {
        if self.scale != other.scale {
            return Err(ValidationError::InvalidScale);
        }
        let sum: i128 = self.units as i128 + other.units as i128;
        if sum < i64::MIN as i128 || sum > i64::MAX as i128 {
            Err(ValidationError::AmountOverflow)
        } else {
            Ok(Quantity { units: sum as i64, scale: self.scale })
        }
    }

    /// The difference of two quantities of one scale.
    ///
    /// Fails with `InvalidScale` where the scales differ, else with
    /// `AmountOverflow` where the difference does not fit.
    pub fn checked_sub(self, other: Quantity) -> (r: Result<Quantity, ValidationError>)
        ensures
            self.scale != other.scale ==> r == Err::<Quantity, ValidationError>(
                ValidationError::InvalidScale,
            ),
            self.scale == other.scale ==> {
                let diff = self.units - other.units;
                &&& !(i64::MIN <= diff <= i64::MAX) ==> r == Err::<Quantity, ValidationError>(
                    ValidationError::AmountOverflow,
                )
                &&& i64::MIN <= diff <= i64::MAX ==> r == Ok::<Quantity, ValidationError>(
                    (Quantity { units: diff as i64, scale: self.scale }),
                )
            },
    {
        if self.scale != other.scale {
            return Err(ValidationError::InvalidScale);
        }
        let diff: i128 = self.units as i128 - other.units as i128;
        if diff < i64::MIN as i128 || diff > i64::MAX as i128 {
            Err(ValidationError::AmountOverflow)
        } else {
            Ok(Quantity { units: diff as i64, scale: self.scale })
        }
    }

    /// How this quantity stands to another of the same scale.
    ///
    /// Fails with `InvalidScale` where the scales differ.
    pub fn compare(self, other: Quantity) -> (r: Result<Comparison, ValidationError>)
        ensures
            self.scale != other.scale ==> r == Err::<Comparison, ValidationError>(
                ValidationError::InvalidScale,
            ),
            self.scale == other.scale ==> r == Ok::<Comparison, ValidationError>(
                spec_compare(self.units as int, other.units as int),
            ),
    {
        if self.scale != other.scale {
            return Err(ValidationError::InvalidScale);
        }
        if self.units < other.units {
            Ok(Comparison::Less)
        } else if self.units == other.units {
            Ok(Comparison::Equal)
        } else {
            Ok(Comparison::Greater)
        }
    }
}

} // verus!
