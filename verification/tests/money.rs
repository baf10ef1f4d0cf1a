use ledger_core::error::ValidationError;
use ledger_core::money::{
    convert_magnitude, div_round_half_even, pow10_exec, Comparison, CurrencyUnit, ExchangeRate,
    Money, Quantity, Ratio, MAX_SCALE,
};

fn usd() -> CurrencyUnit {
    CurrencyUnit { id: 1, scale: 2 }
}

fn jpy() -> CurrencyUnit {
    CurrencyUnit { id: 2, scale: 0 }
}

#[test]
fn rounds_down_below_half() {
    assert_eq!(div_round_half_even(7, 3), 2);
    assert_eq!(div_round_half_even(0, 5), 0);
}

#[test]
fn rounds_up_above_half() {
    assert_eq!(div_round_half_even(8, 3), 3);
    assert_eq!(div_round_half_even(99, 100), 1);
}

#[test]
fn rounds_half_to_even() {
    assert_eq!(div_round_half_even(1, 2), 0);
    assert_eq!(div_round_half_even(3, 2), 2);
    assert_eq!(div_round_half_even(5, 2), 2);
    assert_eq!(div_round_half_even(7, 2), 4);
    assert_eq!(div_round_half_even(25, 10), 2);
    assert_eq!(div_round_half_even(35, 10), 4);
}

#[test]
fn rounded_division_by_one_is_exact() {
    assert_eq!(div_round_half_even(u128::MAX, 1), u128::MAX);
}

#[test]
fn powers_of_ten() {
    assert_eq!(pow10_exec(0), 1);
    assert_eq!(pow10_exec(1), 10);
    assert_eq!(pow10_exec(MAX_SCALE), 1_000_000_000);
}

#[test]
fn rate_needs_both_parts_positive() {
    assert!(ExchangeRate::new(0, 1).is_none());
    assert!(ExchangeRate::new(1, 0).is_none());
    let rate = ExchangeRate::new(3, 4).unwrap();
    assert_eq!(rate.numerator(), 3);
    assert_eq!(rate.denominator(), 4);
}

#[test]
fn ratio_needs_positive_denominator() {
    assert!(Ratio::new(5, 0).is_none());
    let ratio = Ratio::new(0, 7).unwrap();
    assert_eq!(ratio.numerator(), 0);
    assert_eq!(ratio.denominator(), 7);
}

#[test]
fn adds_amounts_of_one_currency() {
    let a = Money::new(150, usd());
    let b = Money::new(-50, usd());
    assert_eq!(a.checked_add(b), Ok(Money { minor: 100, unit: usd() }));
}

#[test]
fn adding_across_currencies_is_invalid_scale() {
    let a = Money::new(150, usd());
    let b = Money::new(150, jpy());
    assert_eq!(a.checked_add(b), Err(ValidationError::InvalidScale));
    assert_eq!(a.checked_sub(b), Err(ValidationError::InvalidScale));
    assert_eq!(a.compare(b), Err(ValidationError::InvalidScale));
}

#[test]
fn same_currency_with_other_scale_is_invalid_scale() {
    let a = Money::new(1, CurrencyUnit { id: 1, scale: 2 });
    let b = Money::new(1, CurrencyUnit { id: 1, scale: 3 });
    assert_eq!(a.checked_add(b), Err(ValidationError::InvalidScale));
}

#[test]
fn sum_beyond_range_is_overflow() {
    let a = Money::new(i64::MAX, usd());
    let b = Money::new(1, usd());
    assert_eq!(a.checked_add(b), Err(ValidationError::AmountOverflow));
    let c = Money::new(i64::MIN, usd());
    assert_eq!(c.checked_sub(b), Err(ValidationError::AmountOverflow));
}

#[test]
fn subtracts_amounts() {
    let a = Money::new(100, usd());
    let b = Money::new(250, usd());
    assert_eq!(a.checked_sub(b), Ok(Money { minor: -150, unit: usd() }));
}

#[test]
fn compares_amounts() {
    let a = Money::new(100, usd());
    let b = Money::new(250, usd());
    assert_eq!(a.compare(b), Ok(Comparison::Less));
    assert_eq!(b.compare(a), Ok(Comparison::Greater));
    assert_eq!(a.compare(a), Ok(Comparison::Equal));
}

#[test]
fn scales_by_a_ratio_half_to_even() {
    let third = Ratio::new(1, 3).unwrap();
    assert_eq!(Money::new(100, usd()).scale_by(third), Ok(Money { minor: 33, unit: usd() }));
    let half = Ratio::new(1, 2).unwrap();
    assert_eq!(Money::new(5, usd()).scale_by(half), Ok(Money { minor: 2, unit: usd() }));
    assert_eq!(Money::new(7, usd()).scale_by(half), Ok(Money { minor: 4, unit: usd() }));
}

#[test]
fn scaling_a_negative_amount_mirrors_the_positive() {
    let half = Ratio::new(1, 2).unwrap();
    assert_eq!(Money::new(-5, usd()).scale_by(half), Ok(Money { minor: -2, unit: usd() }));
    assert_eq!(Money::new(-7, usd()).scale_by(half), Ok(Money { minor: -4, unit: usd() }));
    let zero = Ratio::new(0, 9).unwrap();
    assert_eq!(Money::new(-7, usd()).scale_by(zero), Ok(Money { minor: 0, unit: usd() }));
}

#[test]
fn scaling_beyond_range_is_overflow() {
    let double = Ratio::new(2, 1).unwrap();
    assert_eq!(Money::new(i64::MAX, usd()).scale_by(double), Err(ValidationError::AmountOverflow));
    assert_eq!(
        Money::new(i64::MIN, usd()).scale_by(Ratio::new(1, 1).unwrap()),
        Ok(Money { minor: i64::MIN, unit: usd() })
    );
}

#[test]
fn converts_to_a_finer_scale() {
    // 1000 yen at 0.0067 dollars each are 6.70 dollars
    let rate = ExchangeRate::new(67, 10_000).unwrap();
    assert_eq!(Money::new(1000, jpy()).convert(rate, usd()), Ok(Money { minor: 670, unit: usd() }));
}

#[test]
fn converts_to_a_coarser_scale_half_to_even() {
    // 0.05 dollars at 100 yen each are 5 yen; 0.005 would be a half
    let rate = ExchangeRate::new(100, 1).unwrap();
    assert_eq!(Money::new(5, usd()).convert(rate, jpy()), Ok(Money { minor: 5, unit: jpy() }));
    let one = ExchangeRate::new(1, 1).unwrap();
    assert_eq!(Money::new(50, usd()).convert(one, jpy()), Ok(Money { minor: 0, unit: jpy() }));
    assert_eq!(Money::new(150, usd()).convert(one, jpy()), Ok(Money { minor: 2, unit: jpy() }));
    assert_eq!(Money::new(250, usd()).convert(one, jpy()), Ok(Money { minor: 2, unit: jpy() }));
    assert_eq!(Money::new(-150, usd()).convert(one, jpy()), Ok(Money { minor: -2, unit: jpy() }));
}

#[test]
fn conversion_with_a_scale_out_of_range_is_invalid_scale() {
    let rate = ExchangeRate::new(1, 1).unwrap();
    let wide = CurrencyUnit { id: 3, scale: MAX_SCALE + 1 };
    assert_eq!(Money::new(1, usd()).convert(rate, wide), Err(ValidationError::InvalidScale));
    assert_eq!(Money::new(1, wide).convert(rate, usd()), Err(ValidationError::InvalidScale));
    assert_eq!(convert_magnitude(1, rate, 10, 2), Err(ValidationError::InvalidScale));
}

#[test]
fn conversion_beyond_range_is_overflow() {
    let rate = ExchangeRate::new(u32::MAX, 1).unwrap();
    assert_eq!(
        Money::new(i64::MAX, usd()).convert(rate, usd()),
        Err(ValidationError::AmountOverflow)
    );
    assert_eq!(convert_magnitude(u64::MAX, rate, 0, 9), Err(ValidationError::AmountOverflow));
}

#[test]
fn converts_magnitudes() {
    let rate = ExchangeRate::new(3, 2).unwrap();
    assert_eq!(convert_magnitude(100, rate, 2, 2), Ok(150));
    assert_eq!(convert_magnitude(1, rate, 2, 2), Ok(2));
    assert_eq!(convert_magnitude(3, rate, 2, 2), Ok(4));
    assert_eq!(convert_magnitude(0, rate, 2, 0), Ok(0));
}

#[test]
fn quantities_add_and_compare_at_one_scale() {
    let a = Quantity::new(1500, 3);
    let b = Quantity::new(250, 3);
    assert_eq!(a.checked_add(b), Ok(Quantity { units: 1750, scale: 3 }));
    assert_eq!(a.checked_sub(b), Ok(Quantity { units: 1250, scale: 3 }));
    assert_eq!(a.compare(b), Ok(Comparison::Greater));
    assert_eq!(b.compare(a), Ok(Comparison::Less));
    assert_eq!(b.compare(b), Ok(Comparison::Equal));
}

#[test]
fn quantities_of_other_scales_do_not_combine() {
    let a = Quantity::new(1, 0);
    let b = Quantity::new(1, 3);
    assert_eq!(a.checked_add(b), Err(ValidationError::InvalidScale));
    assert_eq!(a.checked_sub(b), Err(ValidationError::InvalidScale));
    assert_eq!(a.compare(b), Err(ValidationError::InvalidScale));
}

#[test]
fn quantity_overflow_is_reported() {
    let a = Quantity::new(i64::MAX, 0);
    let b = Quantity::new(1, 0);
    assert_eq!(a.checked_add(b), Err(ValidationError::AmountOverflow));
    assert_eq!(Quantity::new(i64::MIN, 0).checked_sub(b), Err(ValidationError::AmountOverflow));
}
