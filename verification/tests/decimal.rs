use linear_bootstrap_pool::decimal::{Decimal, DEC_MAX, DEC_MAX_UNITS, DEC_ONE};

fn dec(picos: i128) -> Decimal {
    Decimal::from_picos(picos).expect("in range")
}

fn units(n: i64) -> Decimal {
    Decimal::from_units(n).expect("in range")
}

#[test]
fn mul_exact() {
    // 2.5 * 4 == 10
    let a = dec(2 * DEC_ONE + DEC_ONE / 2);
    let b = units(4);
    assert_eq!(a.checked_mul(b).unwrap().picos(), 10 * DEC_ONE);
}

#[test]
fn mul_truncates_toward_zero() {
    // One pico times one half truncates to zero, from both signs.
    let half = dec(DEC_ONE / 2);
    assert_eq!(dec(1).checked_mul(half).unwrap().picos(), 0);
    assert_eq!(dec(-1).checked_mul(half).unwrap().picos(), 0);
}

#[test]
fn mul_negative_signs() {
    let a = dec(-3 * DEC_ONE / 2); // -1.5
    let b = dec(DEC_ONE / 10); // 0.1
    assert_eq!(a.checked_mul(b).unwrap().picos(), -(3 * DEC_ONE / 20));
    assert_eq!(
        a.checked_mul(dec(-DEC_ONE / 10)).unwrap().picos(),
        3 * DEC_ONE / 20
    );
}

#[test]
fn mul_overflow_refused() {
    let max = dec(DEC_MAX);
    let two = units(2);
    assert!(max.checked_mul(two).is_none());
    assert_eq!(max.checked_mul(units(1)).unwrap().picos(), DEC_MAX);
}

#[test]
fn add_and_sub_bounds() {
    let max = dec(DEC_MAX);
    assert!(max.checked_add(dec(1)).is_none());
    assert_eq!(max.checked_add(dec(0)).unwrap().picos(), DEC_MAX);
    assert_eq!(max.checked_sub(dec(1)).unwrap().picos(), DEC_MAX - 1);
    assert!(dec(-DEC_MAX).checked_sub(dec(1)).is_none());
}

#[test]
fn div_exact_and_repeating() {
    // 1 / 3 truncates to twelve threes.
    assert_eq!(
        units(1).checked_div(units(3)).unwrap().picos(),
        333_333_333_333
    );
    assert_eq!(units(500).checked_div(units(1000)).unwrap().picos(), DEC_ONE / 2);
}

#[test]
fn div_truncates_toward_zero_on_negatives() {
    // -1 / 3 is -0.333...333, not rounded down to -0.333...334.
    assert_eq!(
        units(-1).checked_div(units(3)).unwrap().picos(),
        -333_333_333_333
    );
}

#[test]
fn div_by_zero_refused() {
    assert!(units(1).checked_div(dec(0)).is_none());
}

#[test]
fn div_overflow_refused() {
    // DEC_MAX over one pico would need 10^38 picos.
    assert!(dec(DEC_MAX).checked_div(dec(1)).is_none());
}

#[test]
fn from_units_bounds() {
    assert_eq!(Decimal::from_units(DEC_MAX_UNITS as i64).unwrap().picos(), DEC_MAX);
    assert!(Decimal::from_units(DEC_MAX_UNITS as i64 + 1).is_none());
    assert!(Decimal::from_picos(DEC_MAX + 1).is_none());
}
