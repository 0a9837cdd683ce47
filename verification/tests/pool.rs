use linear_bootstrap_pool::decimal::{Decimal, DEC_MAX, DEC_ONE};
use linear_bootstrap_pool::pool::{LinearBootstrapPool, PoolError, SECONDS_PER_DAY};

const RES1: u64 = 11;
const RES2: u64 = 22;
const START: i64 = 1_000_000;

fn dec(picos: i128) -> Decimal {
    Decimal::from_picos(picos).expect("in range")
}

fn units(n: i64) -> Decimal {
    Decimal::from_units(n).expect("in range")
}

/// The pool of the worked scenario: weights slide from (0.9, 0.1) to
/// (0.5, 0.5) over ten days, with no fee.
fn bootstrap_pool(fee: Decimal) -> LinearBootstrapPool {
    LinearBootstrapPool::new(
        RES1,
        RES2,
        dec(9 * DEC_ONE / 10),
        dec(DEC_ONE / 10),
        dec(DEC_ONE / 2),
        dec(DEC_ONE / 2),
        fee,
        10,
        START,
    )
}

#[test]
fn construction_records_configuration() {
    let p = bootstrap_pool(dec(0));
    assert_eq!(p.resource1, RES1);
    assert_eq!(p.resource2, RES2);
    assert_eq!(p.duration, 10);
    assert_eq!(p.start, START);
    assert_eq!(p.weight1.picos(), 9 * DEC_ONE / 10);
    assert_eq!(p.weight2.picos(), DEC_ONE / 10);
}

#[test]
fn weights_at_start_equal_initial() {
    let mut p = bootstrap_pool(dec(0));
    p.set_weights(START).unwrap();
    assert_eq!(p.weight1.picos(), 9 * DEC_ONE / 10);
    assert_eq!(p.weight2.picos(), DEC_ONE / 10);
}

#[test]
fn weights_at_linear_midpoint() {
    let mut p = bootstrap_pool(dec(0));
    p.set_weights(START + 5 * SECONDS_PER_DAY).unwrap();
    assert_eq!(p.weight1.picos(), 7 * DEC_ONE / 10);
    assert_eq!(p.weight2.picos(), 3 * DEC_ONE / 10);
}

#[test]
fn weight_sum_is_conserved_mid_transition() {
    let mut p = bootstrap_pool(dec(0));
    p.set_weights(START + 3 * SECONDS_PER_DAY).unwrap();
    assert_eq!(p.weight1.picos(), 780_000_000_000);
    assert_eq!(p.weight2.picos(), 220_000_000_000);
    assert_eq!(p.weight1.picos() + p.weight2.picos(), DEC_ONE);
}

#[test]
fn weights_pinned_at_and_beyond_duration() {
    let mut p = bootstrap_pool(dec(0));
    p.set_weights(START + 10 * SECONDS_PER_DAY).unwrap();
    assert_eq!(p.weight1.picos(), DEC_ONE / 2);
    assert_eq!(p.weight2.picos(), DEC_ONE / 2);
    p.set_weights(START + 5000 * SECONDS_PER_DAY).unwrap();
    assert_eq!(p.weight1.picos(), DEC_ONE / 2);
    assert_eq!(p.weight2.picos(), DEC_ONE / 2);
}

#[test]
fn weights_extrapolate_backward_before_start() {
    // Progress is deliberately not clamped below zero.
    let mut p = bootstrap_pool(dec(0));
    p.set_weights(START - 5 * SECONDS_PER_DAY).unwrap();
    assert_eq!(p.weight1.picos(), 1_100_000_000_000);
    assert_eq!(p.weight2.picos(), -100_000_000_000);
}

#[test]
fn swap_midpoint_scenario() {
    // 100 units of the first asset into reserves of (1000, 1000) at
    // weights (0.7, 0.3) with no fee: 30000/730 of a unit out.
    let mut p = bootstrap_pool(dec(0));
    let out = p
        .swap(
            RES1,
            units(100),
            units(1000),
            units(1000),
            START + 5 * SECONDS_PER_DAY,
        )
        .unwrap();
    assert_eq!(out.output_resource, RES2);
    assert_eq!(out.output_amount.picos(), 41_095_890_410_958);
    // The swap refreshed the stored weights first.
    assert_eq!(p.weight1.picos(), 7 * DEC_ONE / 10);
    assert_eq!(p.weight2.picos(), 3 * DEC_ONE / 10);
}

#[test]
fn swap_second_asset_swaps_weight_roles() {
    let mut p = bootstrap_pool(dec(0));
    let out = p
        .swap(
            RES2,
            units(100),
            units(1000),
            units(1000),
            START + 5 * SECONDS_PER_DAY,
        )
        .unwrap();
    assert_eq!(out.output_resource, RES1);
    // 70000/370 of a unit out.
    assert_eq!(out.output_amount.picos(), 189_189_189_189_189);
}

#[test]
fn swap_unknown_asset_rejected_without_state_change() {
    let mut p = bootstrap_pool(dec(0));
    let before = p;
    let r = p.swap(
        99,
        units(100),
        units(1000),
        units(1000),
        START + 5 * SECONDS_PER_DAY,
    );
    assert_eq!(r.unwrap_err(), PoolError::InvalidAsset);
    assert_eq!(p, before);
}

#[test]
fn swap_zero_denominator_is_arithmetic_error() {
    // A zero input into empty reserves makes the formula's denominator zero.
    let mut p = bootstrap_pool(dec(0));
    let before = p;
    let r = p.swap(RES1, dec(0), dec(0), dec(0), START + 5 * SECONDS_PER_DAY);
    assert_eq!(r.unwrap_err(), PoolError::ArithmeticError);
    assert_eq!(p, before);
}

#[test]
fn swap_into_empty_output_reserve_pays_nothing() {
    let mut p = bootstrap_pool(dec(0));
    let out = p
        .swap(RES1, units(100), units(1000), dec(0), START + 5 * SECONDS_PER_DAY)
        .unwrap();
    assert_eq!(out.output_amount.picos(), 0);
}

#[test]
fn swap_overflow_is_arithmetic_error() {
    let mut p = bootstrap_pool(dec(0));
    let before = p;
    let r = p.swap(
        RES1,
        dec(DEC_MAX),
        dec(DEC_MAX),
        dec(DEC_MAX),
        START + 5 * SECONDS_PER_DAY,
    );
    assert_eq!(r.unwrap_err(), PoolError::ArithmeticError);
    assert_eq!(p, before);
}

#[test]
fn swap_preserves_reserve_product_without_fee() {
    // Equal weights, no fee: the constant product may not decrease.
    let mut p = LinearBootstrapPool::new(
        RES1,
        RES2,
        dec(DEC_ONE / 2),
        dec(DEC_ONE / 2),
        dec(DEC_ONE / 2),
        dec(DEC_ONE / 2),
        dec(0),
        10,
        START,
    );
    let x = units(1000).picos();
    let y = units(1000).picos();
    let out = p
        .swap(RES1, units(100), units(1000), units(1000), START)
        .unwrap();
    assert_eq!(out.output_amount.picos(), 90_909_090_909_090);
    let dx = units(100).picos();
    let o = out.output_amount.picos();
    assert!((x + dx) * (y - o) >= x * y);
}

#[test]
fn swap_grows_reserve_product_with_fee() {
    // Equal weights, one percent fee: the product strictly grows.
    let mut p = LinearBootstrapPool::new(
        RES1,
        RES2,
        dec(DEC_ONE / 2),
        dec(DEC_ONE / 2),
        dec(DEC_ONE / 2),
        dec(DEC_ONE / 2),
        dec(DEC_ONE / 100),
        10,
        START,
    );
    let out = p
        .swap(RES1, units(100), units(1000), units(1000), START)
        .unwrap();
    assert_eq!(out.output_amount.picos(), 90_081_892_629_663);
    let x = units(1000).picos();
    let y = units(1000).picos();
    let dx = units(100).picos();
    let o = out.output_amount.picos();
    assert!((x + dx) * (y - o) > x * y);
}

#[test]
fn remove_liquidity_refreshes_weights() {
    let mut p = bootstrap_pool(dec(0));
    p.remove_liquidity(START + 10 * SECONDS_PER_DAY).unwrap();
    assert_eq!(p.weight1.picos(), DEC_ONE / 2);
    assert_eq!(p.weight2.picos(), DEC_ONE / 2);
}

#[test]
fn weight_refresh_overflow_is_arithmetic_error() {
    // A transition spanning the whole representable range overflows the
    // interpolation's subtraction; the pool is left unchanged.
    let mut p = LinearBootstrapPool::new(
        RES1,
        RES2,
        dec(-DEC_MAX),
        dec(DEC_MAX),
        dec(DEC_MAX),
        dec(-DEC_MAX),
        dec(0),
        10,
        START,
    );
    let before = p;
    let r = p.set_weights(START + 5 * SECONDS_PER_DAY);
    assert_eq!(r.unwrap_err(), PoolError::ArithmeticError);
    assert_eq!(p, before);
}

#[test]
fn price_is_second_balance_over_first() {
    let p = bootstrap_pool(dec(0));
    let price = p.get_resource1_price(units(1000), units(500)).unwrap();
    assert_eq!(price.picos(), DEC_ONE / 2);
}

#[test]
fn price_with_empty_first_reserve_is_arithmetic_error() {
    let p = bootstrap_pool(dec(0));
    let r = p.get_resource1_price(dec(0), units(500));
    assert_eq!(r.unwrap_err(), PoolError::ArithmeticError);
}

#[test]
fn price_does_not_refresh_weights() {
    let p = bootstrap_pool(dec(0));
    let before = p;
    p.get_resource1_price(units(1000), units(500)).unwrap();
    assert_eq!(p, before);
    assert_eq!(p.weight1.picos(), 9 * DEC_ONE / 10);
}
