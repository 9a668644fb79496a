//! Realized and unrealized gain arithmetic (pure floating point).

#[test]
fn realized_gain_profit() {
    let cost = 150.0_f64;
    let sale = 200.0_f64;
    let shares = 10.0_f64;
    let gain = (sale - cost) * shares;
    assert!((gain - 500.0).abs() < 0.001);
}

#[test]
fn realized_gain_loss() {
    let cost = 200.0_f64;
    let sale = 150.0_f64;
    let shares = 5.0_f64;
    let gain = (sale - cost) * shares;
    assert!((gain - (-250.0)).abs() < 0.001);
}

#[test]
fn realized_gain_breakeven() {
    let cost = 100.0_f64;
    let sale = 100.0_f64;
    let shares = 100.0_f64;
    let gain = (sale - cost) * shares;
    assert!(gain.abs() < 0.001);
}

/// Combined P&L = realized gain + unrealized dollar gain.
#[test]
fn combined_gain_sums_realized_and_unrealized() {
    let realized = 500.0_f64;
    let cost = 100.0_f64;
    let current = 120.0_f64;
    let shares = 10.0_f64;
    let unrealized = (current - cost) * shares;
    let combined = realized + unrealized;
    assert!((combined - 700.0).abs() < 0.001);
}

/// Partial sell reduces remaining shares correctly.
#[test]
fn partial_sell_remaining_shares() {
    let owned = 10.0_f64;
    let selling = 3.0_f64;
    let remaining = owned - selling;
    assert!((remaining - 7.0).abs() < 1e-9);
}

/// Full sell (within epsilon) leaves zero remaining.
#[test]
fn full_sell_within_epsilon() {
    let owned = 10.0_f64;
    let selling = 10.0_f64;
    let remaining = owned - selling;
    assert!(remaining < 1e-9);
}
