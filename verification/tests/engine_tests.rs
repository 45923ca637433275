use backtester::candle::Candle;
use backtester::engine::{BacktestEngine, Side, Signal};
use backtester::errors::BacktestError;
use backtester::fixed::SCALE;
use backtester::strategy::ScriptedStrategy;

fn candle(t: i64, open: u64, high: u64, low: u64, close: u64) -> Candle {
    Candle {
        symbol: "BTCUSDT".to_string(),
        open_time: t,
        open: open * SCALE,
        high: high * SCALE,
        low: low * SCALE,
        close: close * SCALE,
        volume: SCALE,
        close_time: t + 59,
    }
}

fn money(units: i64) -> i64 {
    units * SCALE as i64
}

#[test]
fn scenario_partial_then_full_close() {
    // a short opened at price 100 with quantity 10 and equity 1000
    let candles = vec![
        candle(0, 100, 100, 100, 100),
        candle(60, 100, 100, 99, 99),
        candle(120, 99, 99, 97, 97),
    ];
    let script = ScriptedStrategy::new(vec![
        Signal::Open(Side::Short, money(1000)),
        Signal::PartialClose(SCALE / 2, "TP_HALF".to_string()),
        Signal::Close("TP_MAX".to_string()),
    ]);
    let mut engine = BacktestEngine::new(money(1000));
    let trades = engine.run(&candles, script).unwrap();

    assert_eq!(trades.len(), 2);

    // the half close at 99: 1% profit on half the quantity
    assert_eq!(trades[0].quantity, 5 * SCALE);
    assert_eq!(trades[0].entry_price, 100 * SCALE);
    assert_eq!(trades[0].exit_price, 99 * SCALE);
    assert_eq!(trades[0].profit_pct, money(1));
    assert_eq!(trades[0].profit_abs, money(5));
    assert_eq!(trades[0].exit_reason, "TP_HALF");
    assert!(matches!(trades[0].side, Side::Short));

    // the full close at 97: 3% profit on the remaining half
    assert_eq!(trades[1].quantity, 5 * SCALE);
    assert_eq!(trades[1].profit_pct, money(3));
    assert_eq!(trades[1].profit_abs, money(15));
    assert_eq!(trades[1].exit_reason, "TP_MAX");

    assert_eq!(engine.equity(), money(1020));
    assert!(engine.position().is_none());
}

#[test]
fn equity_conservation() {
    let candles = vec![
        candle(0, 100, 100, 100, 100),
        candle(60, 100, 102, 99, 102),
        candle(120, 102, 102, 95, 95),
        candle(180, 95, 99, 94, 99),
    ];
    let script = ScriptedStrategy::new(vec![
        Signal::Open(Side::Short, money(500)),
        Signal::PartialClose(SCALE / 4, "TP_HALF".to_string()),
        Signal::PartialClose(SCALE / 2, "TP_HALF".to_string()),
        Signal::Close("SL".to_string()),
    ]);
    let mut engine = BacktestEngine::new(money(1000));
    let trades = engine.run(&candles, script).unwrap();
    let total: i64 = trades.iter().map(|t| t.profit_abs).sum();
    assert_eq!(engine.equity(), money(1000) + total);
    assert_eq!(engine.equity() - engine.initial_capital(), total);
}

#[test]
fn temporal_ordering() {
    let candles = vec![
        candle(0, 100, 100, 100, 100),
        candle(60, 100, 100, 99, 99),
        candle(120, 99, 99, 98, 98),
        candle(180, 98, 98, 97, 97),
    ];
    let script = ScriptedStrategy::new(vec![
        Signal::Open(Side::Short, money(1000)),
        Signal::PartialClose(SCALE / 2, "TP_HALF".to_string()),
        Signal::PartialClose(SCALE / 2, "TP_HALF".to_string()),
        Signal::Close("TP_MAX".to_string()),
    ]);
    let mut engine = BacktestEngine::new(money(1000));
    let trades = engine.run(&candles, script).unwrap();
    assert_eq!(trades.len(), 3);
    for t in &trades {
        assert!(t.entry_time <= t.exit_time);
    }
    for w in trades.windows(2) {
        assert!(w[0].exit_time <= w[1].exit_time);
    }
}

#[test]
fn flatness_after_full_close() {
    let candles = vec![
        candle(0, 100, 100, 100, 100),
        candle(60, 100, 100, 99, 99),
        candle(120, 99, 99, 98, 98),
    ];
    let script = ScriptedStrategy::new(vec![
        Signal::Open(Side::Short, money(1000)),
        Signal::PartialClose(SCALE / 2, "TP_HALF".to_string()),
        Signal::Close("TP_MAX".to_string()),
    ]);
    let mut engine = BacktestEngine::new(money(1000));
    let trades = engine.run(&candles, script).unwrap();
    assert!(engine.position().is_none());
    // the realized quantities add up to the filled quantity
    let realized: u64 = trades.iter().map(|t| t.quantity).sum();
    assert_eq!(realized, 10 * SCALE);
}

#[test]
fn inapplicable_signals_are_no_ops() {
    let candles = vec![
        candle(0, 100, 100, 100, 100),
        candle(60, 100, 100, 100, 100),
        candle(120, 100, 100, 100, 100),
        candle(180, 100, 100, 99, 99),
    ];
    // an add while flat, a double open, a close while flat afterwards
    let script = ScriptedStrategy::new(vec![
        Signal::AddToPosition(money(100)),
        Signal::Open(Side::Short, money(1000)),
        Signal::Open(Side::Short, money(2000)),
        Signal::Close("SL".to_string()),
    ]);
    let mut engine = BacktestEngine::new(money(1000));
    let trades = engine.run(&candles, script).unwrap();
    assert_eq!(trades.len(), 1);
    // only the first open counted: quantity 10, opened at bar 1
    assert_eq!(trades[0].quantity, 10 * SCALE);
    assert_eq!(trades[0].entry_time, 60);
}

#[test]
fn dust_open_is_ignored() {
    let candles = vec![candle(0, 100, 100, 100, 100)];
    // an amount of one fixed-point unit buys only dust at price 100
    let script = ScriptedStrategy::new(vec![Signal::Open(Side::Short, 100)]);
    let mut engine = BacktestEngine::new(money(1000));
    let trades = engine.run(&candles, script).unwrap();
    assert!(trades.is_empty());
    assert!(engine.position().is_none());
    assert_eq!(engine.equity(), money(1000));
}

#[test]
fn full_fraction_partial_close_clears_position() {
    let candles = vec![
        candle(0, 100, 100, 100, 100),
        candle(60, 100, 100, 99, 99),
    ];
    let script = ScriptedStrategy::new(vec![
        Signal::Open(Side::Short, money(1000)),
        Signal::PartialClose(SCALE, "TP_HALF".to_string()),
    ]);
    let mut engine = BacktestEngine::new(money(1000));
    let trades = engine.run(&candles, script).unwrap();
    assert_eq!(trades.len(), 1);
    assert_eq!(trades[0].quantity, 10 * SCALE);
    assert!(engine.position().is_none());
}

#[test]
fn out_of_range_fraction_is_a_no_op() {
    let candles = vec![
        candle(0, 100, 100, 100, 100),
        candle(60, 100, 100, 99, 99),
    ];
    let script = ScriptedStrategy::new(vec![
        Signal::Open(Side::Short, money(1000)),
        Signal::PartialClose(SCALE + 1, "TP_HALF".to_string()),
    ]);
    let mut engine = BacktestEngine::new(money(1000));
    let trades = engine.run(&candles, script).unwrap();
    assert!(trades.is_empty());
    assert!(engine.position().is_some());
}

#[test]
fn long_side_pnl() {
    let candles = vec![
        candle(0, 100, 100, 100, 100),
        candle(60, 100, 103, 100, 103),
    ];
    let script = ScriptedStrategy::new(vec![
        Signal::Open(Side::Long, money(1000)),
        Signal::Close("TP_MAX".to_string()),
    ]);
    let mut engine = BacktestEngine::new(money(1000));
    let trades = engine.run(&candles, script).unwrap();
    assert_eq!(trades.len(), 1);
    // long: profit = (exit - entry) / entry = 3%
    assert_eq!(trades[0].profit_pct, money(3));
    assert_eq!(trades[0].profit_abs, money(30));
    assert_eq!(engine.equity(), money(1030));
}

#[test]
fn losing_close_reduces_equity() {
    let candles = vec![
        candle(0, 100, 100, 100, 100),
        candle(60, 100, 102, 100, 102),
    ];
    let script = ScriptedStrategy::new(vec![
        Signal::Open(Side::Short, money(1000)),
        Signal::Close("SL".to_string()),
    ]);
    let mut engine = BacktestEngine::new(money(1000));
    let trades = engine.run(&candles, script).unwrap();
    assert_eq!(trades[0].profit_pct, money(-2));
    assert_eq!(trades[0].profit_abs, money(-20));
    assert_eq!(engine.equity(), money(980));
}

#[test]
fn non_positive_capital_is_a_configuration_error() {
    let candles = vec![candle(0, 100, 100, 100, 100)];
    let script = ScriptedStrategy::new(vec![]);
    let mut engine = BacktestEngine::new(0);
    assert!(matches!(
        engine.run(&candles, script),
        Err(BacktestError::ConfigurationError)
    ));
    let script = ScriptedStrategy::new(vec![]);
    let mut engine = BacktestEngine::new(-5);
    assert!(matches!(
        engine.run(&candles, script),
        Err(BacktestError::ConfigurationError)
    ));
}

#[test]
fn unsorted_candles_are_a_data_integrity_error() {
    let candles = vec![candle(60, 100, 100, 100, 100), candle(0, 100, 100, 100, 100)];
    let script = ScriptedStrategy::new(vec![]);
    let mut engine = BacktestEngine::new(money(1000));
    assert!(matches!(
        engine.run(&candles, script),
        Err(BacktestError::DataIntegrityError)
    ));
}

#[test]
fn zero_close_is_a_data_integrity_error() {
    let mut c = candle(0, 100, 100, 0, 100);
    c.close = 0;
    c.low = 0;
    let script = ScriptedStrategy::new(vec![]);
    let mut engine = BacktestEngine::new(money(1000));
    assert!(matches!(
        engine.run(&vec![c], script),
        Err(BacktestError::DataIntegrityError)
    ));
}

#[test]
fn malformed_candle_is_a_data_integrity_error() {
    // high below the close
    let c = Candle {
        symbol: "BTCUSDT".to_string(),
        open_time: 0,
        open: 100 * SCALE,
        high: 99 * SCALE,
        low: 98 * SCALE,
        close: 100 * SCALE,
        volume: SCALE,
        close_time: 59,
    };
    let script = ScriptedStrategy::new(vec![]);
    let mut engine = BacktestEngine::new(money(1000));
    assert!(matches!(
        engine.run(&vec![c], script),
        Err(BacktestError::DataIntegrityError)
    ));
}

#[test]
fn no_error_produces_partial_trades() {
    // a run that fails its structural checks hands out no trade list at all
    let candles = vec![candle(60, 100, 100, 100, 100), candle(0, 100, 100, 100, 100)];
    let script = ScriptedStrategy::new(vec![Signal::Open(Side::Short, money(1000))]);
    let mut engine = BacktestEngine::new(money(1000));
    assert!(engine.run(&candles, script).is_err());
    assert!(engine.trades().is_empty());
    assert_eq!(engine.equity(), money(1000));
}
