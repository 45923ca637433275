use backtester::candle::Candle;
use backtester::engine::{BacktestEngine, Position, Side, Signal, Strategy};
use backtester::errors::BacktestError;
use backtester::fixed::SCALE;
use backtester::strategy::{MATouchStrategy, HALF_FRACTION};

fn candle(t: i64, open: u64, high: u64, low: u64, close: u64) -> Candle {
    Candle {
        symbol: "BTCUSDT".to_string(),
        open_time: t,
        open: open * SCALE,
        high: high * SCALE,
        low: low * SCALE,
        close: close * SCALE,
        volume: SCALE,
        close_time: t + 59,
    }
}

fn money(units: i64) -> i64 {
    units * SCALE as i64
}

/// 100.5 in fixed-point units: just above the prices used as closes below.
fn ma_above() -> u64 {
    100 * SCALE + SCALE / 2
}

/// A candle series of `n` bars at 60-second spacing, all flat at 100, with
/// the bars from index 400 on replaced by the given tail.
fn series(n: usize, tail: &[(u64, u64, u64, u64)]) -> Vec<Candle> {
    let mut out = Vec::new();
    for i in 0..n {
        out.push(candle(60 * i as i64, 100, 100, 100, 100));
    }
    for (k, &(o, h, l, c)) in tail.iter().enumerate() {
        let t = 60 * (n + k) as i64;
        out.push(candle(t, o, h, l, c));
    }
    out
}

#[test]
fn warmup_produces_no_signal() {
    let mut s = MATouchStrategy::new(vec![ma_above(); 400]);
    // force the most signal-friendly state: a prior sojourn below the average
    s.was_below_ma = true;
    let c = candle(0, 100, 101, 99, 100);
    let sig = s.update(&c, 399, None, money(1000));
    assert!(matches!(sig, Signal::Hold));
}

#[test]
fn short_series_yields_no_trades() {
    let candles = series(300, &[]);
    let strategy = MATouchStrategy::new(vec![ma_above(); 300]);
    let mut engine = BacktestEngine::new(money(1000));
    let trades = engine.run(&candles, strategy).unwrap();
    assert!(trades.is_empty());
    assert_eq!(engine.equity(), money(1000));
    assert!(engine.position().is_none());
}

#[test]
fn column_length_mismatch_is_a_data_integrity_error() {
    let candles = series(300, &[]);
    let strategy = MATouchStrategy::new(vec![ma_above(); 299]);
    let mut engine = BacktestEngine::new(money(1000));
    assert!(matches!(
        engine.run(&candles, strategy),
        Err(BacktestError::DataIntegrityError)
    ));
}

#[test]
fn entry_then_half_then_full_take_profit() {
    // bar 400 dips below the average, bar 401 rejects at it (entry at 100),
    // bar 402 hits 1% profit (half close), bar 403 hits 3% (full close)
    let candles = series(
        400,
        &[
            (100, 100, 99, 100),
            (100, 101, 99, 100),
            (100, 100, 98, 99),
            (99, 99, 96, 97),
        ],
    );
    let strategy = MATouchStrategy::new(vec![ma_above(); 404]);
    let mut engine = BacktestEngine::new(money(4000));
    let trades = engine.run(&candles, strategy).unwrap();

    assert_eq!(trades.len(), 2);
    assert_eq!(trades[0].exit_reason, "TP_HALF");
    assert_eq!(trades[0].quantity, 5 * SCALE);
    assert_eq!(trades[0].entry_price, 100 * SCALE);
    assert_eq!(trades[0].profit_abs, money(5));
    assert_eq!(trades[1].exit_reason, "TP_MAX");
    assert_eq!(trades[1].quantity, 5 * SCALE);
    assert_eq!(trades[1].profit_abs, money(15));
    assert_eq!(engine.equity(), money(4020));
    assert!(engine.position().is_none());
}

#[test]
fn pyramids_once_then_stops_out() {
    // entry at 100 (quantity 10), one pyramided add at 102 (quantity 10,
    // average 101), then the stop loss at 104 on the full 20
    let candles = series(
        400,
        &[
            (100, 100, 99, 100),
            (100, 101, 99, 100),
            (100, 102, 99, 102),
            (102, 104, 101, 104),
        ],
    );
    let strategy = MATouchStrategy::new(vec![ma_above(); 404]);
    let mut engine = BacktestEngine::new(money(4000));
    let trades = engine.run(&candles, strategy).unwrap();

    assert_eq!(trades.len(), 1);
    assert_eq!(trades[0].exit_reason, "SL");
    // the quantity shows exactly two fills of 10 each: the cap held
    assert_eq!(trades[0].quantity, 20 * SCALE);
    assert_eq!(trades[0].entry_price, 101 * SCALE);
    assert_eq!(trades[0].profit_abs, money(-60));
    // (101 - 104) / 101 in scaled percent, rounded toward zero
    assert_eq!(trades[0].profit_pct, -297029702);
    assert_eq!(engine.equity(), money(3940));
}

fn two_fill_position() -> Position {
    let mut p = Position::new("BTCUSDT".to_string(), Side::Short, 100 * SCALE, 10 * SCALE, 0);
    p.add(102 * SCALE, 10 * SCALE, 60);
    p
}

#[test]
fn no_third_add_after_the_cap() {
    let mut s = MATouchStrategy::new(vec![ma_above(); 401]);
    let p = two_fill_position();
    // a further 2% adverse move from the first fill price
    let c = candle(24000, 104, 105, 103, 104);
    let sig = s.update(&c, 400, Some(&p), money(4000));
    assert!(!matches!(sig, Signal::AddToPosition(_)));
    assert!(matches!(sig, Signal::Close(ref r) if r == "SL"));
}

#[test]
fn stop_loss_precedes_breakeven() {
    let mut s = MATouchStrategy::new(vec![ma_above(); 401]);
    s.partial_profit_taken = true;
    let p = two_fill_position();
    // close 104 satisfies both the stop loss (>= 101 * 1.02) and the
    // break-even condition (>= 101); exactly one signal comes out: "SL"
    let c = candle(24000, 104, 105, 103, 104);
    let sig = s.update(&c, 400, Some(&p), money(4000));
    assert!(matches!(sig, Signal::Close(ref r) if r == "SL"));
}

#[test]
fn breakeven_fires_after_half_profit() {
    let mut s = MATouchStrategy::new(vec![ma_above(); 402]);
    let p = Position::new("BTCUSDT".to_string(), Side::Short, 100 * SCALE, 10 * SCALE, 0);

    // 1% profit: the half take-profit fires once and sets the flag
    let c1 = candle(24000, 99, 99, 98, 99);
    let sig1 = s.update(&c1, 400, Some(&p), money(4000));
    assert!(matches!(sig1, Signal::PartialClose(f, ref r) if f == HALF_FRACTION && r == "TP_HALF"));
    assert!(s.partial_profit_taken);

    // back at the average entry price: the break-even stop fires
    let c2 = candle(24060, 99, 100, 99, 100);
    let sig2 = s.update(&c2, 401, Some(&p), money(4000));
    assert!(matches!(sig2, Signal::Close(ref r) if r == "SL_Breakeven"));
}

#[test]
fn half_profit_fires_only_once() {
    let mut s = MATouchStrategy::new(vec![ma_above(); 402]);
    let p = Position::new("BTCUSDT".to_string(), Side::Short, 100 * SCALE, 10 * SCALE, 0);
    let c = candle(24000, 99, 99, 98, 99);
    let sig1 = s.update(&c, 400, Some(&p), money(4000));
    assert!(matches!(sig1, Signal::PartialClose(_, _)));
    let c2 = candle(24060, 99, 99, 98, 99);
    let sig2 = s.update(&c2, 401, Some(&p), money(4000));
    assert!(matches!(sig2, Signal::Hold));
}

#[test]
fn position_add_recomputes_weighted_average() {
    let p = two_fill_position();
    assert_eq!(p.average_entry_price, 101 * SCALE);
    assert_eq!(p.total_quantity, 20 * SCALE);
    assert_eq!(p.entries.len(), 2);
    assert_eq!(p.entry_price, 100 * SCALE);
    assert_eq!(p.quantity, 10 * SCALE);
}

#[test]
fn position_reduce_tracks_realized_quantity() {
    let mut p = two_fill_position();
    p.reduce(5 * SCALE);
    assert_eq!(p.total_quantity, 15 * SCALE);
    assert_eq!(p.closed_quantity, 5 * SCALE);
}
