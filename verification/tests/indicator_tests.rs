use backtester::candle::Candle;
use backtester::engine::{BacktestEngine, Side, Signal};
use backtester::strategy::MATouchStrategy;
use backtester::errors::BacktestError;
use backtester::fixed::SCALE;
use backtester::indicators::{add_indicators, resample, rolling_mean};
use backtester::strategy::ScriptedStrategy;

fn candle(t: i64, open: u64, high: u64, low: u64, close: u64, volume: u64) -> Candle {
    Candle {
        symbol: "BTCUSDT".to_string(),
        open_time: t,
        open,
        high,
        low,
        close,
        volume,
        close_time: t + 59,
    }
}

#[test]
fn rolling_mean_exact_values() {
    let xs = vec![2u64, 4, 6, 8];
    assert_eq!(rolling_mean(&xs, 2), vec![2, 3, 5, 7]);
    assert_eq!(rolling_mean(&xs, 3), vec![2, 3, 4, 6]);
}

#[test]
fn rolling_mean_partial_windows_use_available_observations() {
    // minimum-periods = 1: the first w - 1 means average what exists so far
    let xs = vec![10u64, 20, 30, 40, 50];
    assert_eq!(rolling_mean(&xs, 4), vec![10, 15, 20, 25, 35]);
}

#[test]
fn rolling_mean_truncates_toward_zero() {
    let xs = vec![1u64, 2];
    // (1 + 2) / 2 rounds down
    assert_eq!(rolling_mean(&xs, 2), vec![1, 1]);
}

#[test]
fn rolling_mean_recomputation_is_identical() {
    let xs: Vec<u64> = (0..500u64).map(|i| i * 31 % 97 + 1).collect();
    let a = rolling_mean(&xs, 25);
    let b = rolling_mean(&xs, 25);
    assert_eq!(a, b);
}

#[test]
fn add_indicators_aligns_all_columns() {
    let candles: Vec<Candle> = (0..30)
        .map(|i| candle(60 * i as i64, 100, 110, 90, 100 + i as u64, 1))
        .collect();
    let set = add_indicators(&candles);
    assert_eq!(set.ma_25.len(), 30);
    assert_eq!(set.ma_50.len(), 30);
    assert_eq!(set.ma_100.len(), 30);
    assert_eq!(set.ma_200.len(), 30);
    assert_eq!(set.ma_400.len(), 30);
    // the first value of every column is the first close itself
    assert_eq!(set.ma_25[0], 100);
    assert_eq!(set.ma_400[0], 100);
    // index 2 of ma_25: mean of 100, 101, 102
    assert_eq!(set.ma_25[2], 101);
}

#[test]
fn resample_aggregates_buckets() {
    let candles = vec![
        candle(0, 10, 15, 9, 12, 100),
        candle(60, 12, 20, 11, 18, 50),
        candle(3600, 18, 19, 17, 19, 25),
    ];
    let out = resample(&candles, 3600).unwrap();
    assert_eq!(out.len(), 2);

    // first bucket: the two candles before 3600
    assert_eq!(out[0].open_time, 0);
    assert_eq!(out[0].open, 10);
    assert_eq!(out[0].high, 20);
    assert_eq!(out[0].low, 9);
    assert_eq!(out[0].close, 18);
    assert_eq!(out[0].volume, 150);
    assert_eq!(out[0].close_time, 119);

    // second bucket
    assert_eq!(out[1].open_time, 3600);
    assert_eq!(out[1].open, 18);
    assert_eq!(out[1].volume, 25);
}

#[test]
fn resample_drops_empty_buckets_and_keeps_order() {
    // a gap of many buckets between the two candles
    let candles = vec![candle(0, 10, 15, 9, 12, 1), candle(36000, 18, 19, 17, 19, 1)];
    let out = resample(&candles, 3600).unwrap();
    assert_eq!(out.len(), 2);
    assert_eq!(out[0].open_time, 0);
    assert_eq!(out[1].open_time, 36000);
    assert!(out[0].open_time < out[1].open_time);
}

#[test]
fn resample_aligns_buckets_to_the_epoch() {
    // a candle at 5400 falls in the bucket starting at 3600, not at 5400
    let candles = vec![candle(5400, 10, 15, 9, 12, 1)];
    let out = resample(&candles, 3600).unwrap();
    assert_eq!(out.len(), 1);
    assert_eq!(out[0].open_time, 3600);
}

#[test]
fn resample_is_deterministic() {
    let candles: Vec<Candle> = (0..100)
        .map(|i| candle(60 * i as i64, 10 + i as u64, 20 + i as u64, 5, 15, 3))
        .collect();
    let a = resample(&candles, 600).unwrap();
    let b = resample(&candles, 600).unwrap();
    assert_eq!(a.len(), b.len());
    for (x, y) in a.iter().zip(b.iter()) {
        assert_eq!(x.open_time, y.open_time);
        assert_eq!(x.open, y.open);
        assert_eq!(x.high, y.high);
        assert_eq!(x.low, y.low);
        assert_eq!(x.close, y.close);
        assert_eq!(x.volume, y.volume);
    }
}

#[test]
fn resample_volume_overflow_is_a_data_integrity_error() {
    let candles = vec![
        candle(0, 10, 15, 9, 12, u64::MAX),
        candle(60, 12, 20, 11, 18, 1),
    ];
    assert!(matches!(
        resample(&candles, 3600),
        Err(BacktestError::DataIntegrityError)
    ));
}

#[test]
fn scaled_profit_percentages_truncate() {
    // a closure at entry 3.0, exit 2.0 on a short: the gain is a third,
    // 33.33...% — the stored scaled percent truncates toward zero
    let candles = vec![
        Candle {
            symbol: "BTCUSDT".to_string(),
            open_time: 0,
            open: 3 * SCALE,
            high: 3 * SCALE,
            low: 3 * SCALE,
            close: 3 * SCALE,
            volume: 1,
            close_time: 59,
        },
        Candle {
            symbol: "BTCUSDT".to_string(),
            open_time: 60,
            open: 2 * SCALE,
            high: 2 * SCALE,
            low: 2 * SCALE,
            close: 2 * SCALE,
            volume: 1,
            close_time: 119,
        },
    ];
    let script = ScriptedStrategy::new(vec![
        Signal::Open(Side::Short, 30 * SCALE as i64),
        Signal::Close("TP_MAX".to_string()),
    ]);
    let mut engine = BacktestEngine::new(100 * SCALE as i64);
    let trades = engine.run(&candles, script).unwrap();
    assert_eq!(trades.len(), 1);
    assert_eq!(trades[0].quantity, 10 * SCALE);
    // 100 * (1/3) in fixed-point percent, truncated
    assert_eq!(trades[0].profit_pct, 3333333333);
    assert_eq!(trades[0].profit_abs, 10 * SCALE as i64);
}

#[test]
fn resampled_series_feeds_a_run() {
    // a month of flat one-minute candles: resample to hours, compute the
    // rolling means, and run the strategy — a flat market never triggers an
    // entry, so the run succeeds with no trades
    let minute: Vec<Candle> = (0..30_000)
        .map(|i| {
            candle(
                60 * i as i64,
                100 * SCALE,
                100 * SCALE,
                100 * SCALE,
                100 * SCALE,
                3,
            )
        })
        .collect();
    let hourly = resample(&minute, 3600).unwrap();
    assert_eq!(hourly.len(), 500);
    let indicators = add_indicators(&hourly);
    let strategy = MATouchStrategy::new(indicators.ma_25);
    let mut engine = BacktestEngine::new(1000 * SCALE as i64);
    let trades = engine.run(&hourly, strategy).unwrap();
    assert!(trades.is_empty());
    assert_eq!(engine.equity(), 1000 * SCALE as i64);
}
