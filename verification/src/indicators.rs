//! The indicator pipeline: fixed-window rolling means of the close price and
//! timeframe resampling, both exact over fixed-point integers.

use vstd::prelude::*;
use crate::candle::{Candle, candles_sorted, candles_valid, candle_wf};
use crate::errors::BacktestError;
use vstd::arithmetic::div_mod::{lemma_multiply_divide_le, lemma_div_multiples_vanish, lemma_fundamental_div_mod, lemma_mod_division_less_than_divisor, lemma_div_is_ordered};
use vstd::arithmetic::mul::lemma_mul_is_commutative;

verus! {

/// Sum of `xs[lo..hi]`.
pub open spec fn sum_range(xs: Seq<u64>, lo: int, hi: int) -> int
    decreases hi - lo,
{
    if lo >= hi {
        0
    } else {
        sum_range(xs, lo, hi - 1) + xs[hi - 1]
    }
}

/// First index of the rolling window of width `w` that ends at index `i`
/// inclusive: the window covers however many observations are available
/// (minimum-periods = 1) until `w` of them exist.
pub open spec fn window_lo(i: int, w: int) -> int {
    if i + 1 >= w {
        i + 1 - w
    } else {
        0
    }
}

/// The rolling simple mean of `xs` at index `i` for window width `w`:
/// the mean over `xs[window_lo(i, w)..i + 1]`, rounded toward zero.
pub open spec fn rolling_mean_at(xs: Seq<u64>, w: int, i: int) -> int {
    sum_range(xs, window_lo(i, w), i + 1) / (i + 1 - window_lo(i, w))
}

/// A sum of `hi - lo` values out of `xs` lies between 0 and
/// `(hi - lo) * u64::MAX`.
pub proof fn lemma_sum_range_bounds(xs: Seq<u64>, lo: int, hi: int)
    requires
        lo <= hi,
    ensures
        0 <= sum_range(xs, lo, hi) <= (hi - lo) * (u64::MAX as int),
    decreases hi - lo,
{
    if lo < hi {
        lemma_sum_range_bounds(xs, lo, hi - 1);
    }
}

/// A sum over `[lo, hi)` splits off its first element.
pub proof fn lemma_sum_range_unfold_left(xs: Seq<u64>, lo: int, hi: int)
    requires
        lo < hi,
    ensures
        sum_range(xs, lo, hi) == xs[lo] + sum_range(xs, lo + 1, hi),
    decreases hi - lo,
{
    if lo + 1 == hi {
        assert(sum_range(xs, lo, hi) == sum_range(xs, lo, lo) + xs[lo]);
        assert(sum_range(xs, lo, lo) == 0);
        assert(sum_range(xs, lo + 1, hi) == 0);
    } else {
        lemma_sum_range_unfold_left(xs, lo, hi - 1);
        assert(sum_range(xs, lo, hi) == sum_range(xs, lo, hi - 1) + xs[hi - 1]);
        assert(sum_range(xs, lo + 1, hi) == sum_range(xs, lo + 1, hi - 1) + xs[hi - 1]);
    }
}

/// The rolling mean is a pure function of the input sequence: recomputing it
/// over identical inputs yields identical values at every index.
pub proof fn lemma_rolling_mean_deterministic(xs: Seq<u64>, ys: Seq<u64>, w: int, i: int)
    requires
        xs == ys,
    ensures
        rolling_mean_at(xs, w, i) == rolling_mean_at(ys, w, i),
{
}

/// Rolling simple mean of `xs` with window width `w`, index-aligned with the
/// input; the first `w - 1` means are taken over the observations available
/// so far.
pub fn rolling_mean(xs: &Vec<u64>, w: usize) -> (r: Vec<u64>)
    requires
        w >= 1,
    ensures
        r@.len() == xs@.len(),
        forall|i: int| 0 <= i < xs@.len() ==> r@[i] == rolling_mean_at(xs@, w as int, i),
{
    let n = xs.len();
    let mut out: Vec<u64> = Vec::new();
    let mut acc: u128 = 0;
    let mut i: usize = 0;
    while i < n
        invariant
            w >= 1,
            n == xs@.len(),
            i <= n,
            out@.len() == i,
            acc == sum_range(xs@, window_lo(i - 1, w as int), i as int),
            forall|k: int| 0 <= k < i ==> out@[k] == rolling_mean_at(xs@, w as int, k),
        decreases n - i,
    {
        proof {
            lemma_sum_range_bounds(xs@, window_lo(i - 1, w as int), i as int);
        }
        acc = acc + (xs[i] as u128);
        assert(acc == sum_range(xs@, window_lo(i - 1, w as int), i + 1));
        if i >= w {
            proof {
                lemma_sum_range_unfold_left(xs@, i - w, i + 1);
                lemma_sum_range_bounds(xs@, i - w + 1, i + 1);
            }
            acc = acc - (xs[i - w] as u128);
        }
        let count: usize = if i + 1 >= w {
            w
        } else {
            i + 1
        };
        assert(acc == sum_range(xs@, window_lo(i as int, w as int), i + 1));
        assert(count == i + 1 - window_lo(i as int, w as int));
        proof {
            lemma_sum_range_bounds(xs@, window_lo(i as int, w as int), i + 1);
            lemma_multiply_divide_le(acc as int, count as int, u64::MAX as int);
        }
        let m: u128 = acc / (count as u128);
        out.push(m as u64);
        i = i + 1;
    }
    out
}

/// The close prices of a candle sequence, in order.
pub open spec fn closes(cs: Seq<Candle>) -> Seq<u64> {
    cs.map_values(|c: Candle| c.close)
}

/// The rolling-mean columns the strategy consumes, one value per candle
/// index, for the configured window widths.
pub struct IndicatorSet {
    pub ma_25: Vec<u64>,
    pub ma_50: Vec<u64>,
    pub ma_100: Vec<u64>,
    pub ma_200: Vec<u64>,
    pub ma_400: Vec<u64>,
}

/// One indicator column matches the rolling mean of the closes at its width.
pub open spec fn column_is_rolling_mean(col: Seq<u64>, cs: Seq<Candle>, w: int) -> bool {
    &&& col.len() == cs.len()
    &&& forall|i: int| 0 <= i < cs.len() ==> col[i] == rolling_mean_at(closes(cs), w, i)
}

/// Computes every configured rolling-mean column of the close price,
/// index-aligned 1:1 with the input candles.
pub fn add_indicators(cs: &Vec<Candle>) -> (r: IndicatorSet)
    ensures
        column_is_rolling_mean(r.ma_25@, cs@, 25),
        column_is_rolling_mean(r.ma_50@, cs@, 50),
        column_is_rolling_mean(r.ma_100@, cs@, 100),
        column_is_rolling_mean(r.ma_200@, cs@, 200),
        column_is_rolling_mean(r.ma_400@, cs@, 400),
{
    let n = cs.len();
    let mut cl: Vec<u64> = Vec::new();
    let mut i: usize = 0;
    while i < n
        invariant
            n == cs@.len(),
            i <= n,
            cl@.len() == i,
            forall|k: int| 0 <= k < i ==> cl@[k] == closes(cs@)[k],
        decreases n - i,
    {
        cl.push(cs[i].close);
        i = i + 1;
    }
    proof {
        assert(cl@ =~= closes(cs@));
    }
    IndicatorSet {
        ma_25: rolling_mean(&cl, 25),
        ma_50: rolling_mean(&cl, 50),
        ma_100: rolling_mean(&cl, 100),
        ma_200: rolling_mean(&cl, 200),
        ma_400: rolling_mean(&cl, 400),
    }
}

/// The epoch-aligned bucket index of time `t` for a bucket duration `dur`.
pub open spec fn bucket_of(t: int, dur: int) -> int {
    t / dur
}

/// A bucket in the middle of aggregation. Every field of the output candle is
/// already in its final representation except the volume, which is tracked as
/// an unbounded integer until the bucket is complete.
pub struct Bucket {
    pub symbol: String,
    pub key: int,
    pub open_time: i64,
    pub open: u64,
    pub high: u64,
    pub low: u64,
    pub close: u64,
    pub volume: int,
    pub close_time: i64,
}

/// A fresh bucket holding only candle `c`.
pub open spec fn bucket_new(c: Candle, dur: int) -> Bucket {
    Bucket {
        symbol: c.symbol,
        key: bucket_of(c.open_time as int, dur),
        open_time: (bucket_of(c.open_time as int, dur) * dur) as i64,
        open: c.open,
        high: c.high,
        low: c.low,
        close: c.close,
        volume: c.volume as int,
        close_time: c.close_time,
    }
}

/// Aggregates one more candle into a bucket: open = first, high = max,
/// low = min, close = last, volume = sum.
pub open spec fn bucket_push(b: Bucket, c: Candle) -> Bucket {
    Bucket {
        high: if c.high > b.high { c.high } else { b.high },
        low: if c.low < b.low { c.low } else { b.low },
        close: c.close,
        close_time: c.close_time,
        volume: b.volume + c.volume,
        ..b
    }
}

/// The output candle of a completed bucket.
pub open spec fn bucket_candle(b: Bucket) -> Candle {
    Candle {
        symbol: b.symbol,
        open_time: b.open_time,
        open: b.open,
        high: b.high,
        low: b.low,
        close: b.close,
        volume: b.volume as u64,
        close_time: b.close_time,
    }
}

/// The state of a resampling pass: the completed buckets and the bucket
/// currently being aggregated.
pub struct Resampling {
    pub done: Seq<Candle>,
    pub cur: Option<Bucket>,
}

/// Folds candles `cs[i..]` into the resampling state `st`. `None` exactly
/// when the summed volume of some bucket leaves the fixed-point range.
pub open spec fn resample_from(cs: Seq<Candle>, dur: int, i: int, st: Resampling) -> Option<
    Resampling,
>
    decreases cs.len() - i,
{
    if i < 0 || i >= cs.len() {
        Some(st)
    } else {
        let c = cs[i];
        match st.cur {
            Option::None => resample_from(
                cs,
                dur,
                i + 1,
                Resampling { done: st.done, cur: Some(bucket_new(c, dur)) },
            ),
            Option::Some(b) => {
                if bucket_of(c.open_time as int, dur) == b.key {
                    let nb = bucket_push(b, c);
                    if nb.volume > u64::MAX as int {
                        Option::None
                    } else {
                        resample_from(
                            cs,
                            dur,
                            i + 1,
                            Resampling { done: st.done, cur: Some(nb) },
                        )
                    }
                } else {
                    resample_from(
                        cs,
                        dur,
                        i + 1,
                        Resampling {
                            done: st.done.push(bucket_candle(b)),
                            cur: Some(bucket_new(c, dur)),
                        },
                    )
                }
            },
        }
    }
}

/// The state of a resampling pass before any candle is consumed.
pub open spec fn resample_init() -> Resampling {
    Resampling { done: Seq::empty(), cur: Option::None }
}

/// The resampled candle sequence, or `None` when a bucket's summed volume
/// leaves the fixed-point range.
pub open spec fn resample_spec(cs: Seq<Candle>, dur: int) -> Option<Seq<Candle>> {
    match resample_from(cs, dur, 0, resample_init()) {
        Option::None => Option::None,
        Option::Some(st) => match st.cur {
            Option::None => Some(st.done),
            Option::Some(b) => Some(st.done.push(bucket_candle(b))),
        },
    }
}

/// The exec representation of a bucket matches its model.
spec fn cur_matches(cur: Option<Candle>, gcur: Option<Bucket>, dur: int) -> bool {
    match (cur, gcur) {
        (Option::None, Option::None) => true,
        (Option::Some(b), Option::Some(gb)) => {
            &&& b == bucket_candle(gb)
            &&& 0 <= gb.volume <= u64::MAX as int
            &&& 0 <= gb.key
            &&& gb.key * dur == gb.open_time as int
        },
        _ => false,
    }
}

/// The start of `c`'s epoch-aligned bucket is at or before `c.open_time` and
/// is a nonnegative multiple of `dur`.
proof fn lemma_bucket_start(t: int, dur: int)
    requires
        t >= 0,
        dur >= 1,
    ensures
        0 <= bucket_of(t, dur) * dur <= t,
        (bucket_of(t, dur) * dur) / dur == bucket_of(t, dur),
{
    lemma_fundamental_div_mod(t, dur);
    lemma_mod_division_less_than_divisor(t, dur);
    lemma_mul_is_commutative(dur, bucket_of(t, dur));
    lemma_div_multiples_vanish(bucket_of(t, dur), dur);
}

/// Opens a fresh aggregation candle for the bucket of `c`.
fn start_bucket(c: &Candle, dur: i64) -> (r: Candle)
    requires
        dur >= 1,
        c.open_time >= 0,
    ensures
        r == bucket_candle(bucket_new(*c, dur as int)),
{
    proof {
        lemma_bucket_start(c.open_time as int, dur as int);
    }
    let key: u64 = (c.open_time as u64) / (dur as u64);
    let start: u64 = key * (dur as u64);
    Candle {
        symbol: c.symbol.clone(),
        open_time: start as i64,
        open: c.open,
        high: c.high,
        low: c.low,
        close: c.close,
        volume: c.volume,
        close_time: c.close_time,
    }
}

/// Resamples a candle sequence to fixed, non-overlapping, epoch-aligned
/// buckets of `dur` seconds: open = first, high = max, low = min,
/// close = last, volume = sum. Buckets with no source candle are dropped and
/// the input order is kept. The aggregate candle carries the bucket's start
/// as its open time and the last source candle's close time.
/// `Err(DataIntegrityError)` exactly when a bucket's summed volume leaves the
/// fixed-point range.
pub fn resample(cs: &Vec<Candle>, dur: i64) -> (r: Result<Vec<Candle>, BacktestError>)
    requires
        dur >= 1,
        candles_sorted(cs@),
        forall|k: int| 0 <= k < cs@.len() ==> #[trigger] cs@[k].open_time >= 0,
    ensures
        match r {
            Ok(out) => resample_spec(cs@, dur as int) == Some(out@),
            Err(e) => {
                &&& e == BacktestError::DataIntegrityError
                &&& resample_spec(cs@, dur as int) is None
            },
        },
        (r is Ok && forall|k: int| 0 <= k < cs@.len() ==> candle_wf(#[trigger] cs@[k]))
            ==> candles_valid(r->Ok_0@),
{
    proof {
        if forall|k: int| 0 <= k < cs@.len() ==> candle_wf(#[trigger] cs@[k]) {
            lemma_resample_valid(cs@, dur as int);
        }
    }
    let n = cs.len();
    let mut out: Vec<Candle> = Vec::new();
    let mut cur: Option<Candle> = Option::None;
    let ghost mut gcur: Option<Bucket> = Option::None;
    let mut i: usize = 0;
    while i < n
        invariant
            dur >= 1,
            n == cs@.len(),
            i <= n,
            candles_sorted(cs@),
            forall|k: int| 0 <= k < cs@.len() ==> #[trigger] cs@[k].open_time >= 0,
            cur_matches(cur, gcur, dur as int),
            resample_from(cs@, dur as int, i as int, Resampling { done: out@, cur: gcur })
                == resample_from(cs@, dur as int, 0, resample_init()),
        decreases n - i,
    {
        let ghost st_before = Resampling { done: out@, cur: gcur };
        let c = &cs[i];
        proof {
            lemma_bucket_start(c.open_time as int, dur as int);
        }
        let key: u64 = (c.open_time as u64) / (dur as u64);
        match cur {
            Option::None => {
                cur = Some(start_bucket(c, dur));
                proof {
                    gcur = Some(bucket_new(cs@[i as int], dur as int));
                }
            },
            Option::Some(b) => {
                let ghost gb = gcur->Some_0;
                proof {
                    assert(gb.key * (dur as int) >= 0) by (nonlinear_arith)
                        requires
                            gb.key >= 0,
                            dur >= 1,
                    ;
                    lemma_mul_is_commutative(gb.key, dur as int);
                    lemma_div_multiples_vanish(gb.key, dur as int);
                }
                let bkey: u64 = (b.open_time as u64) / (dur as u64);
                assert(bkey == gb.key);
                if bkey == key {
                    match b.volume.checked_add(c.volume) {
                        Option::None => {
                            proof {
                                assert(bucket_of(cs@[i as int].open_time as int, dur as int)
                                    == gb.key);
                                assert(bucket_push(gb, cs@[i as int]).volume > u64::MAX as int);
                                assert(resample_from(cs@, dur as int, i as int, st_before)
                                    is None);
                                assert(resample_spec(cs@, dur as int) is None);
                            }
                            return Err(BacktestError::DataIntegrityError);
                        },
                        Option::Some(v) => {
                            cur = Some(
                                Candle {
                                    symbol: b.symbol,
                                    open_time: b.open_time,
                                    open: b.open,
                                    high: if c.high > b.high { c.high } else { b.high },
                                    low: if c.low < b.low { c.low } else { b.low },
                                    close: c.close,
                                    volume: v,
                                    close_time: c.close_time,
                                },
                            );
                            proof {
                                gcur = Some(bucket_push(gb, cs@[i as int]));
                            }
                        },
                    }
                } else {
                    out.push(b);
                    cur = Some(start_bucket(c, dur));
                    proof {
                        gcur = Some(bucket_new(cs@[i as int], dur as int));
                    }
                }
            },
        }
        proof {
            assert(resample_from(cs@, dur as int, i as int, st_before) == resample_from(
                cs@,
                dur as int,
                i + 1,
                Resampling { done: out@, cur: gcur },
            ));
        }
        i = i + 1;
    }
    match cur {
        Option::None => Ok(out),
        Option::Some(b) => {
            out.push(b);
            Ok(out)
        },
    }
}

/// The standing facts about a bucket in the middle of aggregation: its open
/// time is the epoch-aligned start of its key's bucket, its volume is still
/// representable, and its price fields satisfy the candle constraints.
pub open spec fn bucket_inv(b: Bucket, dur: int) -> bool {
    &&& 0 <= b.key
    &&& b.open_time as int == b.key * dur
    &&& 0 <= b.volume <= u64::MAX as int
    &&& b.open_time <= b.close_time
    &&& b.high >= b.open
    &&& b.high >= b.close
    &&& b.low <= b.open
    &&& b.low <= b.close
    &&& b.low <= b.high
    &&& b.close >= 1
}

/// Folding well-formed, sorted candles keeps every completed and pending
/// bucket well formed and strictly ordered.
proof fn lemma_resample_from_valid(cs: Seq<Candle>, dur: int, i: int, st: Resampling)
    requires
        dur >= 1,
        0 <= i <= cs.len(),
        candles_sorted(cs),
        forall|k: int| 0 <= k < cs.len() ==> candle_wf(#[trigger] cs[k]) && cs[k].open_time >= 0,
        candles_valid(st.done),
        match st.cur {
            Option::Some(b) => {
                &&& bucket_inv(b, dur)
                &&& i >= 1
                &&& b.key == bucket_of(cs[i - 1].open_time as int, dur)
                &&& forall|k: int|
                    0 <= k < st.done.len() ==> (#[trigger] st.done[k]).open_time < b.open_time
            },
            Option::None => i == 0 && st.done.len() == 0,
        },
    ensures
        match resample_from(cs, dur, i, st) {
            Option::Some(fin) => {
                let out = match fin.cur {
                    Option::None => fin.done,
                    Option::Some(b) => fin.done.push(bucket_candle(b)),
                };
                candles_valid(out)
            },
            Option::None => true,
        },
    decreases cs.len() - i,
{
    if i >= cs.len() {
        match st.cur {
            Option::None => {},
            Option::Some(b) => {
                let out = st.done.push(bucket_candle(b));
                assert(candle_wf(bucket_candle(b)));
                assert forall|x: int, y: int| 0 <= x < y < out.len() implies out[x].open_time
                    < out[y].open_time by {
                    if y < out.len() - 1 {
                        assert(st.done[x].open_time < st.done[y].open_time);
                    }
                }
                assert(candles_valid(out));
            },
        }
    } else {
        let c = cs[i];
        lemma_bucket_start(c.open_time as int, dur);
        let key = bucket_of(c.open_time as int, dur);
        match st.cur {
            Option::None => {
                let nb = bucket_new(c, dur);
                assert(bucket_inv(nb, dur));
                lemma_resample_from_valid(
                    cs,
                    dur,
                    i + 1,
                    Resampling { done: st.done, cur: Some(nb) },
                );
            },
            Option::Some(b) => {
                assert(cs[i - 1].open_time <= c.open_time);
                lemma_div_is_ordered(cs[i - 1].open_time as int, c.open_time as int, dur);
                assert(b.key <= key);
                if key == b.key {
                    let nb = bucket_push(b, c);
                    if nb.volume <= u64::MAX as int {
                        assert(c.open_time as int >= key * dur);
                        assert(bucket_inv(nb, dur));
                        lemma_resample_from_valid(
                            cs,
                            dur,
                            i + 1,
                            Resampling { done: st.done, cur: Some(nb) },
                        );
                    }
                } else {
                    assert(b.key * dur + dur <= key * dur) by (nonlinear_arith)
                        requires
                            b.key < key,
                            dur >= 1,
                    ;
                    let done2 = st.done.push(bucket_candle(b));
                    let nb = bucket_new(c, dur);
                    assert(candle_wf(bucket_candle(b)));
                    assert forall|x: int, y: int| 0 <= x < y < done2.len() implies done2[x].open_time
                        < done2[y].open_time by {
                        if y < done2.len() - 1 {
                            assert(st.done[x].open_time < st.done[y].open_time);
                        }
                    }
                    assert(candles_valid(done2));
                    assert(bucket_inv(nb, dur));
                    assert(forall|k: int|
                        0 <= k < done2.len() ==> (#[trigger] done2[k]).open_time < nb.open_time);
                    lemma_resample_from_valid(
                        cs,
                        dur,
                        i + 1,
                        Resampling { done: done2, cur: Some(nb) },
                    );
                }
            },
        }
    }
}

/// Resampling a sorted sequence of well-formed candles yields a sorted
/// sequence of well-formed candles: the output is itself a valid bar series.
pub proof fn lemma_resample_valid(cs: Seq<Candle>, dur: int)
    requires
        dur >= 1,
        candles_sorted(cs),
        forall|k: int| 0 <= k < cs.len() ==> candle_wf(#[trigger] cs[k]) && cs[k].open_time >= 0,
    ensures
        match resample_spec(cs, dur) {
            Option::Some(out) => candles_valid(out),
            Option::None => true,
        },
{
    lemma_resample_from_valid(cs, dur, 0, resample_init());
}

} // verus!
