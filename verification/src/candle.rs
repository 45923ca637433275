//! The bar data model: one OHLCV observation per fixed time interval.

use vstd::prelude::*;

verus! {

/// One OHLCV observation for a fixed time interval of one instrument.
///
/// Times are POSIX seconds; prices and the volume are fixed-point integers
/// with [`crate::fixed::SCALE`] units per 1.0. A candle is immutable once
/// loaded.
pub struct Candle {
    pub symbol: String,
    pub open_time: i64,
    pub open: u64,
    pub high: u64,
    pub low: u64,
    pub close: u64,
    pub volume: u64,
    pub close_time: i64,
}

/// Structural soundness of one candle: the interval is ordered, the high and
/// low bound the other prices, and the close is positive (a zero close would
/// later divide a fill quantity by zero).
pub open spec fn candle_wf(c: Candle) -> bool {
    &&& c.open_time <= c.close_time
    &&& c.high >= c.open
    &&& c.high >= c.close
    &&& c.low <= c.open
    &&& c.low <= c.close
    &&& c.low <= c.high
    &&& c.close >= 1
}

/// Open times are strictly increasing across the sequence: non-decreasing
/// with no duplicate open time.
pub open spec fn candles_sorted(cs: Seq<Candle>) -> bool {
    forall|i: int, j: int| 0 <= i < j < cs.len() ==> cs[i].open_time < cs[j].open_time
}

/// The structural validity of a whole bar sequence, checked once before a run.
pub open spec fn candles_valid(cs: Seq<Candle>) -> bool {
    &&& candles_sorted(cs)
    &&& forall|i: int| 0 <= i < cs.len() ==> candle_wf(#[trigger] cs[i])
}

/// Strictly increasing adjacent open times imply the pairwise ordering.
pub proof fn lemma_adjacent_sorted(cs: Seq<Candle>)
    requires
        forall|k: int| 0 <= k && k + 1 < cs.len() ==> #[trigger] cs[k].open_time < cs[k + 1].open_time,
    ensures
        candles_sorted(cs),
    decreases cs.len(),
{
    if cs.len() > 1 {
        let head = cs.drop_last();
        assert(forall|k: int| 0 <= k && k + 1 < head.len()
            ==> #[trigger] head[k].open_time < head[k + 1].open_time);
        lemma_adjacent_sorted(head);
        assert forall|i: int, j: int| 0 <= i < j < cs.len()
            implies cs[i].open_time < cs[j].open_time
        by {
            if j < cs.len() - 1 {
                assert(head[i].open_time < head[j].open_time);
            } else {
                if i < j - 1 {
                    assert(head[i].open_time < head[j - 1].open_time);
                }
                assert(cs[j - 1].open_time < cs[j].open_time);
            }
        }
    }
}

/// Checks the structural soundness of one candle.
pub fn candle_ok(c: &Candle) -> (r: bool)
    ensures
        r == candle_wf(*c),
{
    c.open_time <= c.close_time && c.high >= c.open && c.high >= c.close && c.low <= c.open
        && c.low <= c.close && c.low <= c.high && c.close >= 1
}

/// Checks the structural validity of a whole bar sequence: per-candle
/// soundness and strictly increasing open times.
pub fn candles_ok(cs: &Vec<Candle>) -> (r: bool)
    ensures
        r == candles_valid(cs@),
{
    let n = cs.len();
    let mut i: usize = 0;
    while i < n
        invariant
            n == cs@.len(),
            i <= n,
            forall|k: int| 0 <= k < i ==> candle_wf(#[trigger] cs@[k]),
            forall|k: int| 0 <= k && k + 1 < i ==> #[trigger] cs@[k].open_time < cs@[k + 1].open_time,
        decreases n - i,
    {
        if !candle_ok(&cs[i]) {
            return false;
        }
        if i > 0 && cs[i - 1].open_time >= cs[i].open_time {
            return false;
        }
        i += 1;
    }
    proof {
        lemma_adjacent_sorted(cs@);
    }
    true
}

} // verus!
