//! The decision policies: the short-only moving-average rejection strategy
//! and a scripted replay policy.

use vstd::prelude::*;
use vstd::string::StringExecFns;
use crate::candle::Candle;
use crate::engine::{
    Signal, SignalView, Side, Strategy, Position, PositionView, fits_i64, run_to, RunState,
    EngineView,
};
use crate::fixed::{SCALE, mul_div_u64};

verus! {

/// No signal is produced before this bar index: the largest moving-average
/// window must be fully populated first.
pub const WARMUP_INDEX: usize = 400;

/// At most this many fills per position: the initial entry plus one
/// pyramided add.
pub const MAX_FILLS: usize = 2;

/// The fraction of a position realized when the half take-profit fires.
pub const HALF_FRACTION: u64 = 50_000_000;

/// A quarter of the equity, rounded toward zero: the notional committed on an
/// initial entry.
pub open spec fn quarter(e: int) -> int {
    if e >= 0 {
        e / 4
    } else {
        -((-e) / 4)
    }
}

/// Pyramiding fires when fewer than [`MAX_FILLS`] fills are recorded and the
/// close has moved against the short by at least 2% of the first fill price.
pub open spec fn pyramid_cond(p: PositionView, c: Candle) -> bool {
    &&& p.entries.len() < MAX_FILLS as int
    &&& (c.close as int) * 100 >= p.entries[0].price * 102
}

/// The notional that replicates the first fill's quantity at the current
/// close price.
pub open spec fn pyramid_amount(p: PositionView, c: Candle) -> int {
    p.entries[0].quantity * (c.close as int) / (SCALE as int)
}

/// The stop loss fires when the close is at or beyond 2% against the
/// average entry price.
pub open spec fn stop_loss_cond(p: PositionView, c: Candle) -> bool {
    (c.close as int) * 100 >= p.average_entry_price * 102
}

/// The full take profit fires at 3% short profit:
/// `(avg - close) / avg >= 3/100`, written without division.
pub open spec fn tp_max_cond(p: PositionView, c: Candle) -> bool {
    p.average_entry_price * 97 >= (c.close as int) * 100
}

/// The half take profit fires at 1% short profit.
pub open spec fn tp_half_cond(p: PositionView, c: Candle) -> bool {
    p.average_entry_price * 99 >= (c.close as int) * 100
}

/// Once the half take profit was taken, the stop moves to break-even.
pub open spec fn breakeven_cond(p: PositionView, c: Candle) -> bool {
    c.close as int >= p.average_entry_price
}

/// The short-only moving-average rejection strategy.
///
/// While flat it waits for a sojourn below the 25-bar moving average
/// followed by a bar whose high touches the average while the close stays
/// below it — a rejection wick — and then opens a short with a quarter of
/// the equity. While in a position it applies, in this fixed order:
/// pyramiding, the stop loss, the full take profit, the half take profit,
/// and the break-even stop.
///
/// The entry check reads the below-average flag as the earlier bars left it,
/// and an entry resets the flag, so each entry needs a fresh sojourn below
/// the average. The half-profit flag resets whenever the position is flat.
pub struct MATouchStrategy {
    /// The 25-bar rolling mean column, index-aligned with the candles.
    pub ma_25: Vec<u64>,
    /// Whether the close sat below the moving average on an earlier bar.
    pub was_below_ma: bool,
    /// Whether the half take profit was already taken for the open position.
    pub partial_profit_taken: bool,
}

impl MATouchStrategy {
    /// A fresh strategy over its 25-bar moving-average column.
    pub fn new(ma_25: Vec<u64>) -> (r: MATouchStrategy)
        ensures
            r.ma_25 == ma_25,
            !r.was_below_ma,
            !r.partial_profit_taken,
    {
        MATouchStrategy { ma_25, was_below_ma: false, partial_profit_taken: false }
    }
}

/// The entry trigger: a prior sojourn below the average, a high that touches
/// or exceeds it, and a close that stays below it.
pub open spec fn entry_cond(s: MATouchStrategy, c: Candle, ma: u64) -> bool {
    s.was_below_ma && c.high >= ma && c.close < ma
}

impl Strategy for MATouchStrategy {
    open spec fn spec_cover(&self, n: int) -> bool {
        self.ma_25@.len() == n
    }

    open spec fn spec_signal(
        &self,
        c: Candle,
        index: int,
        pos: Option<PositionView>,
        equity: int,
    ) -> SignalView {
        if index < WARMUP_INDEX as int || index >= self.ma_25@.len() {
            SignalView::Hold
        } else {
            let ma = self.ma_25@[index];
            match pos {
                Option::None => {
                    if entry_cond(*self, c, ma) {
                        SignalView::Open(Side::Short, quarter(equity))
                    } else {
                        SignalView::Hold
                    }
                },
                Option::Some(p) => {
                    if pyramid_cond(p, c) && fits_i64(pyramid_amount(p, c)) {
                        SignalView::AddToPosition(pyramid_amount(p, c))
                    } else if stop_loss_cond(p, c) {
                        SignalView::Close("SL"@)
                    } else if tp_max_cond(p, c) {
                        SignalView::Close("TP_MAX"@)
                    } else if tp_half_cond(p, c) && !self.partial_profit_taken {
                        SignalView::PartialClose(HALF_FRACTION as int, "TP_HALF"@)
                    } else if self.partial_profit_taken && breakeven_cond(p, c) {
                        SignalView::Close("SL_Breakeven"@)
                    } else {
                        SignalView::Hold
                    }
                },
            }
        }
    }

    open spec fn spec_next(
        &self,
        c: Candle,
        index: int,
        pos: Option<PositionView>,
        equity: int,
    ) -> MATouchStrategy {
        if index < WARMUP_INDEX as int || index >= self.ma_25@.len() {
            *self
        } else {
            let ma = self.ma_25@[index];
            match pos {
                Option::None => {
                    let below = if entry_cond(*self, c, ma) {
                        false
                    } else if c.close < ma {
                        true
                    } else if c.low > ma {
                        false
                    } else {
                        self.was_below_ma
                    };
                    MATouchStrategy {
                        ma_25: self.ma_25,
                        was_below_ma: below,
                        partial_profit_taken: false,
                    }
                },
                Option::Some(p) => {
                    let fired = !(pyramid_cond(p, c) && fits_i64(pyramid_amount(p, c)))
                        && !stop_loss_cond(p, c) && !tp_max_cond(p, c) && tp_half_cond(p, c)
                        && !self.partial_profit_taken;
                    MATouchStrategy {
                        ma_25: self.ma_25,
                        was_below_ma: self.was_below_ma,
                        partial_profit_taken: self.partial_profit_taken || fired,
                    }
                },
            }
        }
    }

    fn cover(&self, n: usize) -> (r: bool) {
        self.ma_25.len() == n
    }

    fn update(
        &mut self,
        candle: &Candle,
        index: usize,
        position: Option<&Position>,
        equity: i64,
    ) -> (s: Signal) {
        if index < WARMUP_INDEX || index >= self.ma_25.len() {
            return Signal::Hold;
        }
        let ma = self.ma_25[index];
        match position {
            Option::None => {
                // the half-profit flag resets whenever the position is flat
                self.partial_profit_taken = false;
                if self.was_below_ma && candle.high >= ma && candle.close < ma {
                    self.was_below_ma = false;
                    let amount: i64 = if equity >= 0 {
                        ((equity as u64) / 4) as i64
                    } else {
                        let m: u128 = (-(equity as i128)) as u128;
                        -((m / 4) as i64)
                    };
                    Signal::Open(Side::Short, amount)
                } else {
                    if candle.close < ma {
                        self.was_below_ma = true;
                    } else if candle.low > ma {
                        self.was_below_ma = false;
                    }
                    Signal::Hold
                }
            },
            Option::Some(p) => {
                if p.entries.len() < MAX_FILLS {
                    let first = p.entries[0];
                    if (candle.close as u128) * 100 >= (first.price as u128) * 102 {
                        match mul_div_u64(first.quantity, candle.close, SCALE) {
                            Option::Some(a) => {
                                if a <= i64::MAX as u64 {
                                    return Signal::AddToPosition(a as i64);
                                }
                            },
                            Option::None => {},
                        }
                    }
                }
                if (candle.close as u128) * 100 >= (p.average_entry_price as u128) * 102 {
                    return Signal::Close(String::from_str("SL"));
                }
                if (p.average_entry_price as u128) * 97 >= (candle.close as u128) * 100 {
                    return Signal::Close(String::from_str("TP_MAX"));
                }
                if (p.average_entry_price as u128) * 99 >= (candle.close as u128) * 100
                    && !self.partial_profit_taken {
                    self.partial_profit_taken = true;
                    return Signal::PartialClose(HALF_FRACTION, String::from_str("TP_HALF"));
                }
                if self.partial_profit_taken && candle.close >= p.average_entry_price {
                    return Signal::Close(String::from_str("SL_Breakeven"));
                }
                Signal::Hold
            },
        }
    }
}

/// A replay policy: emits a fixed list of signals, one per bar index, and
/// holds once the script is exhausted. It drives the engine through an exact
/// scenario independently of any indicator.
pub struct ScriptedStrategy {
    pub signals: Vec<Signal>,
}

/// An exact copy of a signal.
fn clone_signal(s: &Signal) -> (r: Signal)
    ensures
        r@ == s@,
{
    match s {
        Signal::Hold => Signal::Hold,
        Signal::Open(side, amount) => Signal::Open(*side, *amount),
        Signal::AddToPosition(amount) => Signal::AddToPosition(*amount),
        Signal::Close(reason) => Signal::Close(reason.clone()),
        Signal::PartialClose(frac, reason) => Signal::PartialClose(*frac, reason.clone()),
    }
}

impl ScriptedStrategy {
    /// A replay policy over the given per-index signals.
    pub fn new(signals: Vec<Signal>) -> (r: ScriptedStrategy)
        ensures
            r.signals == signals,
    {
        ScriptedStrategy { signals }
    }
}

impl Strategy for ScriptedStrategy {
    open spec fn spec_cover(&self, n: int) -> bool {
        true
    }

    open spec fn spec_signal(
        &self,
        c: Candle,
        index: int,
        pos: Option<PositionView>,
        equity: int,
    ) -> SignalView {
        if 0 <= index < self.signals@.len() {
            self.signals@[index]@
        } else {
            SignalView::Hold
        }
    }

    open spec fn spec_next(
        &self,
        c: Candle,
        index: int,
        pos: Option<PositionView>,
        equity: int,
    ) -> ScriptedStrategy {
        *self
    }

    fn cover(&self, n: usize) -> (r: bool) {
        true
    }

    fn update(
        &mut self,
        candle: &Candle,
        index: usize,
        position: Option<&Position>,
        equity: i64,
    ) -> (s: Signal) {
        if index < self.signals.len() {
            clone_signal(&self.signals[index])
        } else {
            Signal::Hold
        }
    }
}

/// Warm-up suppression: below the warm-up index the strategy produces no
/// signal at all, whatever the bar, the position or the equity.
pub proof fn lemma_warmup_suppression(
    s: MATouchStrategy,
    c: Candle,
    index: int,
    pos: Option<PositionView>,
    equity: int,
)
    requires
        index < WARMUP_INDEX as int,
    ensures
        s.spec_signal(c, index, pos, equity) == SignalView::Hold,
{
}

/// Warm-up suppression over a whole run: replaying at most `WARMUP_INDEX`
/// candles through the strategy leaves the engine state — trades and equity
/// included — exactly as it started. In particular a bar sequence shorter
/// than the warm-up yields an empty trade list.
pub proof fn lemma_warmup_run(s: MATouchStrategy, st: EngineView, cs: Seq<Candle>, n: int)
    requires
        0 <= n <= WARMUP_INDEX as int,
    ensures
        run_to(s, st, cs, n) == (RunState { strat: s, st, ok: true }),
    decreases n,
{
    if n > 0 {
        lemma_warmup_run(s, st, cs, n - 1);
    }
}

/// Pyramiding cap: once a position records [`MAX_FILLS`] fills, no further
/// add-to-position signal is produced, however far the price has moved.
pub proof fn lemma_pyramiding_cap(
    s: MATouchStrategy,
    c: Candle,
    index: int,
    p: PositionView,
    equity: int,
)
    requires
        p.entries.len() >= MAX_FILLS as int,
    ensures
        !(s.spec_signal(c, index, Option::Some(p), equity) is AddToPosition),
{
}

/// Stop-loss precedence: when the stop-loss condition holds on a bar and
/// pyramiding does not fire, the one signal produced is `Close("SL")` —
/// whatever the take-profit conditions or the half-profit flag would say.
pub proof fn lemma_stop_loss_precedence(
    s: MATouchStrategy,
    c: Candle,
    index: int,
    p: PositionView,
    equity: int,
)
    requires
        WARMUP_INDEX as int <= index < s.ma_25@.len(),
        stop_loss_cond(p, c),
        !(pyramid_cond(p, c) && fits_i64(pyramid_amount(p, c))),
    ensures
        s.spec_signal(c, index, Option::Some(p), equity) == SignalView::Close("SL"@),
{
}

} // verus!
