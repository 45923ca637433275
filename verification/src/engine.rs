//! The position/trade lifecycle and the backtest execution engine.
//!
//! The engine replays candles in order through a [`Strategy`], applies each
//! returned [`Signal`] to the open position and the equity ledger, and
//! collects the realized [`Trade`]s. Equity changes only on realized trades;
//! an open position is never marked to market.

use vstd::prelude::*;
use crate::candle::{Candle, candle_wf, candles_valid, candles_ok};
use crate::errors::BacktestError;
use crate::fixed::{SCALE, EPSILON_UNITS, mul_div_u64};
use vstd::arithmetic::div_mod::{lemma_div_is_ordered, lemma_multiply_divide_le, lemma_div_by_self, lemma_div_by_multiple};

verus! {

/// The direction of an exposure.
#[derive(Clone, Copy, Debug, PartialEq, Eq, Structural)]
pub enum Side {
    Long,
    Short,
}

/// One execution event (price, quantity, time) contributing to a position.
#[derive(Clone, Copy, Debug)]
pub struct Fill {
    pub price: u64,
    pub quantity: u64,
    pub time: i64,
}

/// An open exposure: its fills, the quantity-weighted average entry price,
/// the quantity still open, and the quantity already realized.
pub struct Position {
    pub symbol: String,
    pub side: Side,
    pub entry_price: u64,
    pub quantity: u64,
    pub entry_time: i64,
    pub average_entry_price: u64,
    pub total_quantity: u64,
    pub entries: Vec<Fill>,
    pub closed_quantity: u64,
}

/// The mathematical value of a [`Position`].
pub struct PositionView {
    pub symbol: Seq<char>,
    pub side: Side,
    pub entry_price: int,
    pub quantity: int,
    pub entry_time: int,
    pub average_entry_price: int,
    pub total_quantity: int,
    pub entries: Seq<Fill>,
    pub closed_quantity: int,
}

impl View for Position {
    type V = PositionView;

    open spec fn view(&self) -> PositionView {
        PositionView {
            symbol: self.symbol@,
            side: self.side,
            entry_price: self.entry_price as int,
            quantity: self.quantity as int,
            entry_time: self.entry_time as int,
            average_entry_price: self.average_entry_price as int,
            total_quantity: self.total_quantity as int,
            entries: self.entries@,
            closed_quantity: self.closed_quantity as int,
        }
    }
}

/// Sum of the fill quantities of a position.
pub open spec fn sum_fill_qty(fs: Seq<Fill>) -> int
    decreases fs.len(),
{
    if fs.len() == 0 {
        0
    } else {
        sum_fill_qty(fs.drop_last()) + fs.last().quantity
    }
}

/// Well-formedness of an open position: at least one fill, positive fill
/// prices and quantities, a positive average entry price, more than dust
/// still open, and exact quantity accounting — what is still open plus what
/// was realized equals what was filled, and that total fits the fixed-point
/// range.
pub open spec fn pos_wf(p: PositionView) -> bool {
    &&& p.entries.len() >= 1
    &&& forall|i: int|
        0 <= i < p.entries.len() ==> (#[trigger] p.entries[i]).price >= 1
            && p.entries[i].quantity >= 1
    &&& 1 <= p.average_entry_price <= u64::MAX as int
    &&& 0 <= p.closed_quantity
    &&& p.total_quantity > EPSILON_UNITS as int
    &&& p.total_quantity + p.closed_quantity == sum_fill_qty(p.entries)
    &&& sum_fill_qty(p.entries) <= u64::MAX as int
    &&& p.entry_price == p.entries[0].price
    &&& p.quantity == p.entries[0].quantity
    &&& p.entry_time == p.entries[0].time
}

/// The quantity-weighted average entry price after one more fill, rounded
/// toward zero.
pub open spec fn weighted_avg(avg: int, tq: int, price: int, qty: int) -> int {
    (avg * tq + price * qty) / (tq + qty)
}

/// A weighted average of prices in `[1, u64::MAX]` stays in `[1, u64::MAX]`,
/// and its numerator fits in 128 bits.
pub proof fn lemma_weighted_avg_bounds(avg: int, tq: int, price: int, qty: int)
    requires
        1 <= avg <= u64::MAX as int,
        1 <= price <= u64::MAX as int,
        1 <= tq,
        1 <= qty,
        tq + qty <= u64::MAX as int,
    ensures
        0 <= avg * tq + price * qty <= (u64::MAX as int) * (u64::MAX as int),
        1 <= weighted_avg(avg, tq, price, qty) <= u64::MAX as int,
{
    let num = avg * tq + price * qty;
    let den = tq + qty;
    assert(den <= num <= (u64::MAX as int) * den) by (nonlinear_arith)
        requires
            1 <= avg <= u64::MAX as int,
            1 <= price <= u64::MAX as int,
            1 <= tq,
            1 <= qty,
            num == avg * tq + price * qty,
            den == tq + qty,
    ;
    assert((u64::MAX as int) * den <= (u64::MAX as int) * (u64::MAX as int)) by (nonlinear_arith)
        requires
            0 < den <= u64::MAX as int,
    ;
    lemma_div_is_ordered(den, num, den);
    lemma_div_by_self(den);
    lemma_multiply_divide_le(num, den, u64::MAX as int);
}

impl Position {
    /// Creates a position from its first fill.
    pub fn new(symbol: String, side: Side, price: u64, qty: u64, time: i64) -> (r: Position)
        ensures
            r@ == (PositionView {
                symbol: symbol@,
                side,
                entry_price: price as int,
                quantity: qty as int,
                entry_time: time as int,
                average_entry_price: price as int,
                total_quantity: qty as int,
                entries: Seq::empty().push(Fill { price, quantity: qty, time }),
                closed_quantity: 0,
            }),
    {
        let mut entries: Vec<Fill> = Vec::new();
        entries.push(Fill { price, quantity: qty, time });
        Position {
            symbol,
            side,
            entry_price: price,
            quantity: qty,
            entry_time: time,
            average_entry_price: price,
            total_quantity: qty,
            entries,
            closed_quantity: 0,
        }
    }

    /// Appends a fill and recomputes the quantity-weighted average entry
    /// price over all fills including this one.
    pub fn add(&mut self, price: u64, qty: u64, time: i64)
        requires
            pos_wf(old(self)@),
            price >= 1,
            qty >= 1,
            old(self)@.total_quantity + old(self)@.closed_quantity + qty <= u64::MAX as int,
        ensures
            final(self)@ == (PositionView {
                average_entry_price: weighted_avg(
                    old(self)@.average_entry_price,
                    old(self)@.total_quantity,
                    price as int,
                    qty as int,
                ),
                total_quantity: old(self)@.total_quantity + qty,
                entries: old(self)@.entries.push(Fill { price, quantity: qty, time }),
                ..old(self)@
            }),
            pos_wf(final(self)@),
    {
        proof {
            lemma_weighted_avg_bounds(
                self@.average_entry_price,
                self@.total_quantity,
                price as int,
                qty as int,
            );
        }
        let total_cost: u128 = (self.average_entry_price as u128) * (self.total_quantity as u128);
        let new_cost: u128 = (price as u128) * (qty as u128);
        self.total_quantity = self.total_quantity + qty;
        self.average_entry_price = ((total_cost + new_cost) / (self.total_quantity as u128)) as u64;
        self.entries.push(Fill { price, quantity: qty, time });
        proof {
            assert(self@.entries == old(self)@.entries.push(Fill { price, quantity: qty, time }));
            assert(self@.entries.drop_last() =~= old(self)@.entries);
            assert(sum_fill_qty(self@.entries) == sum_fill_qty(old(self)@.entries) + qty);
            assert(self@.entries[0] == old(self)@.entries[0]);
            assert(forall|i: int|
                0 <= i < self@.entries.len() ==> (#[trigger] self@.entries[i]).price >= 1
                    && self@.entries[i].quantity >= 1);
        }
    }

    /// Realizes `qty` of the open quantity: the open total shrinks and the
    /// realized total grows by exactly `qty`.
    pub fn reduce(&mut self, qty: u64)
        requires
            pos_wf(old(self)@),
            qty <= old(self)@.total_quantity,
        ensures
            final(self)@ == (PositionView {
                total_quantity: old(self)@.total_quantity - qty,
                closed_quantity: old(self)@.closed_quantity + qty,
                ..old(self)@
            }),
    {
        self.total_quantity = self.total_quantity - qty;
        self.closed_quantity = self.closed_quantity + qty;
    }
}

/// An immutable record of a realized closure of all or part of a position.
#[derive(Debug)]
pub struct Trade {
    pub symbol: String,
    pub side: Side,
    pub entry_price: u64,
    pub exit_price: u64,
    pub quantity: u64,
    pub profit_pct: i64,
    pub profit_abs: i64,
    pub entry_time: i64,
    pub exit_time: i64,
    pub exit_reason: String,
}

/// The mathematical value of a [`Trade`].
pub struct TradeView {
    pub symbol: Seq<char>,
    pub side: Side,
    pub entry_price: int,
    pub exit_price: int,
    pub quantity: int,
    pub profit_pct: int,
    pub profit_abs: int,
    pub entry_time: int,
    pub exit_time: int,
    pub exit_reason: Seq<char>,
}

impl View for Trade {
    type V = TradeView;

    open spec fn view(&self) -> TradeView {
        TradeView {
            symbol: self.symbol@,
            side: self.side,
            entry_price: self.entry_price as int,
            exit_price: self.exit_price as int,
            quantity: self.quantity as int,
            profit_pct: self.profit_pct as int,
            profit_abs: self.profit_abs as int,
            entry_time: self.entry_time as int,
            exit_time: self.exit_time as int,
            exit_reason: self.exit_reason@,
        }
    }
}

/// The decision of a strategy for one bar. Money amounts and the partial
/// fraction are fixed-point values; a fraction of [`SCALE`] closes the whole
/// position.
#[derive(Debug)]
pub enum Signal {
    Hold,
    Open(Side, i64),
    AddToPosition(i64),
    Close(String),
    PartialClose(u64, String),
}

/// The mathematical value of a [`Signal`].
pub enum SignalView {
    Hold,
    Open(Side, int),
    AddToPosition(int),
    Close(Seq<char>),
    PartialClose(int, Seq<char>),
}

impl View for Signal {
    type V = SignalView;

    open spec fn view(&self) -> SignalView {
        match self {
            Signal::Hold => SignalView::Hold,
            Signal::Open(side, amount) => SignalView::Open(*side, *amount as int),
            Signal::AddToPosition(amount) => SignalView::AddToPosition(*amount as int),
            Signal::Close(reason) => SignalView::Close(reason@),
            Signal::PartialClose(frac, reason) => SignalView::PartialClose(*frac as int, reason@),
        }
    }
}

/// The per-unit gain of an exit over an entry in the profitable direction of
/// `side`: positive when the exit improves on the entry.
pub open spec fn price_gain(side: Side, entry: int, exit: int) -> int {
    match side {
        Side::Long => exit - entry,
        Side::Short => entry - exit,
    }
}

/// The signed profit percentage of a closure, as a fixed-point value
/// (`SCALE` units per percentage point): `100 * gain / entry`, rounded toward
/// zero.
pub open spec fn profit_pct_scaled(side: Side, entry: int, exit: int) -> int {
    let d = price_gain(side, entry, exit);
    if d >= 0 {
        d * 100 * (SCALE as int) / entry
    } else {
        -((-d) * 100 * (SCALE as int) / entry)
    }
}

/// The signed absolute profit of a closure of `qty` in fixed-point money
/// units: `gain * qty`, rounded toward zero.
pub open spec fn profit_abs_scaled(side: Side, entry: int, exit: int, qty: int) -> int {
    let d = price_gain(side, entry, exit);
    if d >= 0 {
        d * qty / (SCALE as int)
    } else {
        -((-d) * qty / (SCALE as int))
    }
}

/// Whether a mathematical integer is representable as an `i64`.
pub open spec fn fits_i64(x: int) -> bool {
    i64::MIN as int <= x <= i64::MAX as int
}

/// Builds a signed `i64` out of a magnitude and a sign, or `None` exactly
/// when the signed value leaves the `i64` range.
fn signed_from_mag(mag: u128, nonneg: bool) -> (r: Option<i64>)
    ensures
        match r {
            Some(v) => v as int == if nonneg { mag as int } else { -(mag as int) },
            None => !fits_i64(if nonneg { mag as int } else { -(mag as int) }),
        },
{
    if nonneg {
        if mag > i64::MAX as u128 {
            Option::None
        } else {
            Some(mag as i64)
        }
    } else {
        if mag > (i64::MAX as u128) + 1 {
            Option::None
        } else {
            let v: i128 = -(mag as i128);
            Some(v as i64)
        }
    }
}

/// Computes the signed profit percentage, the signed absolute profit, and
/// the updated equity of a closure, or `None` exactly when one of the three
/// leaves the `i64` range.
fn trade_values(side: Side, entry: u64, exit: u64, qty: u64, equity: i64) -> (r: Option<
    (i64, i64, i64),
>)
    requires
        entry >= 1,
    ensures
        match r {
            Some(v) => {
                &&& v.0 == profit_pct_scaled(side, entry as int, exit as int)
                &&& v.1 == profit_abs_scaled(side, entry as int, exit as int, qty as int)
                &&& v.2 == equity + v.1
            },
            None => {
                ||| !fits_i64(profit_pct_scaled(side, entry as int, exit as int))
                ||| !fits_i64(profit_abs_scaled(side, entry as int, exit as int, qty as int))
                ||| !fits_i64(
                    equity + profit_abs_scaled(side, entry as int, exit as int, qty as int),
                )
            },
        },
{
    let (d, gain_nonneg): (u64, bool) = match side {
        Side::Long => if exit >= entry {
            (exit - entry, true)
        } else {
            (entry - exit, false)
        },
        Side::Short => if entry >= exit {
            (entry - exit, true)
        } else {
            (exit - entry, false)
        },
    };
    let pct_mag: u128 = (d as u128) * 10_000_000_000u128 / (entry as u128);
    proof {
        assert((d as int) * 100 * (SCALE as int) == (d as int) * 10_000_000_000);
    }
    let pct = match signed_from_mag(pct_mag, gain_nonneg) {
        Option::None => {
            return Option::None;
        },
        Some(v) => v,
    };
    proof {
        assert((d as int) * (qty as int) <= (u64::MAX as int) * (u64::MAX as int))
            by (nonlinear_arith)
            requires
                d <= u64::MAX && qty <= u64::MAX,
        ;
    }
    let abs_mag: u128 = (d as u128) * (qty as u128) / (SCALE as u128);
    let abs = match signed_from_mag(abs_mag, gain_nonneg) {
        Option::None => {
            return Option::None;
        },
        Some(v) => v,
    };
    let eq2: i128 = (equity as i128) + (abs as i128);
    if eq2 > i64::MAX as i128 || eq2 < i64::MIN as i128 {
        return Option::None;
    }
    Some((pct, abs, eq2 as i64))
}

/// The mathematical state of the engine: the starting capital, the current
/// equity, the open position if any, and the realized trades so far.
pub struct EngineView {
    pub initial_capital: int,
    pub equity: int,
    pub position: Option<PositionView>,
    pub trades: Seq<TradeView>,
}

/// The views of a trade list.
pub open spec fn trade_views(ts: Seq<Trade>) -> Seq<TradeView> {
    ts.map_values(|t: Trade| t@)
}

/// The view of an optional owned position.
pub open spec fn opt_position_view(p: Option<Position>) -> Option<PositionView> {
    match p {
        Option::Some(x) => Option::Some(x@),
        Option::None => Option::None,
    }
}

/// The view of the position argument handed to a strategy.
pub open spec fn opt_ref_view(p: Option<&Position>) -> Option<PositionView> {
    match p {
        Option::Some(x) => Option::Some(x@),
        Option::None => Option::None,
    }
}

/// Sum of the absolute profits of a trade list.
pub open spec fn sum_profit(ts: Seq<TradeView>) -> int
    decreases ts.len(),
{
    if ts.len() == 0 {
        0
    } else {
        sum_profit(ts.drop_last()) + ts.last().profit_abs
    }
}

/// The engine's ledger invariant: equity always equals the initial capital
/// plus the summed profit of the realized trades, and any open position is
/// well formed.
pub open spec fn engine_wf(e: EngineView) -> bool {
    &&& e.equity == e.initial_capital + sum_profit(e.trades)
    &&& match e.position {
        Option::Some(p) => pos_wf(p),
        Option::None => true,
    }
}

/// The quantity bought by spending `amount` at price `close`, rounded toward
/// zero; a non-positive amount buys nothing.
pub open spec fn qty_for(amount: int, close: int) -> int {
    if amount <= 0 {
        0
    } else {
        amount * (SCALE as int) / close
    }
}

/// The quantity realized by a partial close of fraction `frac` out of
/// `total`, rounded toward zero.
pub open spec fn partial_qty(total: int, frac: int) -> int {
    total * frac / (SCALE as int)
}

/// The position opened by a single fill of `q` at the close of candle `c`.
pub open spec fn position_opened(c: Candle, side: Side, q: int) -> PositionView {
    PositionView {
        symbol: c.symbol@,
        side,
        entry_price: c.close as int,
        quantity: q,
        entry_time: c.open_time as int,
        average_entry_price: c.close as int,
        total_quantity: q,
        entries: Seq::empty().push(Fill { price: c.close, quantity: q as u64, time: c.open_time }),
        closed_quantity: 0,
    }
}

/// The position after one more fill of `q` at the close of candle `c`.
pub open spec fn position_added(p: PositionView, c: Candle, q: int) -> PositionView {
    PositionView {
        average_entry_price: weighted_avg(
            p.average_entry_price,
            p.total_quantity,
            c.close as int,
            q,
        ),
        total_quantity: p.total_quantity + q,
        entries: p.entries.push(Fill { price: c.close, quantity: q as u64, time: c.open_time }),
        ..p
    }
}

/// The trade recorded when `qty` of position `p` is realized at the close of
/// candle `c`.
pub open spec fn trade_of(p: PositionView, c: Candle, qty: int, reason: Seq<char>) -> TradeView {
    TradeView {
        symbol: p.symbol,
        side: p.side,
        entry_price: p.average_entry_price,
        exit_price: c.close as int,
        quantity: qty,
        profit_pct: profit_pct_scaled(p.side, p.average_entry_price, c.close as int),
        profit_abs: profit_abs_scaled(p.side, p.average_entry_price, c.close as int, qty),
        entry_time: p.entry_time,
        exit_time: c.open_time as int,
        exit_reason: reason,
    }
}

/// Realizes `qc` out of position `p` at the close of candle `c`: a trade is
/// recorded, equity grows by its absolute profit, and the position shrinks —
/// to nothing when at most dust would remain. The step fails (second
/// component false, state unchanged) exactly when a trade or ledger value
/// leaves the `i64` range.
pub open spec fn close_part(
    st: EngineView,
    p: PositionView,
    c: Candle,
    qc: int,
    reason: Seq<char>,
) -> (EngineView, bool) {
    let t = trade_of(p, c, qc, reason);
    if !fits_i64(t.profit_pct) || !fits_i64(t.profit_abs) || !fits_i64(st.equity + t.profit_abs) {
        (st, false)
    } else {
        let rem = p.total_quantity - qc;
        let newpos: Option<PositionView> = if rem <= EPSILON_UNITS as int {
            Option::None
        } else {
            Option::Some(
                PositionView {
                    total_quantity: rem,
                    closed_quantity: p.closed_quantity + qc,
                    ..p
                },
            )
        };
        (
            EngineView {
                equity: st.equity + t.profit_abs,
                position: newpos,
                trades: st.trades.push(t),
                ..st
            },
            true,
        )
    }
}

/// Applies one signal to the engine state at candle `c`. A signal
/// inapplicable to the current state (an open while a position exists, a
/// close while flat, an out-of-range fraction, a dust-sized open) is a
/// no-op, never a fault. The step fails (second component false, state
/// unchanged) exactly when a ledger value would leave the fixed-point range.
pub open spec fn apply_signal(st: EngineView, c: Candle, sig: SignalView) -> (EngineView, bool) {
    match sig {
        SignalView::Hold => (st, true),
        SignalView::Open(side, amount) => match st.position {
            Option::Some(_) => (st, true),
            Option::None => {
                let q = qty_for(amount, c.close as int);
                if q > u64::MAX as int {
                    (st, false)
                } else if q <= EPSILON_UNITS as int {
                    (st, true)
                } else {
                    (EngineView { position: Option::Some(position_opened(c, side, q)), ..st }, true)
                }
            },
        },
        SignalView::AddToPosition(amount) => match st.position {
            Option::None => (st, true),
            Option::Some(p) => {
                let q = qty_for(amount, c.close as int);
                if q > u64::MAX as int {
                    (st, false)
                } else if q == 0 {
                    (st, true)
                } else if p.total_quantity + p.closed_quantity + q > u64::MAX as int {
                    (st, false)
                } else {
                    (EngineView { position: Option::Some(position_added(p, c, q)), ..st }, true)
                }
            },
        },
        SignalView::Close(reason) => match st.position {
            Option::None => (st, true),
            Option::Some(p) => close_part(st, p, c, p.total_quantity, reason),
        },
        SignalView::PartialClose(frac, reason) => match st.position {
            Option::None => (st, true),
            Option::Some(p) => {
                if frac <= 0 || frac > SCALE as int {
                    (st, true)
                } else {
                    close_part(st, p, c, partial_qty(p.total_quantity, frac), reason)
                }
            },
        },
    }
}

/// A stateful decision policy: consumes one candle at a time and emits a
/// signal. An implementation also carries its own mathematical model — the
/// spec functions — so that a whole run is a function of the initial
/// strategy state, the initial engine state and the candles alone.
pub trait Strategy: Sized {
    /// Whether the strategy's indicator columns cover a bar sequence of
    /// length `n`.
    spec fn spec_cover(&self, n: int) -> bool;

    /// The signal this strategy emits for candle `c` at `index`, given the
    /// open position and the current equity.
    spec fn spec_signal(
        &self,
        c: Candle,
        index: int,
        pos: Option<PositionView>,
        equity: int,
    ) -> SignalView;

    /// The strategy state after consuming candle `c` at `index`.
    spec fn spec_next(&self, c: Candle, index: int, pos: Option<PositionView>, equity: int) -> Self;

    /// Checks that the strategy's indicator columns cover `n` candles.
    fn cover(&self, n: usize) -> (r: bool)
        ensures
            r == self.spec_cover(n as int),
    ;

    /// Emits the signal for one candle and advances the strategy state.
    /// The engine always hands over a well-formed position.
    fn update(
        &mut self,
        candle: &Candle,
        index: usize,
        position: Option<&Position>,
        equity: i64,
    ) -> (s: Signal)
        requires
            position matches Option::Some(p) ==> pos_wf(p@),
        ensures
            s@ == old(self).spec_signal(*candle, index as int, opt_ref_view(position), equity as int),
            *final(self) == old(self).spec_next(*candle, index as int, opt_ref_view(position), equity as int),
    ;
}

/// The state of a run after some candles: the strategy state, the engine
/// state, and whether every step so far stayed in the fixed-point range.
pub struct RunState<S> {
    pub strat: S,
    pub st: EngineView,
    pub ok: bool,
}

/// One step of a run: the strategy decides on candle `c`, the engine applies
/// the signal. A failed run stays where it failed.
pub open spec fn run_step<S: Strategy>(r: RunState<S>, c: Candle, index: int) -> RunState<S> {
    if !r.ok {
        r
    } else {
        let sig = r.strat.spec_signal(c, index, r.st.position, r.st.equity);
        let strat2 = r.strat.spec_next(c, index, r.st.position, r.st.equity);
        let step = apply_signal(r.st, c, sig);
        RunState { strat: strat2, st: step.0, ok: step.1 }
    }
}

/// The run after the first `n` candles, starting from strategy state `strat`
/// and engine state `st`.
pub open spec fn run_to<S: Strategy>(strat: S, st: EngineView, cs: Seq<Candle>, n: int) -> RunState<
    S,
>
    decreases n,
{
    if n <= 0 {
        RunState { strat, st, ok: true }
    } else {
        run_step(run_to(strat, st, cs, n - 1), cs[n - 1], n - 1)
    }
}

/// A failed run stays where it failed.
pub proof fn lemma_run_absorb<S: Strategy>(
    strat: S,
    st: EngineView,
    cs: Seq<Candle>,
    n: int,
    m: int,
)
    requires
        0 <= n <= m,
        !run_to(strat, st, cs, n).ok,
    ensures
        run_to(strat, st, cs, m) == run_to(strat, st, cs, n),
    decreases m - n,
{
    if m > n {
        lemma_run_absorb(strat, st, cs, n, m - 1);
    }
}

/// Drives the bar-by-bar loop: applies each signal to the position and the
/// equity ledger and collects the realized trades.
pub struct BacktestEngine {
    initial_capital: i64,
    equity: i64,
    position: Option<Position>,
    trades: Vec<Trade>,
}

impl View for BacktestEngine {
    type V = EngineView;

    closed spec fn view(&self) -> EngineView {
        EngineView {
            initial_capital: self.initial_capital as int,
            equity: self.equity as int,
            position: opt_position_view(self.position),
            trades: trade_views(self.trades@),
        }
    }
}

/// An exact copy of a trade.
fn clone_trade(t: &Trade) -> (r: Trade)
    ensures
        r@ == t@,
{
    Trade {
        symbol: t.symbol.clone(),
        side: t.side,
        entry_price: t.entry_price,
        exit_price: t.exit_price,
        quantity: t.quantity,
        profit_pct: t.profit_pct,
        profit_abs: t.profit_abs,
        entry_time: t.entry_time,
        exit_time: t.exit_time,
        exit_reason: t.exit_reason.clone(),
    }
}

/// An exact copy of a trade list.
fn clone_trades(ts: &Vec<Trade>) -> (r: Vec<Trade>)
    ensures
        trade_views(r@) == trade_views(ts@),
{
    let n = ts.len();
    let mut out: Vec<Trade> = Vec::new();
    let mut i: usize = 0;
    while i < n
        invariant
            n == ts@.len(),
            i <= n,
            out@.len() == i,
            forall|k: int| 0 <= k < i ==> out@[k]@ == ts@[k]@,
        decreases n - i,
    {
        out.push(clone_trade(&ts[i]));
        i = i + 1;
    }
    proof {
        assert(trade_views(out@) =~= trade_views(ts@));
    }
    out
}

impl BacktestEngine {
    /// A fresh engine: equity starts at the initial capital, no position is
    /// open and no trade is recorded.
    pub fn new(initial_capital: i64) -> (r: BacktestEngine)
        ensures
            r@ == (EngineView {
                initial_capital: initial_capital as int,
                equity: initial_capital as int,
                position: Option::None,
                trades: Seq::empty(),
            }),
            engine_wf(r@),
    {
        let r = BacktestEngine {
            initial_capital,
            equity: initial_capital,
            position: Option::None,
            trades: Vec::new(),
        };
        proof {
            assert(trade_views(r.trades@) =~= Seq::<TradeView>::empty());
        }
        r
    }

    /// The starting capital of this engine.
    pub fn initial_capital(&self) -> (r: i64)
        ensures
            r == self@.initial_capital,
    {
        self.initial_capital
    }

    /// The current equity: the initial capital plus all realized profits.
    pub fn equity(&self) -> (r: i64)
        ensures
            r == self@.equity,
    {
        self.equity
    }

    /// The currently open position, if any.
    pub fn position(&self) -> (r: &Option<Position>)
        ensures
            opt_position_view(*r) == self@.position,
    {
        &self.position
    }

    /// The trades realized so far, in emission order.
    pub fn trades(&self) -> (r: &Vec<Trade>)
        ensures
            trade_views(r@) == self@.trades,
    {
        &self.trades
    }
}

/// The quantity bought by spending `amount` at price `close`, exactly as
/// [`qty_for`] describes; `None` exactly when the quantity does not fit in a
/// `u64`.
fn compute_qty(amount: i64, close: u64) -> (r: Option<u64>)
    requires
        close >= 1,
    ensures
        match r {
            Some(q) => q == qty_for(amount as int, close as int),
            None => qty_for(amount as int, close as int) > u64::MAX as int,
        },
{
    if amount <= 0 {
        Some(0)
    } else {
        mul_div_u64(amount as u64, SCALE, close)
    }
}

impl BacktestEngine {
    /// Applies one signal to the engine at candle `c`, exactly as
    /// [`apply_signal`] describes; returns false — leaving the engine
    /// unchanged — when a ledger value would leave the fixed-point range.
    fn apply_signal_exec(&mut self, c: &Candle, sig: Signal) -> (r: bool)
        requires
            engine_wf(old(self)@),
            candle_wf(*c),
        ensures
            engine_wf(final(self)@),
            ({
                let step = apply_signal(old(self)@, *c, sig@);
                r == step.1 && final(self)@ == step.0
            }),
    {
        let ghost gsig = sig@;
        let ghost st = self@;
        match sig {
            Signal::Hold => true,
            Signal::Open(side, amount) => {
                if self.position.is_none() {
                    match compute_qty(amount, c.close) {
                        Option::None => false,
                        Option::Some(q) => {
                            if q <= EPSILON_UNITS {
                                true
                            } else {
                                let pos = Position::new(
                                    c.symbol.clone(),
                                    side,
                                    c.close,
                                    q,
                                    c.open_time,
                                );
                                proof {
                                    let pv = position_opened(*c, side, q as int);
                                    assert(pos@.entries =~= pv.entries);
                                    assert(pos@ == pv);
                                    assert(pos@.entries.drop_last() =~= Seq::<Fill>::empty());
                                    assert(sum_fill_qty(Seq::<Fill>::empty()) == 0);
                                    assert(sum_fill_qty(pos@.entries) == q as int);
                                    assert(pos_wf(pos@));
                                }
                                self.position = Some(pos);
                                true
                            }
                        },
                    }
                } else {
                    true
                }
            },
            Signal::AddToPosition(amount) => {
                if self.position.is_some() {
                    let mut pos = self.position.take().unwrap();
                    let ghost p = pos@;
                    match compute_qty(amount, c.close) {
                        Option::None => {
                            self.position = Some(pos);
                            false
                        },
                        Option::Some(q) => {
                            if q == 0 {
                                self.position = Some(pos);
                                true
                            } else {
                                let filled: u128 = (pos.total_quantity as u128)
                                    + (pos.closed_quantity as u128) + (q as u128);
                                if filled > u64::MAX as u128 {
                                    self.position = Some(pos);
                                    false
                                } else {
                                    pos.add(c.close, q, c.open_time);
                                    proof {
                                        assert(pos@ == position_added(p, *c, q as int));
                                    }
                                    self.position = Some(pos);
                                    true
                                }
                            }
                        },
                    }
                } else {
                    true
                }
            },
            Signal::Close(reason) => {
                let ghost greason = reason@;
                if self.position.is_some() {
                    let pos = self.position.take().unwrap();
                    let ghost p = pos@;
                    match trade_values(
                        pos.side,
                        pos.average_entry_price,
                        c.close,
                        pos.total_quantity,
                        self.equity,
                    ) {
                        Option::None => {
                            self.position = Some(pos);
                            false
                        },
                        Option::Some(v) => {
                            let (pct, abs, eq2) = v;
                            let t = Trade {
                                symbol: pos.symbol,
                                side: pos.side,
                                entry_price: pos.average_entry_price,
                                exit_price: c.close,
                                quantity: pos.total_quantity,
                                profit_pct: pct,
                                profit_abs: abs,
                                entry_time: pos.entry_time,
                                exit_time: c.open_time,
                                exit_reason: reason,
                            };
                            proof {
                                assert(t@ == trade_of(p, *c, p.total_quantity, greason));
                            }
                            self.trades.push(t);
                            self.equity = eq2;
                            proof {
                                lemma_sum_profit_push(st.trades, t@);
                                assert(trade_views(self.trades@) =~= st.trades.push(t@));
                            }
                            true
                        },
                    }
                } else {
                    true
                }
            },
            Signal::PartialClose(frac, reason) => {
                let ghost greason = reason@;
                if self.position.is_some() {
                    if frac >= 1 && frac <= SCALE {
                        let mut pos = self.position.take().unwrap();
                        let ghost p = pos@;
                        proof {
                            assert(p.total_quantity * (frac as int) <= p.total_quantity * (
                            SCALE as int)) by (nonlinear_arith)
                                requires
                                    0 <= p.total_quantity,
                                    frac <= SCALE,
                            ;
                            lemma_div_is_ordered(
                                p.total_quantity * (frac as int),
                                p.total_quantity * (SCALE as int),
                                SCALE as int,
                            );
                            lemma_div_by_multiple(p.total_quantity, SCALE as int);
                        }
                        let qc = match mul_div_u64(pos.total_quantity, frac, SCALE) {
                            Option::Some(qc) => qc,
                            // a fraction of at most SCALE realizes at most the
                            // open quantity, which fits
                            Option::None => vstd::pervasive::unreached(),
                        };
                        match trade_values(
                            pos.side,
                            pos.average_entry_price,
                            c.close,
                            qc,
                            self.equity,
                        ) {
                            Option::None => {
                                self.position = Some(pos);
                                false
                            },
                            Option::Some(v) => {
                                let (pct, abs, eq2) = v;
                                let t = Trade {
                                    symbol: pos.symbol.clone(),
                                    side: pos.side,
                                    entry_price: pos.average_entry_price,
                                    exit_price: c.close,
                                    quantity: qc,
                                    profit_pct: pct,
                                    profit_abs: abs,
                                    entry_time: pos.entry_time,
                                    exit_time: c.open_time,
                                    exit_reason: reason,
                                };
                                proof {
                                    assert(t@ == trade_of(p, *c, qc as int, greason));
                                }
                                self.trades.push(t);
                                self.equity = eq2;
                                pos.reduce(qc);
                                if pos.total_quantity > EPSILON_UNITS {
                                    self.position = Some(pos);
                                }
                                proof {
                                    lemma_sum_profit_push(st.trades, t@);
                                    assert(trade_views(self.trades@) =~= st.trades.push(t@));
                                }
                                true
                            },
                        }
                    } else {
                        true
                    }
                } else {
                    true
                }
            },
        }
    }

    /// Replays the candles, in index order, through the strategy: per candle
    /// the strategy decides, the engine applies the decision, and every
    /// realized closure is recorded as a trade.
    ///
    /// All structural checks run before any mutation: a non-positive initial
    /// capital is a `ConfigurationError`; an unsound or unsorted candle
    /// sequence, or indicator columns that do not cover it, a
    /// `DataIntegrityError`. Once running, the outcome is exactly [`run_to`]
    /// over the strategy's model: on success the realized trades are
    /// returned, and a ledger value leaving the fixed-point range stops the
    /// run with a `DataIntegrityError`.
    #[verifier::loop_isolation(false)]
    pub fn run<S: Strategy>(&mut self, candles: &Vec<Candle>, strategy: S) -> (r: Result<
        Vec<Trade>,
        BacktestError,
    >)
        requires
            engine_wf(old(self)@),
        ensures
            engine_wf(final(self)@),
            final(self)@.initial_capital == old(self)@.initial_capital,
            old(self)@.initial_capital <= 0 ==> r == Err::<Vec<Trade>, BacktestError>(
                BacktestError::ConfigurationError,
            ) && final(self)@ == old(self)@,
            old(self)@.initial_capital > 0 && !(candles_valid(candles@) && strategy.spec_cover(
                candles@.len() as int,
            )) ==> r == Err::<Vec<Trade>, BacktestError>(BacktestError::DataIntegrityError)
                && final(self)@ == old(self)@,
            old(self)@.initial_capital > 0 && candles_valid(candles@) && strategy.spec_cover(
                candles@.len() as int,
            ) ==> ({
                let rs = run_to(strategy, old(self)@, candles@, candles@.len() as int);
                &&& final(self)@ == rs.st
                &&& rs.ok ==> r is Ok && trade_views(r->Ok_0@) == rs.st.trades
                &&& !rs.ok ==> r == Err::<Vec<Trade>, BacktestError>(
                    BacktestError::DataIntegrityError,
                )
            }),
            r is Ok && old(self)@.trades.len() == 0 && old(self)@.position is None
                ==> trades_chronological(final(self)@.trades),
    {
        if self.initial_capital <= 0 {
            return Err(BacktestError::ConfigurationError);
        }
        if !candles_ok(candles) {
            return Err(BacktestError::DataIntegrityError);
        }
        if !strategy.cover(candles.len()) {
            return Err(BacktestError::DataIntegrityError);
        }
        let ghost strat0 = strategy;
        let ghost st0 = self@;
        let mut strat = strategy;
        let n = candles.len();
        let mut i: usize = 0;
        while i < n
            invariant
                n == candles@.len(),
                i <= n,
                candles_valid(candles@),
                engine_wf(self@),
                self@.initial_capital == st0.initial_capital,
                ({
                    let rs = run_to(strat0, st0, candles@, i as int);
                    rs.ok && rs.st == self@ && rs.strat == strat
                }),
            decreases n - i,
        {
            let ghost pre_strat = strat;
            let ghost pre_st = self@;
            let c = &candles[i];
            let sig = strat.update(c, i, self.position.as_ref(), self.equity);
            let ghost gsig = sig@;
            proof {
                assert(candle_wf(candles@[i as int]));
                assert(gsig == pre_strat.spec_signal(
                    candles@[i as int],
                    i as int,
                    pre_st.position,
                    pre_st.equity,
                ));
            }
            let ok = self.apply_signal_exec(c, sig);
            proof {
                let rs2 = run_to(strat0, st0, candles@, i + 1);
                assert(rs2 == run_step(
                    run_to(strat0, st0, candles@, i as int),
                    candles@[i as int],
                    i as int,
                ));
                assert(rs2.st == self@ && rs2.ok == ok && rs2.strat == strat);
            }
            if !ok {
                proof {
                    lemma_run_absorb(strat0, st0, candles@, i + 1, n as int);
                }
                return Err(BacktestError::DataIntegrityError);
            }
            i = i + 1;
        }
        proof {
            if st0.trades.len() == 0 && st0.position is None {
                lemma_temporal_ordering(strat0, st0, candles@, n as int);
            }
        }
        let out = clone_trades(&self.trades);
        Ok(out)
    }
}

/// Appending a trade grows the summed profit by exactly that trade's
/// absolute profit.
pub proof fn lemma_sum_profit_push(ts: Seq<TradeView>, t: TradeView)
    ensures
        sum_profit(ts.push(t)) == sum_profit(ts) + t.profit_abs,
{
    assert(ts.push(t).drop_last() =~= ts);
    assert(ts.push(t).last() == t);
}

/// One signal application only appends trades, keeps the starting capital,
/// and moves equity by exactly the summed profit of what it appended.
pub proof fn lemma_apply_signal_accounting(st: EngineView, c: Candle, sig: SignalView)
    ensures
        ({
            let st2 = apply_signal(st, c, sig).0;
            &&& st2.initial_capital == st.initial_capital
            &&& st2.trades.len() >= st.trades.len()
            &&& st2.trades.subrange(0, st.trades.len() as int) =~= st.trades
            &&& st2.equity - st.equity == sum_profit(st2.trades) - sum_profit(st.trades)
        }),
{
    assert(st.trades.subrange(0, st.trades.len() as int) =~= st.trades);
    match sig {
        SignalView::Close(reason) => {
            if st.position is Some {
                let p = st.position->0;
                let t = trade_of(p, c, p.total_quantity, reason);
                lemma_sum_profit_push(st.trades, t);
                assert(st.trades.push(t).subrange(0, st.trades.len() as int) =~= st.trades);
            }
        },
        SignalView::PartialClose(frac, reason) => {
            if st.position is Some && 0 < frac <= SCALE as int {
                let p = st.position->0;
                let t = trade_of(p, c, partial_qty(p.total_quantity, frac), reason);
                lemma_sum_profit_push(st.trades, t);
                assert(st.trades.push(t).subrange(0, st.trades.len() as int) =~= st.trades);
            }
        },
        _ => {},
    }
}

/// A run only appends trades, keeps the starting capital, and moves equity by
/// exactly the summed profit of what it appended.
pub proof fn lemma_run_accounting<S: Strategy>(strat: S, st: EngineView, cs: Seq<Candle>, n: int)
    requires
        0 <= n,
    ensures
        ({
            let rs = run_to(strat, st, cs, n);
            &&& rs.st.initial_capital == st.initial_capital
            &&& rs.st.trades.len() >= st.trades.len()
            &&& rs.st.trades.subrange(0, st.trades.len() as int) =~= st.trades
            &&& rs.st.equity - st.equity == sum_profit(rs.st.trades) - sum_profit(st.trades)
        }),
    decreases n,
{
    if n == 0 {
        assert(st.trades.subrange(0, st.trades.len() as int) =~= st.trades);
    } else {
        lemma_run_accounting(strat, st, cs, n - 1);
        let prev = run_to(strat, st, cs, n - 1);
        let rs = run_to(strat, st, cs, n);
        if prev.ok {
            let sig = prev.strat.spec_signal(cs[n - 1], n - 1, prev.st.position, prev.st.equity);
            lemma_apply_signal_accounting(prev.st, cs[n - 1], sig);
            assert forall|idx: int| 0 <= idx < st.trades.len() implies rs.st.trades[idx]
                == st.trades[idx] by {
                assert(prev.st.trades.subrange(0, st.trades.len() as int)[idx] == st.trades[idx]);
                assert(rs.st.trades.subrange(0, prev.st.trades.len() as int)[idx]
                    == prev.st.trades[idx]);
            }
            assert(rs.st.trades.subrange(0, st.trades.len() as int) =~= st.trades);
        }
    }
}

/// Equity conservation: for every run from a fresh engine state, the final
/// equity equals the initial capital plus the summed profit of every
/// realized trade.
pub proof fn lemma_equity_conservation<S: Strategy>(strat: S, st: EngineView, cs: Seq<Candle>, n: int)
    requires
        0 <= n,
        st.trades.len() == 0,
        st.equity == st.initial_capital,
    ensures
        ({
            let rs = run_to(strat, st, cs, n);
            rs.st.equity == st.initial_capital + sum_profit(rs.st.trades)
        }),
{
    lemma_run_accounting(strat, st, cs, n);
}

/// Flatness: a successful full close of a well-formed open position leaves no
/// open position, realizes exactly the still-open quantity, and the realized
/// quantities — the closes recorded before plus this final one — add up to
/// exactly the filled quantities.
pub proof fn lemma_flatness(st: EngineView, c: Candle, reason: Seq<char>)
    requires
        engine_wf(st),
        st.position is Some,
        apply_signal(st, c, SignalView::Close(reason)).1,
    ensures
        ({
            let p = st.position->0;
            let st2 = apply_signal(st, c, SignalView::Close(reason)).0;
            &&& st2.position is None
            &&& st2.trades == st.trades.push(trade_of(p, c, p.total_quantity, reason))
            &&& st2.trades.last().quantity + p.closed_quantity == sum_fill_qty(p.entries)
        }),
{
    let p = st.position->0;
    let st2 = apply_signal(st, c, SignalView::Close(reason)).0;
    assert(st2.trades.last() == trade_of(p, c, p.total_quantity, reason));
}

/// Non-decreasing exit times and per-trade `entry_time <= exit_time`.
pub open spec fn trades_chronological(ts: Seq<TradeView>) -> bool {
    &&& forall|i: int, j: int| 0 <= i < j < ts.len() ==> ts[i].exit_time <= ts[j].exit_time
    &&& forall|i: int| 0 <= i < ts.len() ==> (#[trigger] ts[i]).entry_time <= ts[i].exit_time
}

/// Every recorded exit, and the entry of any open position, is at or before
/// `bound`.
pub open spec fn run_timing(st: EngineView, bound: int) -> bool {
    &&& forall|i: int| 0 <= i < st.trades.len() ==> (#[trigger] st.trades[i]).exit_time <= bound
    &&& (st.position matches Option::Some(p) ==> p.entry_time <= bound)
}

proof fn lemma_temporal_ordering_inner<S: Strategy>(strat: S, st: EngineView, cs: Seq<Candle>, n: int)
    requires
        1 <= n <= cs.len(),
        candles_valid(cs),
        st.trades.len() == 0,
        st.position is None,
    ensures
        ({
            let rs = run_to(strat, st, cs, n);
            rs.ok ==> trades_chronological(rs.st.trades) && run_timing(rs.st, cs[n - 1].open_time as int)
        }),
    decreases n,
{
    let rs = run_to(strat, st, cs, n);
    let prev = run_to(strat, st, cs, n - 1);
    let c = cs[n - 1];
    if n == 1 {
        if rs.ok {
            assert(trades_chronological(rs.st.trades));
            assert(run_timing(rs.st, c.open_time as int));
        }
    } else {
        lemma_temporal_ordering_inner(strat, st, cs, n - 1);
        if rs.ok {
            let bound_prev = cs[n - 2].open_time as int;
            let bound = c.open_time as int;
            assert(cs[n - 2].open_time < cs[n - 1].open_time);
            let sig = prev.strat.spec_signal(c, n - 1, prev.st.position, prev.st.equity);
            let st2 = apply_signal(prev.st, c, sig).0;
            assert(st2 == rs.st);
            match sig {
                SignalView::Close(reason) => {
                    if prev.st.position is Some {
                        let p = prev.st.position->0;
                        let t = trade_of(p, c, p.total_quantity, reason);
                        assert(rs.st.trades == prev.st.trades.push(t));
                        assert(t.entry_time <= bound_prev);
                        assert(trades_chronological(rs.st.trades));
                        assert(run_timing(rs.st, bound));
                    }
                },
                SignalView::PartialClose(frac, reason) => {
                    if prev.st.position is Some && 0 < frac <= SCALE as int {
                        let p = prev.st.position->0;
                        let t = trade_of(p, c, partial_qty(p.total_quantity, frac), reason);
                        assert(rs.st.trades == prev.st.trades.push(t));
                        assert(t.entry_time <= bound_prev);
                        assert(trades_chronological(rs.st.trades));
                        assert(run_timing(rs.st, bound));
                    }
                },
                _ => {},
            }
            assert(trades_chronological(rs.st.trades));
            assert(run_timing(rs.st, bound));
        }
    }
}

/// Temporal ordering: in every successful run from a fresh engine state over
/// a valid candle sequence, trades are emitted with non-decreasing exit
/// times, and every trade exits at or after its entry.
pub proof fn lemma_temporal_ordering<S: Strategy>(strat: S, st: EngineView, cs: Seq<Candle>, n: int)
    requires
        0 <= n <= cs.len(),
        candles_valid(cs),
        st.trades.len() == 0,
        st.position is None,
    ensures
        ({
            let rs = run_to(strat, st, cs, n);
            rs.ok ==> trades_chronological(rs.st.trades)
        }),
{
    if n >= 1 {
        lemma_temporal_ordering_inner(strat, st, cs, n);
    }
}

/// A run is fully deterministic: identical candles, an identical initial
/// strategy state and an identical initial engine state always produce the
/// identical trade sequence and final equity.
pub proof fn lemma_run_deterministic<S: Strategy>(
    strat1: S,
    strat2: S,
    st1: EngineView,
    st2: EngineView,
    cs1: Seq<Candle>,
    cs2: Seq<Candle>,
    n: int,
)
    requires
        strat1 == strat2,
        st1 == st2,
        cs1 == cs2,
    ensures
        run_to(strat1, st1, cs1, n) == run_to(strat2, st2, cs2, n),
{
}

/// One signal application keeps the engine well formed: the ledger equation
/// survives every realized trade, and any position left open is well formed.
pub proof fn lemma_apply_signal_preserves_wf(st: EngineView, c: Candle, sig: SignalView)
    requires
        engine_wf(st),
        candle_wf(c),
    ensures
        engine_wf(apply_signal(st, c, sig).0),
{
    match sig {
        SignalView::Hold => {},
        SignalView::Open(side, amount) => {
            if st.position is None {
                let q = qty_for(amount, c.close as int);
                if (EPSILON_UNITS as int) < q && q <= u64::MAX as int {
                    let p = position_opened(c, side, q);
                    assert(p.entries.drop_last() =~= Seq::<Fill>::empty());
                    assert(sum_fill_qty(Seq::<Fill>::empty()) == 0);
                    assert(sum_fill_qty(p.entries) == q);
                    assert(pos_wf(p));
                }
            }
        },
        SignalView::AddToPosition(amount) => {
            if st.position is Some {
                let p = st.position->0;
                let q = qty_for(amount, c.close as int);
                if 0 < q && q <= u64::MAX as int && p.total_quantity + p.closed_quantity + q
                    <= u64::MAX as int {
                    lemma_weighted_avg_bounds(
                        p.average_entry_price,
                        p.total_quantity,
                        c.close as int,
                        q,
                    );
                    let p2 = position_added(p, c, q);
                    assert(p2.entries.drop_last() =~= p.entries);
                    assert(sum_fill_qty(p2.entries) == sum_fill_qty(p.entries) + q);
                    assert(p2.entries[0] == p.entries[0]);
                    assert(forall|i: int|
                        0 <= i < p2.entries.len() ==> (#[trigger] p2.entries[i]).price >= 1
                            && p2.entries[i].quantity >= 1);
                    assert(pos_wf(p2));
                }
            }
        },
        SignalView::Close(reason) => {
            if st.position is Some {
                let p = st.position->0;
                lemma_close_part_preserves_wf(st, p, c, p.total_quantity, reason);
            }
        },
        SignalView::PartialClose(frac, reason) => {
            if st.position is Some && 0 < frac && frac <= SCALE as int {
                let p = st.position->0;
                let qc = partial_qty(p.total_quantity, frac);
                assert(0 <= p.total_quantity * frac <= p.total_quantity * (SCALE as int))
                    by (nonlinear_arith)
                    requires
                        0 <= p.total_quantity,
                        0 < frac <= SCALE as int,
                ;
                lemma_div_is_ordered(0, p.total_quantity * frac, SCALE as int);
                lemma_div_is_ordered(
                    p.total_quantity * frac,
                    p.total_quantity * (SCALE as int),
                    SCALE as int,
                );
                lemma_div_by_multiple(p.total_quantity, SCALE as int);
                lemma_close_part_preserves_wf(st, p, c, qc, reason);
            }
        },
    }
}

/// Realizing a quantity within the open total keeps the engine well formed.
proof fn lemma_close_part_preserves_wf(
    st: EngineView,
    p: PositionView,
    c: Candle,
    qc: int,
    reason: Seq<char>,
)
    requires
        engine_wf(st),
        st.position == Option::Some(p),
        0 <= qc <= p.total_quantity,
    ensures
        engine_wf(close_part(st, p, c, qc, reason).0),
{
    let t = trade_of(p, c, qc, reason);
    if fits_i64(t.profit_pct) && fits_i64(t.profit_abs) && fits_i64(st.equity + t.profit_abs) {
        lemma_sum_profit_push(st.trades, t);
    }
}

/// A run keeps the engine well formed at every step: the ledger equation and
/// the well-formedness of any open position are invariants of the whole run.
pub proof fn lemma_run_preserves_wf<S: Strategy>(strat: S, st: EngineView, cs: Seq<Candle>, n: int)
    requires
        engine_wf(st),
        0 <= n <= cs.len(),
        forall|k: int| 0 <= k < cs.len() ==> candle_wf(#[trigger] cs[k]),
    ensures
        engine_wf(run_to(strat, st, cs, n).st),
    decreases n,
{
    if n > 0 {
        lemma_run_preserves_wf(strat, st, cs, n - 1);
        let prev = run_to(strat, st, cs, n - 1);
        if prev.ok {
            let sig = prev.strat.spec_signal(cs[n - 1], n - 1, prev.st.position, prev.st.equity);
            lemma_apply_signal_preserves_wf(prev.st, cs[n - 1], sig);
        }
    }
}

} // verus!
