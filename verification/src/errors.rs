//! Error kinds reported by the backtesting core.

use vstd::prelude::*;

verus! {

/// The terminal error kinds of the core.
///
/// `ConfigurationError` is returned when the run is started with an
/// `initial_capital` at or below zero. `DataIntegrityError` is returned when
/// the bar sequence or its indicator columns are structurally unsound, or when
/// a ledger value would leave the fixed-point range and so could not be
/// recorded exactly. `DataNotFound` is reserved for the market-data provider
/// at the boundary of the core: the core itself never raises it.
#[derive(Clone, Copy, Debug, PartialEq, Eq, Structural)]
pub enum BacktestError {
    ConfigurationError,
    DataIntegrityError,
    DataNotFound,
}

} // verus!
