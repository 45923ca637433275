//! Fixed-point representation and exact integer helpers.
//!
//! Every price, quantity, fraction and money value in the core is an integer
//! number of fixed-point units, with [`SCALE`] units per 1.0. The dust
//! threshold of a position, one unit, is exactly the epsilon at which a
//! position is considered destroyed.

use vstd::prelude::*;

verus! {

/// Fixed-point units per 1.0. A price of 100.0 is `100 * SCALE` units.
pub const SCALE: u64 = 100_000_000;

/// A position whose total quantity is at or below this many units (1e-8)
/// is dust: it is cleared rather than kept open.
pub const EPSILON_UNITS: u64 = 1;

/// floor((a * b) / d), computed exactly in 128-bit arithmetic.
/// `None` exactly when the quotient does not fit in a `u64`.
pub fn mul_div_u64(a: u64, b: u64, d: u64) -> (r: Option<u64>)
    requires
        d > 0,
    ensures
        match r {
            Some(v) => v == (a * b) / (d as int),
            None => (a * b) / (d as int) > u64::MAX,
        },
{
    proof {
        assert((a as int) * (b as int) <= (u64::MAX as int) * (u64::MAX as int))
            by (nonlinear_arith)
            requires a <= u64::MAX && b <= u64::MAX,
        ;
    }
    let p: u128 = (a as u128) * (b as u128);
    let q: u128 = p / (d as u128);
    if q <= u64::MAX as u128 {
        Some(q as u64)
    } else {
        None
    }
}

} // verus!
