//! Technical indicators over an ordered candle slice.
//!
//! Every indicator returns an output of the same length as its input,
//! positionally aligned: position `i` of the output belongs to candle `i`.
//! A position is either a defined fixed-point value or an explicit
//! undefined marker (`None`), never silently missing. Too little input
//! gives a same-length, all-undefined output, and empty input gives an
//! empty output; neither is an error.

pub mod ema;
pub mod rsi;
pub mod sma;

pub use ema::Ema;
pub use rsi::Rsi;
pub use sma::Sma;

use vstd::prelude::*;

use crate::candle::Candle;

verus! {

/// Upper bound on a close price that indicator arithmetic accepts; it
/// keeps every intermediate sum and product within 128 bits.
pub const PRICE_LIMIT: u64 = 10_000_000_000_000_000;

/// Whether every close in `data` is within the arithmetic bound.
pub open spec fn closes_ok(data: Seq<Candle>) -> bool {
    forall|i: int| 0 <= i < data.len() ==> #[trigger] data[i].close <= PRICE_LIMIT
}

/// Sum of the closes of `data[from..to]`.
pub open spec fn closes_sum(data: Seq<Candle>, from: int, to: int) -> int
    decreases to - from,
{
    if to <= from {
        0
    } else {
        closes_sum(data, from, to - 1) + data[to - 1].close
    }
}

/// A close-price sum can be peeled at the front as well as at the back.
pub proof fn lemma_closes_sum_peel_front(data: Seq<Candle>, from: int, to: int)
    requires
        from < to,
    ensures
        closes_sum(data, from, to) == data[from].close + closes_sum(data, from + 1, to),
    decreases to - from,
{
    if from + 1 < to {
        lemma_closes_sum_peel_front(data, from, to - 1);
    } else {
        assert(closes_sum(data, from, to - 1) == 0);
        assert(closes_sum(data, from + 1, to) == 0);
    }
}

/// A sum of `n` bounded closes lies between zero and `n` times the bound.
pub proof fn lemma_closes_sum_bounds(data: Seq<Candle>, from: int, to: int)
    requires
        closes_ok(data),
        0 <= from <= to <= data.len(),
    ensures
        0 <= closes_sum(data, from, to) <= (to - from) * (PRICE_LIMIT as int),
    decreases to - from,
{
    if from < to {
        lemma_closes_sum_bounds(data, from, to - 1);
        assert((to - 1 - from) * (PRICE_LIMIT as int) + (PRICE_LIMIT as int) == (to - from)
            * (PRICE_LIMIT as int)) by (nonlinear_arith);
    }
}

/// A sum of `n` bounded values divided by `n` is itself bounded.
pub proof fn lemma_avg_bounded(s: int, n: int, limit: int)
    requires
        n >= 1,
        limit >= 0,
        0 <= s <= n * limit,
    ensures
        0 <= s / n <= limit,
{
    vstd::arithmetic::div_mod::lemma_div_pos_is_pos(s, n);
    vstd::arithmetic::div_mod::lemma_div_is_ordered(s, n * limit, n);
    vstd::arithmetic::div_mod::lemma_div_multiples_vanish(limit, n);
}

} // verus!
