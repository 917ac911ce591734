//! Simple moving average.

use vstd::prelude::*;

use crate::candle::Candle;
use crate::indicators::closes_ok;
use crate::indicators::closes_sum;
use crate::indicators::lemma_avg_bounded;
use crate::indicators::lemma_closes_sum_bounds;
use crate::indicators::lemma_closes_sum_peel_front;
use crate::indicators::PRICE_LIMIT;
use crate::text::dec_rep;
use crate::text::u64_to_string;

verus! {

/// Whether the average is defined at position `i`: a full window of
/// `period` closes must end there.
pub open spec fn sma_defined(period: int, i: int) -> bool {
    i >= period - 1
}

/// The average over the window ending at `i`: the window sum divided by
/// the period, rounded down.
pub open spec fn sma_val(data: Seq<Candle>, period: int, i: int) -> int {
    closes_sum(data, i + 1 - period, i + 1) / period
}

/// The aligned output position for index `i`.
pub open spec fn sma_at(data: Seq<Candle>, period: int, i: int) -> Option<u64> {
    if sma_defined(period, i) {
        Some((sma_val(data, period, i)) as u64)
    } else {
        None
    }
}

/// The simple moving average of the close over a sliding window of
/// `period` candles.
pub struct Sma {
    period: usize,
}

impl Sma {
    /// The configured period.
    pub closed spec fn period_spec(self) -> int {
        self.period as int
    }

    /// Creates the indicator; a zero period is a configuration error and
    /// is rejected before construction.
    pub fn new(period: usize) -> (r: Self)
        requires
            period >= 1,
        ensures
            r.period_spec() == period,
    {
        Sma { period }
    }

    /// The indicator's display name.
    pub fn name(&self) -> (r: String)
        ensures
            r@ == "SMA("@ + dec_rep(self.period_spec()) + ")"@,
    {
        let mut s = String::from_str("SMA(");
        s.append(u64_to_string(self.period as u64).as_str());
        s.append(")");
        proof {
            assert("SMA("@ + dec_rep(self.period as int) + ")"@ =~= ("SMA("@ + dec_rep(
                self.period as int,
            )) + ")"@);
        }
        s
    }

    /// Computes the average for every position, aligned with the input:
    /// position `i` holds the mean close of the window ending at `i`, or
    /// the undefined marker while fewer than `period` closes have been
    /// seen. The window sum is kept as a running sum, updated by one
    /// addition and one subtraction per step.
    pub fn calculate(&self, data: &[Candle]) -> (r: Vec<Option<u64>>)
        requires
            closes_ok(data@),
            self.period_spec() >= 1,
        ensures
            r@.len() == data@.len(),
            forall|i: int| 0 <= i < data@.len() ==> #[trigger] r@[i] == sma_at(
                data@,
                self.period_spec(),
                i,
            ),
    {
        let ghost p = self.period as int;
        let n = data.len();
        let mut out: Vec<Option<u64>> = Vec::new();
        let mut sum: u128 = 0;
        let mut i: usize = 0;
        while i < n
            invariant
                closes_ok(data@),
                p == self.period as int,
                p >= 1,
                i <= n,
                n == data@.len(),
                out@.len() == i,
                sum == closes_sum(data@, if i >= p {
                    i - p
                } else {
                    0
                }, i as int),
                forall|j: int| 0 <= j < i ==> #[trigger] out@[j] == sma_at(data@, p, j),
            decreases n - i,
        {
            let ghost lo: int = if i >= p {
                i - p
            } else {
                0
            };
            proof {
                lemma_closes_sum_bounds(data@, lo, i as int);
                assert((i - lo) * (PRICE_LIMIT as int) <= (p + 1) * (PRICE_LIMIT as int))
                    by (nonlinear_arith)
                    requires
                        i - lo <= p + 1,
                ;
                assert((p + 1) * (PRICE_LIMIT as int) < u128::MAX - PRICE_LIMIT)
                    by (nonlinear_arith)
                    requires
                        p <= usize::MAX,
                ;
            }
            sum = sum + data[i].close as u128;
            if i >= self.period {
                proof {
                    lemma_closes_sum_peel_front(data@, lo, i + 1);
                    lemma_closes_sum_bounds(data@, lo + 1, i + 1);
                }
                sum = sum - data[i - self.period].close as u128;
            }
            if i + 1 >= self.period {
                let v = sum / (self.period as u128);
                proof {
                    lemma_closes_sum_bounds(data@, i + 1 - p, i + 1);
                    lemma_avg_bounded(
                        closes_sum(data@, i + 1 - p, i + 1),
                        p,
                        PRICE_LIMIT as int,
                    );
                }
                out.push(Some(v as u64));
            } else {
                out.push(None);
            }
            i += 1;
        }
        out
    }
}

/// Law of the window: the defined average times the period falls short of
/// the exact window sum by less than the period, so the average is the
/// window mean up to the fixed-point rounding.
pub proof fn lemma_sma_window(data: Seq<Candle>, period: int, i: int)
    requires
        period >= 1,
        sma_defined(period, i),
    ensures
        sma_val(data, period, i) * period <= closes_sum(data, i + 1 - period, i + 1)
            < sma_val(data, period, i) * period + period,
{
    let s = closes_sum(data, i + 1 - period, i + 1);
    vstd::arithmetic::div_mod::lemma_fundamental_div_mod(s, period);
    assert(s == period * (s / period) + s % period);
    assert(period * (s / period) == (s / period) * period) by (nonlinear_arith);
}

} // verus!
