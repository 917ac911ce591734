//! Exponential moving average.

use vstd::prelude::*;

use crate::candle::Candle;
use crate::indicators::closes_ok;
use crate::indicators::closes_sum;
use crate::indicators::lemma_avg_bounded;
use crate::indicators::lemma_closes_sum_bounds;
use crate::indicators::PRICE_LIMIT;
use crate::text::dec_rep;
use crate::text::u64_to_string;

verus! {

/// Whether the average is defined at position `i`: the seed needs the
/// first `period` closes.
pub open spec fn ema_defined(period: int, i: int) -> bool {
    i >= period - 1
}

/// The average at position `i`. The seed at `period - 1` is the plain
/// mean of the first `period` closes; each later position moves the
/// previous value toward the close by the fraction `2 / (period + 1)`,
/// rounded toward the previous value.
pub open spec fn ema_val(data: Seq<Candle>, period: int, i: int) -> int
    decreases i,
{
    if period < 1 || i <= period - 1 {
        closes_sum(data, 0, period) / period
    } else {
        let e = ema_val(data, period, i - 1);
        let c = data[i].close as int;
        if c >= e {
            e + 2 * (c - e) / (period + 1)
        } else {
            e - 2 * (e - c) / (period + 1)
        }
    }
}

/// The aligned output position for index `i`.
pub open spec fn ema_at(data: Seq<Candle>, period: int, i: int) -> Option<u64> {
    if ema_defined(period, i) {
        Some((ema_val(data, period, i)) as u64)
    } else {
        None
    }
}

/// The average stays within the price bound: each step lands between the
/// previous value and the new close.
pub proof fn lemma_ema_bounded(data: Seq<Candle>, period: int, i: int)
    requires
        closes_ok(data),
        period >= 1,
        period <= data.len(),
        period - 1 <= i < data.len(),
    ensures
        0 <= ema_val(data, period, i) <= PRICE_LIMIT,
    decreases i,
{
    if i <= period - 1 {
        lemma_closes_sum_bounds(data, 0, period);
        lemma_avg_bounded(closes_sum(data, 0, period), period, PRICE_LIMIT as int);
    } else {
        lemma_ema_bounded(data, period, i - 1);
        let e = ema_val(data, period, i - 1);
        let c = data[i].close as int;
        if c >= e {
            lemma_step_toward(e, c, period);
        } else {
            lemma_step_toward_down(e, c, period);
        }
    }
}

/// An upward step stays between the old value and the close.
proof fn lemma_step_toward(e: int, c: int, period: int)
    requires
        period >= 1,
        0 <= e <= c,
    ensures
        e <= e + 2 * (c - e) / (period + 1) <= c,
{
    let d = c - e;
    vstd::arithmetic::div_mod::lemma_div_pos_is_pos(2 * d, period + 1);
    assert(2 * d <= (period + 1) * d) by (nonlinear_arith)
        requires
            period >= 1,
            d >= 0,
    ;
    vstd::arithmetic::div_mod::lemma_div_is_ordered(2 * d, (period + 1) * d, period + 1);
    vstd::arithmetic::div_mod::lemma_div_multiples_vanish(d, period + 1);
}

/// A downward step stays between the close and the old value.
proof fn lemma_step_toward_down(e: int, c: int, period: int)
    requires
        period >= 1,
        0 <= c < e,
    ensures
        c <= e - 2 * (e - c) / (period + 1) <= e,
{
    let d = e - c;
    vstd::arithmetic::div_mod::lemma_div_pos_is_pos(2 * d, period + 1);
    assert(2 * d <= (period + 1) * d) by (nonlinear_arith)
        requires
            period >= 1,
            d >= 0,
    ;
    vstd::arithmetic::div_mod::lemma_div_is_ordered(2 * d, (period + 1) * d, period + 1);
    vstd::arithmetic::div_mod::lemma_div_multiples_vanish(d, period + 1);
}

/// The exponential moving average of the close.
pub struct Ema {
    period: usize,
}

impl Ema {
    /// The configured period.
    pub closed spec fn period_spec(self) -> int {
        self.period as int
    }

    /// Creates the indicator; a zero period is a configuration error and
    /// is rejected before construction.
    pub fn new(period: usize) -> (r: Self)
        requires
            period >= 1,
        ensures
            r.period_spec() == period,
    {
        Ema { period }
    }

    /// The indicator's display name.
    pub fn name(&self) -> (r: String)
        ensures
            r@ == "EMA("@ + dec_rep(self.period_spec()) + ")"@,
    {
        let mut s = String::from_str("EMA(");
        s.append(u64_to_string(self.period as u64).as_str());
        s.append(")");
        proof {
            assert("EMA("@ + dec_rep(self.period as int) + ")"@ =~= ("EMA("@ + dec_rep(
                self.period as int,
            )) + ")"@);
        }
        s
    }

    /// Computes the average for every position, aligned with the input:
    /// undefined markers before the seed, the seed mean at `period - 1`,
    /// and the exponential recurrence after it.
    pub fn calculate(&self, data: &[Candle]) -> (r: Vec<Option<u64>>)
        requires
            closes_ok(data@),
            self.period_spec() >= 1,
        ensures
            r@.len() == data@.len(),
            forall|i: int| 0 <= i < data@.len() ==> #[trigger] r@[i] == ema_at(
                data@,
                self.period_spec(),
                i,
            ),
    {
        let ghost p = self.period as int;
        let n = data.len();
        let mut out: Vec<Option<u64>> = Vec::new();
        let mut sum: u128 = 0;
        let mut e: u64 = 0;
        let mut i: usize = 0;
        while i < n
            invariant
                closes_ok(data@),
                p == self.period as int,
                p >= 1,
                i <= n,
                n == data@.len(),
                out@.len() == i,
                i < self.period ==> sum == closes_sum(data@, 0, i as int),
                i >= self.period ==> e == ema_val(data@, p, i - 1) && e <= PRICE_LIMIT,
                forall|j: int| 0 <= j < i ==> #[trigger] out@[j] == ema_at(data@, p, j),
            decreases n - i,
        {
            if i + 1 < self.period {
                proof {
                    lemma_closes_sum_bounds(data@, 0, i as int);
                    assert((i as int) * (PRICE_LIMIT as int) + (PRICE_LIMIT as int) <= (
                    i + 1) * (PRICE_LIMIT as int)) by (nonlinear_arith);
                    assert((i + 1) * (PRICE_LIMIT as int) < u128::MAX) by (nonlinear_arith)
                        requires
                            0 <= i + 1 <= 0x1_0000_0000_0000_0000,
                    ;
                }
                sum = sum + data[i].close as u128;
                out.push(None);
            } else if i + 1 == self.period {
                proof {
                    lemma_closes_sum_bounds(data@, 0, i as int);
                    assert((i as int) * (PRICE_LIMIT as int) + (PRICE_LIMIT as int) <= (
                    i + 1) * (PRICE_LIMIT as int)) by (nonlinear_arith);
                    assert((i + 1) * (PRICE_LIMIT as int) < u128::MAX) by (nonlinear_arith)
                        requires
                            0 <= i + 1 <= 0x1_0000_0000_0000_0000,
                    ;
                }
                sum = sum + data[i].close as u128;
                proof {
                    lemma_closes_sum_bounds(data@, 0, p);
                    lemma_avg_bounded(closes_sum(data@, 0, p), p, PRICE_LIMIT as int);
                }
                e = (sum / (self.period as u128)) as u64;
                out.push(Some(e));
            } else {
                let c = data[i].close;
                proof {
                    lemma_ema_bounded(data@, p, i - 1);
                    if c as int >= e as int {
                        lemma_step_toward(e as int, c as int, p);
                    } else {
                        lemma_step_toward_down(e as int, c as int, p);
                    }
                }
                if c >= e {
                    let d = c - e;
                    e = e + ((2 * (d as u128)) / ((self.period as u128) + 1)) as u64;
                } else {
                    let d = e - c;
                    e = e - ((2 * (d as u128)) / ((self.period as u128) + 1)) as u64;
                }
                out.push(Some(e));
            }
            i += 1;
        }
        out
    }
}

} // verus!
