//! Relative strength index with Wilder smoothing.

use vstd::prelude::*;

use crate::candle::Candle;
use crate::indicators::closes_ok;
use crate::indicators::lemma_avg_bounded;
use crate::indicators::PRICE_LIMIT;
use crate::text::dec_rep;
use crate::text::u64_to_string;

verus! {

/// The upward close-to-close change at position `i`, zero when the close
/// fell or held.
pub open spec fn gain_at(data: Seq<Candle>, i: int) -> int {
    if data[i].close > data[i - 1].close {
        data[i].close - data[i - 1].close
    } else {
        0
    }
}

/// The downward close-to-close change at position `i`, zero when the
/// close rose or held.
pub open spec fn loss_at(data: Seq<Candle>, i: int) -> int {
    if data[i].close < data[i - 1].close {
        data[i - 1].close - data[i].close
    } else {
        0
    }
}

/// Sum of the gains over transitions `[from, to)`.
pub open spec fn gains_sum(data: Seq<Candle>, from: int, to: int) -> int
    decreases to - from,
{
    if to <= from {
        0
    } else {
        gains_sum(data, from, to - 1) + gain_at(data, to - 1)
    }
}

/// Sum of the losses over transitions `[from, to)`.
pub open spec fn losses_sum(data: Seq<Candle>, from: int, to: int) -> int
    decreases to - from,
{
    if to <= from {
        0
    } else {
        losses_sum(data, from, to - 1) + loss_at(data, to - 1)
    }
}

/// Wilder-smoothed average gain at position `i`: the plain mean of the
/// first `period` gains as the seed, then
/// `(previous * (period - 1) + gain) / period`.
pub open spec fn avg_gain(data: Seq<Candle>, period: int, i: int) -> int
    decreases i,
{
    if period < 1 || i <= period {
        gains_sum(data, 1, period + 1) / period
    } else {
        (avg_gain(data, period, i - 1) * (period - 1) + gain_at(data, i)) / period
    }
}

/// Wilder-smoothed average loss at position `i`.
pub open spec fn avg_loss(data: Seq<Candle>, period: int, i: int) -> int
    decreases i,
{
    if period < 1 || i <= period {
        losses_sum(data, 1, period + 1) / period
    } else {
        (avg_loss(data, period, i - 1) * (period - 1) + loss_at(data, i)) / period
    }
}

/// Whether the index is defined at position `i`: `period` transitions,
/// hence `period + 1` closes, must precede it, so the first defined
/// position is exactly `period`.
pub open spec fn rsi_defined(period: int, i: int) -> bool {
    i >= period
}

/// The index value at position `i`, in millionths of an index point:
/// one hundred when the average loss is zero (zero realized loss is
/// maximal relative strength, even in the all-flat case), else
/// `100 * avg_gain / (avg_gain + avg_loss)`.
pub open spec fn rsi_val(data: Seq<Candle>, period: int, i: int) -> int {
    if avg_loss(data, period, i) == 0 {
        100_000_000
    } else {
        100_000_000 * avg_gain(data, period, i) / (avg_gain(data, period, i) + avg_loss(
            data,
            period,
            i,
        ))
    }
}

/// The aligned output position for index `i`.
pub open spec fn rsi_at(data: Seq<Candle>, period: int, i: int) -> Option<u64> {
    if rsi_defined(period, i) {
        Some((rsi_val(data, period, i)) as u64)
    } else {
        None
    }
}

/// A single gain or loss is within the price bound.
proof fn lemma_step_bounded(data: Seq<Candle>, i: int)
    requires
        closes_ok(data),
        1 <= i < data.len(),
    ensures
        0 <= gain_at(data, i) <= PRICE_LIMIT,
        0 <= loss_at(data, i) <= PRICE_LIMIT,
{
}

/// Sums of `n` gains or losses lie between zero and `n` times the bound.
proof fn lemma_sums_bounded(data: Seq<Candle>, from: int, to: int)
    requires
        closes_ok(data),
        1 <= from <= to <= data.len(),
    ensures
        0 <= gains_sum(data, from, to) <= (to - from) * (PRICE_LIMIT as int),
        0 <= losses_sum(data, from, to) <= (to - from) * (PRICE_LIMIT as int),
    decreases to - from,
{
    if from < to {
        lemma_sums_bounded(data, from, to - 1);
        lemma_step_bounded(data, to - 1);
        assert((to - 1 - from) * (PRICE_LIMIT as int) + (PRICE_LIMIT as int) == (to - from)
            * (PRICE_LIMIT as int)) by (nonlinear_arith);
    }
}

/// The smoothed averages stay within the price bound.
pub proof fn lemma_avgs_bounded(data: Seq<Candle>, period: int, i: int)
    requires
        closes_ok(data),
        period >= 1,
        period < data.len(),
        period <= i < data.len(),
    ensures
        0 <= avg_gain(data, period, i) <= PRICE_LIMIT,
        0 <= avg_loss(data, period, i) <= PRICE_LIMIT,
    decreases i,
{
    if i <= period {
        lemma_sums_bounded(data, 1, period + 1);
        lemma_avg_bounded(gains_sum(data, 1, period + 1), period, PRICE_LIMIT as int);
        lemma_avg_bounded(losses_sum(data, 1, period + 1), period, PRICE_LIMIT as int);
    } else {
        lemma_avgs_bounded(data, period, i - 1);
        lemma_step_bounded(data, i);
        let ag = avg_gain(data, period, i - 1);
        let al = avg_loss(data, period, i - 1);
        assert(ag * (period - 1) + gain_at(data, i) <= period * (PRICE_LIMIT as int))
            by (nonlinear_arith)
            requires
                0 <= ag <= PRICE_LIMIT,
                0 <= gain_at(data, i) <= PRICE_LIMIT,
                period >= 1,
        ;
        assert(ag * (period - 1) + gain_at(data, i) >= 0) by (nonlinear_arith)
            requires
                0 <= ag,
                0 <= gain_at(data, i),
                period >= 1,
        ;
        lemma_avg_bounded(
            ag * (period - 1) + gain_at(data, i),
            period,
            PRICE_LIMIT as int,
        );
        assert(al * (period - 1) + loss_at(data, i) <= period * (PRICE_LIMIT as int))
            by (nonlinear_arith)
            requires
                0 <= al <= PRICE_LIMIT,
                0 <= loss_at(data, i) <= PRICE_LIMIT,
                period >= 1,
        ;
        assert(al * (period - 1) + loss_at(data, i) >= 0) by (nonlinear_arith)
            requires
                0 <= al,
                0 <= loss_at(data, i),
                period >= 1,
        ;
        lemma_avg_bounded(
            al * (period - 1) + loss_at(data, i),
            period,
            PRICE_LIMIT as int,
        );
    }
}

/// The index value lies between zero and one hundred points.
pub proof fn lemma_rsi_in_range(data: Seq<Candle>, period: int, i: int)
    requires
        closes_ok(data),
        period >= 1,
        period < data.len(),
        period <= i < data.len(),
    ensures
        0 <= rsi_val(data, period, i) <= 100_000_000,
{
    lemma_avgs_bounded(data, period, i);
    let g = avg_gain(data, period, i);
    let l = avg_loss(data, period, i);
    if l != 0 {
        vstd::arithmetic::div_mod::lemma_div_pos_is_pos(100_000_000 * g, g + l);
        assert(100_000_000 * g <= (g + l) * 100_000_000) by (nonlinear_arith)
            requires
                0 <= g,
                0 <= l,
        ;
        vstd::arithmetic::div_mod::lemma_div_is_ordered(
            100_000_000 * g,
            (g + l) * 100_000_000,
            g + l,
        );
        vstd::arithmetic::div_mod::lemma_div_multiples_vanish(100_000_000, g + l);
    }
}

/// The relative strength index of the close.
pub struct Rsi {
    period: usize,
}

impl Rsi {
    /// The configured period.
    pub closed spec fn period_spec(self) -> int {
        self.period as int
    }

    /// Creates the indicator; a zero period is a configuration error and
    /// is rejected before construction.
    pub fn new(period: usize) -> (r: Self)
        requires
            period >= 1,
        ensures
            r.period_spec() == period,
    {
        Rsi { period }
    }

    /// The indicator's display name.
    pub fn name(&self) -> (r: String)
        ensures
            r@ == "RSI("@ + dec_rep(self.period_spec()) + ")"@,
    {
        let mut s = String::from_str("RSI(");
        s.append(u64_to_string(self.period as u64).as_str());
        s.append(")");
        proof {
            assert("RSI("@ + dec_rep(self.period as int) + ")"@ =~= ("RSI("@ + dec_rep(
                self.period as int,
            )) + ")"@);
        }
        s
    }

    /// Computes the index for every position, aligned with the input:
    /// undefined markers through position `period - 1`, the seeded value
    /// at `period`, and Wilder smoothing after it.
    pub fn calculate(&self, data: &[Candle]) -> (r: Vec<Option<u64>>)
        requires
            closes_ok(data@),
            self.period_spec() >= 1,
        ensures
            r@.len() == data@.len(),
            forall|i: int| 0 <= i < data@.len() ==> #[trigger] r@[i] == rsi_at(
                data@,
                self.period_spec(),
                i,
            ),
    {
        let ghost p = self.period as int;
        let n = data.len();
        let mut out: Vec<Option<u64>> = Vec::new();
        let mut gsum: u128 = 0;
        let mut lsum: u128 = 0;
        let mut ag: u64 = 0;
        let mut al: u64 = 0;
        let mut i: usize = 0;
        while i < n
            invariant
                closes_ok(data@),
                p == self.period as int,
                p >= 1,
                i <= n,
                n == data@.len(),
                out@.len() == i,
                i == 0 ==> gsum == 0 && lsum == 0,
                1 <= i && i <= self.period ==> gsum == gains_sum(data@, 1, i as int)
                    && lsum == losses_sum(data@, 1, i as int),
                i > self.period ==> ag == avg_gain(data@, p, i - 1) && al == avg_loss(
                    data@,
                    p,
                    i - 1,
                ) && ag <= PRICE_LIMIT && al <= PRICE_LIMIT,
                forall|j: int| 0 <= j < i ==> #[trigger] out@[j] == rsi_at(data@, p, j),
            decreases n - i,
        {
            if i == 0 {
                proof {
                    assert(gains_sum(data@, 1, 1) == 0);
                    assert(losses_sum(data@, 1, 1) == 0);
                }
                out.push(None);
            } else if i < self.period {
                proof {
                    lemma_sums_bounded(data@, 1, i as int);
                    lemma_step_bounded(data@, i as int);
                    assert((i - 1) * (PRICE_LIMIT as int) + (PRICE_LIMIT as int) <= (
                    i as int) * (PRICE_LIMIT as int)) by (nonlinear_arith);
                    assert((i as int) * (PRICE_LIMIT as int) < u128::MAX)
                        by (nonlinear_arith)
                        requires
                            0 <= i as int <= 0x1_0000_0000_0000_0000,
                    ;
                }
                let c = data[i].close;
                let prev = data[i - 1].close;
                if c > prev {
                    gsum = gsum + (c - prev) as u128;
                } else if c < prev {
                    lsum = lsum + (prev - c) as u128;
                }
                proof {
                    assert(gains_sum(data@, 1, i + 1) == gains_sum(data@, 1, i as int)
                        + gain_at(data@, i as int));
                    assert(losses_sum(data@, 1, i + 1) == losses_sum(data@, 1, i as int)
                        + loss_at(data@, i as int));
                }
                out.push(None);
            } else if i == self.period {
                proof {
                    lemma_sums_bounded(data@, 1, i as int);
                    lemma_step_bounded(data@, i as int);
                    assert((i - 1) * (PRICE_LIMIT as int) + (PRICE_LIMIT as int) <= (
                    i as int) * (PRICE_LIMIT as int)) by (nonlinear_arith);
                    assert((i as int) * (PRICE_LIMIT as int) < u128::MAX)
                        by (nonlinear_arith)
                        requires
                            0 <= i as int <= 0x1_0000_0000_0000_0000,
                    ;
                }
                let c = data[i].close;
                let prev = data[i - 1].close;
                if c > prev {
                    gsum = gsum + (c - prev) as u128;
                } else if c < prev {
                    lsum = lsum + (prev - c) as u128;
                }
                proof {
                    assert(gains_sum(data@, 1, i + 1) == gains_sum(data@, 1, i as int)
                        + gain_at(data@, i as int));
                    assert(losses_sum(data@, 1, i + 1) == losses_sum(data@, 1, i as int)
                        + loss_at(data@, i as int));
                    lemma_sums_bounded(data@, 1, p + 1);
                    lemma_avg_bounded(gains_sum(data@, 1, p + 1), p, PRICE_LIMIT as int);
                    lemma_avg_bounded(losses_sum(data@, 1, p + 1), p, PRICE_LIMIT as int);
                }
                ag = (gsum / (self.period as u128)) as u64;
                al = (lsum / (self.period as u128)) as u64;
                proof {
                    lemma_rsi_in_range(data@, p, i as int);
                }
                out.push(Some(rsi_point(ag, al)));
            } else {
                proof {
                    lemma_step_bounded(data@, i as int);
                    lemma_avgs_bounded(data@, p, i as int);
                    assert((ag as int) * (p - 1) + gain_at(data@, i as int) <= p * (
                    PRICE_LIMIT as int)) by (nonlinear_arith)
                        requires
                            0 <= ag as int <= PRICE_LIMIT,
                            0 <= gain_at(data@, i as int) <= PRICE_LIMIT,
                            p >= 1,
                    ;
                    assert((al as int) * (p - 1) + loss_at(data@, i as int) <= p * (
                    PRICE_LIMIT as int)) by (nonlinear_arith)
                        requires
                            0 <= al as int <= PRICE_LIMIT,
                            0 <= loss_at(data@, i as int) <= PRICE_LIMIT,
                            p >= 1,
                    ;
                    assert(p * (PRICE_LIMIT as int) < u128::MAX) by (nonlinear_arith)
                        requires
                            0 <= p <= 0x1_0000_0000_0000_0000,
                    ;
                    lemma_avg_bounded(
                        (ag as int) * (p - 1) + gain_at(data@, i as int),
                        p,
                        PRICE_LIMIT as int,
                    );
                    lemma_avg_bounded(
                        (al as int) * (p - 1) + loss_at(data@, i as int),
                        p,
                        PRICE_LIMIT as int,
                    );
                }
                let c = data[i].close;
                let prev = data[i - 1].close;
                let g: u64 = if c > prev {
                    c - prev
                } else {
                    0
                };
                let l: u64 = if c < prev {
                    prev - c
                } else {
                    0
                };
                ag = (((ag as u128) * ((self.period - 1) as u128) + (g as u128)) / (
                self.period as u128)) as u64;
                al = (((al as u128) * ((self.period - 1) as u128) + (l as u128)) / (
                self.period as u128)) as u64;
                proof {
                    lemma_rsi_in_range(data@, p, i as int);
                }
                out.push(Some(rsi_point(ag, al)));
            }
            i += 1;
        }
        out
    }
}

/// The index value from a smoothed gain and loss pair.
fn rsi_point(ag: u64, al: u64) -> (r: u64)
    requires
        ag <= PRICE_LIMIT,
        al <= PRICE_LIMIT,
    ensures
        r == if al == 0 {
            100_000_000int
        } else {
            100_000_000 * (ag as int) / (ag as int + al as int)
        },
{
    if al == 0 {
        100_000_000
    } else {
        proof {
            vstd::arithmetic::div_mod::lemma_div_pos_is_pos(
                100_000_000 * (ag as int),
                ag as int + al as int,
            );
            assert(100_000_000 * (ag as int) <= (ag as int + al as int) * 100_000_000)
                by (nonlinear_arith)
                requires
                    0 <= ag as int,
                    0 <= al as int,
            ;
            vstd::arithmetic::div_mod::lemma_div_is_ordered(
                100_000_000 * (ag as int),
                (ag as int + al as int) * 100_000_000,
                ag as int + al as int,
            );
            vstd::arithmetic::div_mod::lemma_div_multiples_vanish(
                100_000_000,
                ag as int + al as int,
            );
        }
        ((100_000_000u128 * (ag as u128)) / ((ag as u128) + (al as u128))) as u64
    }
}

} // verus!
