//! Indicator computation over a stored series.
//!
//! The indicator is picked by name, case-insensitively, from the closed
//! set SMA, EMA and RSI; a missing period falls back to the indicator's
//! default (twenty for the averages, fourteen for the index).

use vstd::prelude::*;

use crate::candle::Candle;
use crate::candle::TimeFrame;
use crate::error::EngineError;
use crate::indicators::closes_ok;
use crate::indicators::ema::ema_at;
use crate::indicators::rsi::rsi_at;
use crate::indicators::sma::sma_at;
use crate::indicators::Ema;
use crate::indicators::Rsi;
use crate::indicators::Sma;
use crate::indicators::PRICE_LIMIT;
use crate::service::IndicatorRequest;
use crate::service::IndicatorResponse;
use crate::store::lemma_filter_range_unbounded;
use crate::store::MarketDataStore;
use crate::text::dec_rep;
use crate::text::eq_ignore_ascii_case;
use crate::text::upper_seq;

verus! {

/// Whether `s` names the simple moving average, up to ASCII case.
pub open spec fn kind_sma(s: Seq<char>) -> bool {
    upper_seq(s) == upper_seq("SMA"@)
}

/// Whether `s` names the exponential moving average, up to ASCII case.
pub open spec fn kind_ema(s: Seq<char>) -> bool {
    upper_seq(s) == upper_seq("EMA"@)
}

/// Whether `s` names the relative strength index, up to ASCII case.
pub open spec fn kind_rsi(s: Seq<char>) -> bool {
    upper_seq(s) == upper_seq("RSI"@)
}

/// The period used: the requested one, or the kind's default.
pub open spec fn period_eff(req: IndicatorRequest) -> int {
    match req.period {
        Some(p) => p as int,
        None => if kind_rsi(req.indicator_type@) {
            14
        } else {
            20
        },
    }
}

/// The error detail when the symbol has no data to compute over.
pub open spec fn no_candles_msg(sym: Seq<char>) -> Seq<char> {
    "No candle data found for symbol '"@ + sym
        + "' and timeframe Day1 to calculate indicator"@
}

/// The error detail for an unrecognized indicator name, named verbatim.
pub open spec fn unknown_kind_msg(kind: Seq<char>) -> Seq<char> {
    "Unknown indicator type: "@ + kind
}

/// Computes one indicator over the symbol's full stored series under the
/// trading timeframe (one day). Fails when the symbol has no data, when
/// the indicator name is not SMA, EMA or RSI, when the period is zero,
/// or when a stored close exceeds the arithmetic price bound; otherwise
/// the response carries the indicator's name and its aligned values.
pub fn handle_calculate_indicator(req: &IndicatorRequest, store: &MarketDataStore) -> (r:
    Result<IndicatorResponse, EngineError>)
    requires
        store.wf(),
    ensures
        ({
            let ser = store.series(req.symbol@, TimeFrame::Day1);
            let no_data = !store.has_series(req.symbol@, TimeFrame::Day1) || ser.len()
                == 0;
            let known = kind_sma(req.indicator_type@) || kind_ema(req.indicator_type@)
                || kind_rsi(req.indicator_type@);
            let p = period_eff(*req);
            &&& (no_data ==> (r matches Err(e) && e matches EngineError::MarketDataError(
                m,
            ) && m@ == no_candles_msg(req.symbol@)))
            &&& (!no_data && !known ==> (r matches Err(e) && e
                matches EngineError::IndicatorError(m) && m@ == unknown_kind_msg(
                req.indicator_type@,
            )))
            &&& (!no_data && known && p == 0 ==> (r matches Err(e) && e
                matches EngineError::IndicatorError(m) && m@
                == "Indicator period cannot be 0"@))
            &&& (!no_data && known && p >= 1 && !closes_ok(ser) ==> (r matches Err(e) && e
                matches EngineError::IndicatorError(m) && m@
                == "Indicator input price exceeds supported range"@))
            &&& (!no_data && known && p >= 1 && closes_ok(ser) ==> (r matches Ok(resp) && {
                &&& resp.values@.len() == ser.len()
                &&& (kind_sma(req.indicator_type@) ==> resp.indicator_name@ == "SMA("@
                    + dec_rep(p) + ")"@ && (forall|i: int|
                    0 <= i < ser.len() ==> #[trigger] resp.values@[i] == sma_at(ser, p, i)))
                &&& (!kind_sma(req.indicator_type@) && kind_ema(req.indicator_type@)
                    ==> resp.indicator_name@ == "EMA("@ + dec_rep(p) + ")"@ && (forall|i: int|
                    0 <= i < ser.len() ==> #[trigger] resp.values@[i] == ema_at(ser, p, i)))
                &&& (!kind_sma(req.indicator_type@) && !kind_ema(req.indicator_type@)
                    && kind_rsi(req.indicator_type@) ==> resp.indicator_name@ == "RSI("@
                    + dec_rep(p) + ")"@ && (forall|i: int|
                    0 <= i < ser.len() ==> #[trigger] resp.values@[i] == rsi_at(ser, p, i)))
            }))
        }),
{
    let ghost ser = store.series(req.symbol@, TimeFrame::Day1);
    proof {
        lemma_filter_range_unbounded(ser);
    }
    let candles = match store.get_candles(req.symbol.as_str(), TimeFrame::Day1, None, None) {
        Some(v) => v,
        None => {
            return Err(EngineError::MarketDataError(build_no_candles_msg(req.symbol.as_str())));
        },
    };
    if candles.len() == 0 {
        return Err(EngineError::MarketDataError(build_no_candles_msg(req.symbol.as_str())));
    }

    proof {
        reveal_strlit("SMA");
        reveal_strlit("EMA");
        reveal_strlit("RSI");
        assert(upper_seq("SMA"@)[0] == 'S' && upper_seq("EMA"@)[0] == 'E' && upper_seq(
            "RSI"@,
        )[0] == 'R');
        assert(upper_seq("SMA"@) != upper_seq("EMA"@));
        assert(upper_seq("SMA"@) != upper_seq("RSI"@));
        assert(upper_seq("EMA"@) != upper_seq("RSI"@));
    }
    let sma_kind = eq_ignore_ascii_case(req.indicator_type.as_str(), "SMA");
    let ema_kind = !sma_kind && eq_ignore_ascii_case(req.indicator_type.as_str(), "EMA");
    let rsi_kind = !sma_kind && !ema_kind && eq_ignore_ascii_case(
        req.indicator_type.as_str(),
        "RSI",
    );
    if !sma_kind && !ema_kind && !rsi_kind {
        let mut m = String::from_str("Unknown indicator type: ");
        m.append(req.indicator_type.as_str());
        return Err(EngineError::IndicatorError(m));
    }

    let period: usize = match req.period {
        Some(p) => p,
        None => if rsi_kind {
            14
        } else {
            20
        },
    };
    if period == 0 {
        return Err(
            EngineError::IndicatorError(String::from_str("Indicator period cannot be 0")),
        );
    }

    if !closes_within_limit(&candles) {
        return Err(
            EngineError::IndicatorError(
                String::from_str("Indicator input price exceeds supported range"),
            ),
        );
    }

    if sma_kind {
        let ind = Sma::new(period);
        Ok(IndicatorResponse { indicator_name: ind.name(), values: ind.calculate(candles.as_slice()) })
    } else if ema_kind {
        let ind = Ema::new(period);
        Ok(IndicatorResponse { indicator_name: ind.name(), values: ind.calculate(candles.as_slice()) })
    } else {
        let ind = Rsi::new(period);
        Ok(IndicatorResponse { indicator_name: ind.name(), values: ind.calculate(candles.as_slice()) })
    }
}

/// Whether every close of `v` is within the arithmetic price bound.
fn closes_within_limit(v: &Vec<Candle>) -> (r: bool)
    ensures
        r == closes_ok(v@),
{
    let n = v.len();
    let mut i: usize = 0;
    while i < n
        invariant
            i <= n,
            n == v@.len(),
            forall|j: int| 0 <= j < i ==> #[trigger] v@[j].close <= PRICE_LIMIT,
        decreases n - i,
    {
        if v[i].close > PRICE_LIMIT {
            return false;
        }
        i += 1;
    }
    true
}

/// Builds the no-data error detail for a symbol.
fn build_no_candles_msg(sym: &str) -> (r: String)
    ensures
        r@ == no_candles_msg(sym@),
{
    let mut m = String::from_str("No candle data found for symbol '");
    m.append(sym);
    m.append("' and timeframe Day1 to calculate indicator");
    m
}

} // verus!
