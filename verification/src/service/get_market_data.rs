//! Range queries over a stored series, answered in the wire shape.

use vstd::prelude::*;

use crate::candle::TimeFrame;
use crate::error::EngineError;
use crate::service::helpers::from_grpc_timestamp;
use crate::service::helpers::grpc_matches;
use crate::service::helpers::to_grpc_candle;
use crate::service::helpers::MAX_EPOCH_MILLIS;
use crate::service::helpers::MIN_EPOCH_MILLIS;
use crate::service::MarketDataRequest;
use crate::service::MarketDataResponse;
use crate::store::filter_range;
use crate::store::MarketDataStore;
use crate::text::int_rep;

verus! {

/// The error detail when the queried series does not exist at all.
pub open spec fn not_found_msg(sym: Seq<char>) -> Seq<char> {
    "Market data not found for symbol '"@ + sym + "' and timeframe Day1"@
}

/// Whether a wire timestamp is within the representable range.
pub open spec fn ts_valid(ms: i64) -> bool {
    MIN_EPOCH_MILLIS <= ms <= MAX_EPOCH_MILLIS
}

/// Answers a range query over the symbol's series under the trading
/// timeframe (one day), bounds inclusive. An unknown symbol is an error,
/// distinct from a known symbol with nothing in range, which is an empty
/// answer. The bounds are validated first, the lower one before the
/// upper one.
pub fn handle_get_market_data(req: &MarketDataRequest, store: &MarketDataStore) -> (r:
    Result<MarketDataResponse, EngineError>)
    requires
        store.wf(),
    ensures
        ({
            let ser = store.series(req.symbol@, TimeFrame::Day1);
            let picked = filter_range(
                ser,
                Some(req.from_timestamp),
                Some(req.to_timestamp),
            );
            &&& (!ts_valid(req.from_timestamp) ==> (r matches Err(e) && e
                matches EngineError::ProcessingError(m) && m@ == "Invalid gRPC timestamp: "@
                + int_rep(req.from_timestamp as int)))
            &&& (ts_valid(req.from_timestamp) && !ts_valid(req.to_timestamp) ==> (r
                matches Err(e) && e matches EngineError::ProcessingError(m) && m@
                == "Invalid gRPC timestamp: "@ + int_rep(req.to_timestamp as int)))
            &&& (ts_valid(req.from_timestamp) && ts_valid(req.to_timestamp)
                && !store.has_series(req.symbol@, TimeFrame::Day1) ==> (r matches Err(e)
                && e matches EngineError::MarketDataError(m) && m@ == not_found_msg(
                req.symbol@,
            )))
            &&& (ts_valid(req.from_timestamp) && ts_valid(req.to_timestamp)
                && store.has_series(req.symbol@, TimeFrame::Day1) ==> (r matches Ok(resp)
                && {
                &&& resp.candles@.len() == picked.len()
                &&& (forall|i: int|
                    0 <= i < picked.len() ==> grpc_matches(
                        #[trigger] resp.candles@[i],
                        picked[i],
                    ))
            }))
        }),
{
    let from_ts = match from_grpc_timestamp(req.from_timestamp) {
        Ok(v) => v,
        Err(e) => {
            return Err(e);
        },
    };
    let to_ts = match from_grpc_timestamp(req.to_timestamp) {
        Ok(v) => v,
        Err(e) => {
            return Err(e);
        },
    };
    let candles = match store.get_candles(
        req.symbol.as_str(),
        TimeFrame::Day1,
        Some(from_ts),
        Some(to_ts),
    ) {
        Some(v) => v,
        None => {
            let mut m = String::from_str("Market data not found for symbol '");
            m.append(req.symbol.as_str());
            m.append("' and timeframe Day1");
            return Err(EngineError::MarketDataError(m));
        },
    };
    let n = candles.len();
    let mut out: Vec<crate::service::GrpcCandle> = Vec::new();
    let mut i: usize = 0;
    while i < n
        invariant
            i <= n,
            n == candles@.len(),
            out@.len() == i,
            forall|j: int|
                0 <= j < i ==> grpc_matches(#[trigger] out@[j], candles@[j]),
        decreases n - i,
    {
        out.push(to_grpc_candle(&candles[i]));
        i += 1;
    }
    Ok(MarketDataResponse { candles: out })
}

} // verus!
