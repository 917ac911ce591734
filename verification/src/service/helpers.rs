//! Conversions between the store's candle records and the wire shapes.

use vstd::prelude::*;

use crate::candle::Candle;
use crate::error::EngineError;
use crate::service::GrpcCandle;
use crate::text::i64_to_string;
use crate::text::int_rep;

verus! {

/// Earliest representable instant: year 0 opens, in epoch milliseconds.
pub const MIN_EPOCH_MILLIS: i64 = -62_167_219_200_000;

/// Latest representable instant: year 9999 closes, in epoch milliseconds.
pub const MAX_EPOCH_MILLIS: i64 = 253_402_300_799_999;

/// Whether the wire candle `g` carries the record `c`.
pub open spec fn grpc_matches(g: GrpcCandle, c: Candle) -> bool {
    &&& g.symbol@ == c.symbol@
    &&& g.timestamp == c.timestamp
    &&& g.open == c.open
    &&& g.high == c.high
    &&& g.low == c.low
    &&& g.close == c.close
    &&& g.volume == c.volume
    &&& g.trades == c.trades as i32
}

/// Puts one stored candle into the wire shape.
pub fn to_grpc_candle(domain_candle: &Candle) -> (r: GrpcCandle)
    ensures
        grpc_matches(r, *domain_candle),
{
    GrpcCandle {
        symbol: domain_candle.symbol.clone(),
        timestamp: domain_candle.timestamp,
        open: domain_candle.open,
        high: domain_candle.high,
        low: domain_candle.low,
        close: domain_candle.close,
        volume: domain_candle.volume,
        trades: #[verifier::truncate] (domain_candle.trades as i32),
    }
}

/// Validates a wire timestamp: accepted exactly when it lies within the
/// representable range of instants.
pub fn from_grpc_timestamp(ts_millis: i64) -> (r: Result<i64, EngineError>)
    ensures
        r is Ok <==> MIN_EPOCH_MILLIS <= ts_millis <= MAX_EPOCH_MILLIS,
        r matches Ok(v) ==> v == ts_millis,
        r matches Err(e) ==> e matches EngineError::ProcessingError(m) && m@
            == "Invalid gRPC timestamp: "@ + int_rep(ts_millis as int),
{
    if MIN_EPOCH_MILLIS <= ts_millis && ts_millis <= MAX_EPOCH_MILLIS {
        Ok(ts_millis)
    } else {
        let mut m = String::from_str("Invalid gRPC timestamp: ");
        m.append(i64_to_string(ts_millis).as_str());
        Err(EngineError::ProcessingError(m))
    }
}

} // verus!
