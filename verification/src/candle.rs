//! The core market-data records: one OHLCV observation and the closed set
//! of timeframes that partition a symbol's series.

use vstd::prelude::*;

verus! {

/// The bucket width partitioning a symbol's series.
#[derive(Debug, Clone, Copy, PartialEq, Eq, Hash, Structural)]
pub enum TimeFrame {
    Minute1,
    Minute5,
    Minute15,
    Minute30,
    Hour1,
    Day1,
}

/// One OHLCV observation.
///
/// `timestamp` is in milliseconds since the Unix epoch; prices and volume
/// are fixed-point values in millionths of a unit. No price-ordering
/// invariant is imposed: source data may violate `low <= open,close <= high`
/// and consumers must tolerate that.
#[derive(Debug)]
pub struct Candle {
    pub symbol: String,
    pub timestamp: i64,
    pub open: u64,
    pub high: u64,
    pub low: u64,
    pub close: u64,
    pub volume: u64,
    pub trades: u32,
}

impl Clone for Candle {
    /// A clone is the same observation.
    fn clone(&self) -> (r: Self)
        ensures
            r == *self,
    {
        Candle {
            symbol: self.symbol.clone(),
            timestamp: self.timestamp,
            open: self.open,
            high: self.high,
            low: self.low,
            close: self.close,
            volume: self.volume,
            trades: self.trades,
        }
    }
}

} // verus!
